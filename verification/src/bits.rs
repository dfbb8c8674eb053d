//! Bit-level model of bitboards: single-bit membership, population count,
//! powers of two, and the lemmas relating them to the machine operations.

use vstd::prelude::*;

verus! {

/// True when bit `s` of the bitboard `b` is set, i.e. square `s` is in `b`.
pub open spec fn bit_set(b: u64, s: u64) -> bool {
    s < 64 && (b >> s) & 1u64 == 1u64
}

/// `a` is a submask of `b`: every bit of `a` is also set in `b`.
pub open spec fn submask(a: u64, b: u64) -> bool {
    a & b == a
}

/// Number of set bits of `b`.
pub open spec fn popcount(b: u64) -> nat
    decreases b,
{
    if b == 0 {
        0
    } else {
        ((b % 2) + popcount(b / 2)) as nat
    }
}

/// 2^n.
pub open spec fn pow2(n: nat) -> nat
    decreases n,
{
    if n == 0 {
        1
    } else {
        2 * pow2((n - 1) as nat)
    }
}

/// Bit membership distributes over bitwise or.
pub broadcast proof fn lemma_bit_or(a: u64, b: u64, s: u64)
    ensures
        #[trigger] bit_set(a | b, s) <==> bit_set(a, s) || bit_set(b, s),
{
    assert(bit_set(a | b, s) <==> bit_set(a, s) || bit_set(b, s)) by (bit_vector);
}

/// The mask `1 << s` holds exactly the bit `s`.
pub broadcast proof fn lemma_bit_single(s: u64, t: u64)
    requires
        s < 64,
    ensures
        #[trigger] bit_set(1u64 << s, t) <==> t == s,
{
    assert(s < 64 ==> (bit_set(1u64 << s, t) <==> t == s)) by (bit_vector);
}

/// Zero has no bits; or-ing zero changes nothing.
pub proof fn lemma_bit_zero(a: u64, s: u64)
    ensures
        !bit_set(0u64, s),
        (a | 0u64) == a,
        (0u64 | a) == a,
{
    assert(!bit_set(0u64, s) && (a | 0u64) == a && (0u64 | a) == a) by (bit_vector);
}

/// Bitwise or is associative.
pub proof fn lemma_or_assoc(a: u64, b: u64, c: u64)
    ensures
        (a | (b | c)) == ((a | b) | c),
{
    assert((a | (b | c)) == ((a | b) | c)) by (bit_vector);
}

/// Testing a single-bit mask against a bitboard is bit membership.
pub proof fn lemma_single_bit_test(b: u64, s: u64)
    requires
        s < 64,
    ensures
        ((1u64 << s) & b > 0) <==> bit_set(b, s),
{
    assert(s < 64 ==> (((1u64 << s) & b > 0) <==> bit_set(b, s))) by (bit_vector);
}

/// Masking bits out is per-bit conjunction with the complement.
pub proof fn lemma_bit_andnot(a: u64, b: u64, s: u64)
    ensures
        bit_set(a & !b, s) <==> (bit_set(a, s) && !bit_set(b, s)),
{
    assert(bit_set(a & !b, s) <==> (bit_set(a, s) && !bit_set(b, s))) by (bit_vector);
}

/// Two bitboards with the same bits are equal.
pub proof fn lemma_bit_ext(a: u64, b: u64)
    requires
        forall|s: u64| bit_set(a, s) == bit_set(b, s),
    ensures
        a == b,
{
    if a != b {
        let d: u64 = a ^ b;
        assert(d != 0) by (bit_vector)
            requires
                d == a ^ b && a != b,
        ;
        broadcast use vstd::std_specs::bits::axiom_u64_trailing_zeros;

        let t: u64 = vstd::std_specs::bits::u64_trailing_zeros(d) as u64;
        assert((d >> t) & 1u64 == 1u64 && t < 64);
        assert(bit_set(a, t) != bit_set(b, t)) by (bit_vector)
            requires
                d == a ^ b && (d >> t) & 1u64 == 1u64 && t < 64,
        ;
    }
}

/// A bitboard with no set bits is zero.
pub proof fn lemma_popcount_zero(b: u64)
    requires
        popcount(b) == 0,
    ensures
        b == 0,
    decreases b,
{
    if b != 0 {
        assert(b % 2 == 0 && b / 2 < b);
        if b / 2 == 0 {
            assert(b == 0);
        } else {
            lemma_popcount_zero(b / 2);
        }
    }
}

/// The positions of the set bits of `b` at or above the cursor `p`, in
/// ascending order.
pub open spec fn bit_positions_from(b: u64, p: int) -> Seq<u64>
    decreases 64 - p,
{
    if p >= 64 {
        Seq::empty()
    } else if bit_set(b, p as u64) {
        seq![p as u64] + bit_positions_from(b, p + 1)
    } else {
        bit_positions_from(b, p + 1)
    }
}

/// The positions of the set bits of `b`, in ascending order.
pub open spec fn bit_positions(b: u64) -> Seq<u64> {
    bit_positions_from(b, 0)
}

/// The decoded positions at or above a cursor are exactly the set bits
/// there, listed strictly ascending.
pub proof fn lemma_bit_positions_from_props(b: u64, p: int)
    requires
        0 <= p,
    ensures
        forall|i: int|
            0 <= i < bit_positions_from(b, p).len() ==> p <= #[trigger] bit_positions_from(b, p)[i]
                < 64 && bit_set(b, bit_positions_from(b, p)[i]),
        forall|i: int, j: int|
            0 <= i < j < bit_positions_from(b, p).len() ==> #[trigger] bit_positions_from(b, p)[i]
                < #[trigger] bit_positions_from(b, p)[j],
        forall|q: u64| p <= q < 64 && bit_set(b, q) ==> bit_positions_from(b, p).contains(q),
    decreases 64 - p,
{
    if p >= 64 {
    } else {
        lemma_bit_positions_from_props(b, p + 1);
        let s2: Seq<u64> = bit_positions_from(b, p + 1);
        if bit_set(b, p as u64) {
            let s: Seq<u64> = seq![p as u64] + s2;
            assert(bit_positions_from(b, p) == s);
            assert(s[0] == p as u64);
            assert(forall|i: int| 0 < i < s.len() ==> #[trigger] s[i] == s2[i - 1]);
            assert(0 <= p);
            assert forall|i: int, j: int| 0 <= i < j < s.len() implies #[trigger] s[i]
                < #[trigger] s[j] by {
                if i == 0 {
                    assert(s[j] == s2[j - 1]);
                    assert(p + 1 <= s2[j - 1]);
                } else {
                    assert(s2[i - 1] < s2[j - 1]);
                }
            }
            assert forall|q: u64| p <= q < 64 && bit_set(b, q) implies bit_positions_from(
                b,
                p,
            ).contains(q) by {
                if q == p {
                    assert(s[0] == q);
                } else {
                    assert(s2.contains(q));
                    let i: int = choose|i: int| 0 <= i < s2.len() && s2[i] == q;
                    assert(s[i + 1] == q);
                }
            }
        } else {
            assert forall|q: u64| p <= q < 64 && bit_set(b, q) implies bit_positions_from(
                b,
                p,
            ).contains(q) by {
                assert(q != p);
            }
        }
    }
}

/// Unchanged bits at or above the cursor leave the decoding unchanged.
proof fn lemma_bit_positions_from_agree(b1: u64, b2: u64, p: int)
    requires
        forall|q: u64| p <= q < 64 ==> bit_set(b1, q) == bit_set(b2, q),
    ensures
        bit_positions_from(b1, p) == bit_positions_from(b2, p),
    decreases 64 - p,
{
    if p < 64 {
        lemma_bit_positions_from_agree(b1, b2, p + 1);
        assert(bit_set(b1, p as u64) == bit_set(b2, p as u64));
    }
}

/// A run of clear bits may be skipped by the cursor.
proof fn lemma_bit_positions_from_skip(b: u64, p: int, q: int)
    requires
        0 <= p <= q,
        forall|t: u64| p <= t < q ==> !bit_set(b, t),
    ensures
        bit_positions_from(b, p) == bit_positions_from(b, q),
    decreases q - p,
{
    if p < q {
        if p >= 64 {
            lemma_bit_positions_from_skip(b, p + 1, q);
        } else {
            assert(!bit_set(b, p as u64));
            lemma_bit_positions_from_skip(b, p + 1, q);
        }
    }
}

/// Decoding splits at the lowest set bit: that bit's position first, then
/// the decoding of the mask with it cleared.
pub proof fn lemma_bit_positions_split(b: u64)
    requires
        b != 0,
    ensures
        ({
            let t = vstd::std_specs::bits::u64_trailing_zeros(b) as u64;
            bit_positions(b) == seq![t] + bit_positions((b & !(1u64 << t)) as u64)
        }),
{
    broadcast use vstd::std_specs::bits::axiom_u64_trailing_zeros;

    let t: u64 = vstd::std_specs::bits::u64_trailing_zeros(b) as u64;
    let bc: u64 = b & !(1u64 << t);
    assert(t < 64 && (b >> t) & 1u64 == 1u64);
    assert forall|q: u64| q < t implies !bit_set(b, q) by {
        assert((b >> q) & 1u64 == 0u64);
    }
    lemma_bit_positions_from_skip(b, 0, t as int);
    assert(bit_positions_from(b, t as int) == seq![t] + bit_positions_from(b, t as int + 1));
    assert forall|q: u64| t as int + 1 <= q < 64 implies bit_set(b, q) == bit_set(bc, q) by {
        assert(t < q < 64 ==> ((b >> q) & 1u64 == (bc >> q) & 1u64)) by (bit_vector)
            requires
                bc == b & !(1u64 << t) && t < 64,
        ;
    }
    lemma_bit_positions_from_agree(b, bc, t as int + 1);
    assert forall|q: u64| 0 <= q < t as int + 1 implies !bit_set(bc, q) by {
        if q < t {
            assert((b >> q) & 1u64 == 0u64);
            assert((bc >> q) & 1u64 == 0u64) by (bit_vector)
                requires
                    bc == b & !(1u64 << t) && (b >> q) & 1u64 == 0u64 && q < t < 64,
            ;
        } else {
            assert((bc >> t) & 1u64 == 0u64) by (bit_vector)
                requires
                    bc == b & !(1u64 << t) && t < 64,
            ;
        }
    }
    lemma_bit_positions_from_skip(bc, 0, t as int + 1);
}

/// Zero decodes to no positions at all.
pub proof fn lemma_bit_positions_zero()
    ensures
        bit_positions(0u64) == Seq::<u64>::empty(),
{
    assert forall|t: u64| 0 <= t < 64 implies !bit_set(0u64, t) by {
        lemma_bit_zero(0u64, t);
    }
    lemma_bit_positions_from_skip(0u64, 0, 64);
}

/// A single-bit mask has one set bit.
pub proof fn lemma_popcount_single(k: u64)
    requires
        k < 64,
    ensures
        popcount(1u64 << k) == 1,
{
    let b: u64 = 1u64 << k;
    assert((b >> k) & 1u64 == 1u64 && (b & !(1u64 << k)) == 0u64) by (bit_vector)
        requires
            b == 1u64 << k && k < 64,
    ;
    lemma_popcount_clear_bit(b, k);
}

/// Clearing a set bit lowers the population count by exactly one.
pub proof fn lemma_popcount_clear_bit(b: u64, i: u64)
    requires
        i < 64,
        (b >> i) & 1u64 == 1u64,
    ensures
        popcount(b) == 1 + popcount(b & !(1u64 << i)),
    decreases i,
{
    let bc: u64 = b & !(1u64 << i);
    if i == 0 {
        assert(b % 2 == 1 && bc % 2 == 0 && bc / 2 == b / 2 && b != 0) by (bit_vector)
            requires
                (b >> 0u64) & 1u64 == 1u64 && bc == b & !(1u64 << 0u64),
        ;
        if bc == 0 {
            assert(b / 2 == 0);
        }
    } else {
        let b2: u64 = b / 2;
        let bc2: u64 = b2 & !(1u64 << (i - 1) as u64);
        assert((b2 >> (i - 1) as u64) & 1u64 == 1u64 && bc / 2 == bc2 && bc % 2 == b % 2
            && b != 0) by (bit_vector)
            requires
                0 < i < 64 && (b >> i) & 1u64 == 1u64 && b2 == b / 2 && bc == b & !(1u64 << i)
                    && bc2 == (b / 2) & !(1u64 << (i - 1) as u64),
        ;
        lemma_popcount_clear_bit(b2, (i - 1) as u64);
        assert(popcount(b) == (b % 2) + popcount(b2));
        if bc == 0 {
            assert(popcount(bc2) == 0) by {
                assert(bc2 == 0);
            }
        }
        assert(popcount(bc) == (bc % 2) + popcount(bc / 2));
    }
}

} // verus!
