//! The square-count utilities: decoding a bitboard into its set-bit
//! positions, enumerating every board mask with a given bit count, and the
//! cache mapping low-population masks to their decoded positions.

use vstd::prelude::*;
use std::collections::HashMap;
use crate::bits::{
    bit_positions, bit_set, lemma_bit_positions_from_props, lemma_bit_positions_split,
    lemma_popcount_clear_bit, lemma_popcount_single, lemma_popcount_zero, popcount,
};
use crate::constants::Constants;

verus! {

/// Linear membership scan.
fn contains_u64(v: &Vec<u64>, x: u64) -> (found: bool)
    ensures
        found == v@.contains(x),
{
    let n: usize = v.len();
    for idx in 0..n
        invariant
            n == v@.len(),
            forall|t: int| 0 <= t < idx ==> v@[t] != x,
    {
        if v[idx] == x {
            proof {
                assert(v@[idx as int] == x);
            }
            return true;
        }
    }
    false
}

impl Constants {
    /// The positions of the set bits of `num`, lowest first: repeatedly
    /// extracts the lowest set bit's index and clears it until zero.
    pub fn find_bit_positions_from_num(num: u64) -> (res: Vec<u64>)
        ensures
            res@ == bit_positions(num),
            forall|q: u64| res@.contains(q) <==> bit_set(num, q),
            forall|i: int, j: int| 0 <= i < j < res@.len() ==> res@[i] < res@[j],
    {
        let ghost orig: u64 = num;
        let mut num: u64 = num;
        let mut res: Vec<u64> = Vec::new();
        while num > 0
            invariant
                bit_positions(orig) == res@ + bit_positions(num),
            decreases num,
        {
            let pos: u32 = num.trailing_zeros();
            let pos64: u64 = pos as u64;
            proof {
                vstd::std_specs::bits::axiom_u64_trailing_zeros(num);
                lemma_bit_positions_split(num);
                assert(pos64 < 64 && (num >> pos64) & 1u64 == 1u64);
                assert((1u64 << pos64) <= num && num - (1u64 << pos64) == (num & !(1u64 << pos64))
                    && 1u64 << pos64 >= 1u64) by (bit_vector)
                    requires
                        (num >> pos64) & 1u64 == 1u64 && pos64 < 64,
                ;
                assert((res@ + seq![pos64]) + bit_positions((num & !(1u64 << pos64)) as u64) =~= res@
                    + (seq![pos64] + bit_positions((num & !(1u64 << pos64)) as u64)));
            }
            let ghost before: Seq<u64> = res@;
            res.push(pos64);
            proof {
                assert(res@ =~= before + seq![pos64]);
            }
            num = num - (1u64 << pos);
        }
        proof {
            crate::bits::lemma_bit_positions_zero();
            assert(res@ + bit_positions(0u64) =~= res@);
            lemma_bit_positions_from_props(orig, 0);
            assert forall|q: u64| res@.contains(q) implies bit_set(orig, q) by {}
            assert forall|q: u64| bit_set(orig, q) implies res@.contains(q) by {
                assert(0 <= q < 64);
            }
        }
        res
    }

    /// Every board mask with exactly `num` set bits, without duplicates and
    /// without omission.  Built by extending each mask of the next-smaller
    /// count by one more bit and discarding repeats.
    pub fn board_choose_n_all_combinations(num: u64) -> (res: Vec<u64>)
        requires
            num >= 1,
        ensures
            forall|t: int| 0 <= t < res@.len() ==> popcount(#[trigger] res@[t]) == num,
            res@.no_duplicates(),
            forall|b: u64| popcount(b) == num ==> res@.contains(b),
        decreases num,
    {
        if num == 1 {
            let mut res: Vec<u64> = Vec::new();
            for i in 0..64u64
                invariant
                    res@.len() == i,
                    forall|t: int| 0 <= t < i ==> #[trigger] res@[t] == 1u64 << (t as u64),
            {
                res.push(1u64 << i);
            }
            proof {
                assert forall|t: int| 0 <= t < res@.len() implies popcount(#[trigger] res@[t])
                    == 1 by {
                    lemma_popcount_single(t as u64);
                }
                assert forall|i: int, j: int|
                    0 <= i < res@.len() && 0 <= j < res@.len() && i != j implies res@[i] != res@[
                j] by {
                    let iu: u64 = i as u64;
                    let ju: u64 = j as u64;
                    assert(1u64 << iu != 1u64 << ju) by (bit_vector)
                        requires
                            iu < 64 && ju < 64 && iu != ju,
                    ;
                }
                assert forall|b: u64| popcount(b) == 1 implies res@.contains(b) by {
                    assert(b != 0);
                    vstd::std_specs::bits::axiom_u64_trailing_zeros(b);
                    let t: u64 = vstd::std_specs::bits::u64_trailing_zeros(b) as u64;
                    assert(t < 64 && (b >> t) & 1u64 == 1u64);
                    lemma_popcount_clear_bit(b, t);
                    lemma_popcount_zero((b & !(1u64 << t)) as u64);
                    assert(b == 1u64 << t) by (bit_vector)
                        requires
                            t < 64 && (b >> t) & 1u64 == 1u64 && (b & !(1u64 << t)) == 0u64,
                    ;
                    assert(res@[t as int] == b);
                }
            }
            return res;
        }
        let rec_res: Vec<u64> = Self::board_choose_n_all_combinations(num - 1);
        let ghost rec: Seq<u64> = rec_res@;
        let mut new_res: Vec<u64> = Vec::new();
        let nrec: usize = rec_res.len();
        for ii in 0..nrec
            invariant
                num >= 2,
                nrec == rec.len(),
                rec == rec_res@,
                forall|t: int| 0 <= t < rec.len() ==> popcount(#[trigger] rec[t]) == num - 1,
                forall|t: int| 0 <= t < new_res@.len() ==> popcount(#[trigger] new_res@[t]) == num,
                new_res@.no_duplicates(),
                forall|idx: int, i2: u64|
                    0 <= idx < ii && i2 < 64 && rec[idx] & (1u64 << i2) == 0 ==> #[trigger] new_res@.contains(
                        rec[idx] | (1u64 << i2),
                    ),
        {
            let r: u64 = rec_res[ii];
            for i2 in 0..64u64
                invariant
                    num >= 2,
                    nrec == rec.len(),
                    rec == rec_res@,
                    r == rec[ii as int],
                    ii < nrec,
                    forall|t: int| 0 <= t < rec.len() ==> popcount(#[trigger] rec[t]) == num - 1,
                    forall|t: int|
                        0 <= t < new_res@.len() ==> popcount(#[trigger] new_res@[t]) == num,
                    new_res@.no_duplicates(),
                    forall|idx: int, i2p: u64|
                        0 <= idx < ii && i2p < 64 && rec[idx] & (1u64 << i2p) == 0
                            ==> #[trigger] new_res@.contains(rec[idx] | (1u64 << i2p)),
                    forall|i2p: u64|
                        i2p < i2 && r & (1u64 << i2p) == 0 ==> #[trigger] new_res@.contains(
                            r | (1u64 << i2p),
                        ),
            {
                if r & (1u64 << i2) == 0 {
                    let tmp: u64 = r | (1u64 << i2);
                    proof {
                        assert((tmp >> i2) & 1u64 == 1u64 && (tmp & !(1u64 << i2)) == r) by (
                        bit_vector)
                            requires
                                tmp == r | (1u64 << i2) && r & (1u64 << i2) == 0 && i2 < 64,
                        ;
                        lemma_popcount_clear_bit(tmp, i2);
                        assert(popcount(tmp) == num);
                    }
                    let ghost before: Seq<u64> = new_res@;
                    if !contains_u64(&new_res, tmp) {
                        new_res.push(tmp);
                        proof {
                            assert(new_res@[before.len() as int] == tmp);
                            assert forall|x: u64| before.contains(x) implies new_res@.contains(
                                x,
                            ) by {
                                let t: int = choose|t: int|
                                    0 <= t < before.len() && before[t] == x;
                                assert(new_res@[t] == x);
                            }
                        }
                    } else {
                        proof {
                            assert(new_res@.contains(tmp));
                        }
                    }
                    proof {
                        assert forall|idx: int, i2p: u64|
                            0 <= idx < ii && i2p < 64 && rec[idx] & (1u64 << i2p)
                                == 0 implies #[trigger] new_res@.contains(
                            rec[idx] | (1u64 << i2p),
                        ) by {
                            let x: u64 = rec[idx] | (1u64 << i2p);
                            assert(before.contains(x));
                            let t: int = choose|t: int| 0 <= t < before.len() && before[t] == x;
                            assert(new_res@[t] == x);
                        }
                        assert forall|i2p: u64|
                            i2p < i2 + 1 && r & (1u64 << i2p) == 0 implies #[trigger] new_res@.contains(
                            r | (1u64 << i2p),
                        ) by {
                            if i2p < i2 {
                                let x: u64 = r | (1u64 << i2p);
                                assert(before.contains(x));
                                let t: int = choose|t: int| 0 <= t < before.len() && before[t] == x;
                                assert(new_res@[t] == x);
                            } else {
                                assert(new_res@.contains(tmp));
                            }
                        }
                    }
                }
            }
        }
        proof {
            assert forall|b: u64| popcount(b) == num implies new_res@.contains(b) by {
                assert(b != 0);
                vstd::std_specs::bits::axiom_u64_trailing_zeros(b);
                let t: u64 = vstd::std_specs::bits::u64_trailing_zeros(b) as u64;
                assert(t < 64 && (b >> t) & 1u64 == 1u64);
                lemma_popcount_clear_bit(b, t);
                let r: u64 = b & !(1u64 << t);
                assert(popcount(r) == num - 1);
                assert(rec.contains(r));
                let idx: int = choose|idx: int| 0 <= idx < rec.len() && rec[idx] == r;
                assert(r & (1u64 << t) == 0 && (r | (1u64 << t)) == b) by (bit_vector)
                    requires
                        r == b & !(1u64 << t) && (b >> t) & 1u64 == 1u64 && t < 64,
                ;
                assert(new_res@.contains(rec[idx] | (1u64 << t)));
            }
        }
        new_res
    }

    /// The square-count cache: every board mask with 1 to `max_positions`
    /// set bits, mapped to its decoded set-bit positions.
    pub fn make_num_to_bit_positions_hashmap(max_positions: u64) -> (cache: HashMap<u64, Vec<u64>>)
        requires
            max_positions < u64::MAX,
        ensures
            forall|b: u64| #[trigger] cache@.contains_key(b) <==> 1 <= popcount(b) <= max_positions,
            forall|b: u64| #[trigger] cache@.contains_key(b) ==> cache@[b]@ == bit_positions(b),
    {
        let mut cache: HashMap<u64, Vec<u64>> = HashMap::new();
        let mut i: u64 = 1;
        while i <= max_positions
            invariant
                max_positions < u64::MAX,
                1 <= i <= max_positions + 1,
                forall|b: u64| #[trigger] cache@.contains_key(b) <==> 1 <= popcount(b) < i,
                forall|b: u64| #[trigger] cache@.contains_key(b) ==> cache@[b]@ == bit_positions(b),
            decreases max_positions + 1 - i,
        {
            let combinations: Vec<u64> = Self::board_choose_n_all_combinations(i);
            let ghost combs: Seq<u64> = combinations@;
            let ncomb: usize = combinations.len();
            for j in 0..ncomb
                invariant
                    1 <= i <= max_positions,
                    ncomb == combs.len(),
                    combs == combinations@,
                    forall|t: int| 0 <= t < combs.len() ==> popcount(#[trigger] combs[t]) == i,
                    forall|b: u64| popcount(b) == i ==> combs.contains(b),
                    forall|b: u64| #[trigger]
                        cache@.contains_key(b) <==> (1 <= popcount(b) < i || exists|t: int|
                            0 <= t < j && combs[t] == b),
                    forall|b: u64| #[trigger]
                        cache@.contains_key(b) ==> cache@[b]@ == bit_positions(b),
            {
                let combination: u64 = combinations[j];
                let positions: Vec<u64> = Self::find_bit_positions_from_num(combination);
                cache.insert(combination, positions);
                proof {
                    assert forall|b: u64| #[trigger]
                        cache@.contains_key(b) <==> (1 <= popcount(b) < i || exists|t: int|
                            0 <= t < j + 1 && combs[t] == b) by {
                        if b == combination {
                            assert(combs[j as int] == b);
                        }
                    }
                }
            }
            proof {
                assert forall|b: u64| #[trigger] cache@.contains_key(b) implies 1 <= popcount(b) < i
                    + 1 by {
                    if !(1 <= popcount(b) < i) {
                        let t: int = choose|t: int| 0 <= t < ncomb && combs[t] == b;
                        assert(popcount(combs[t]) == i);
                    }
                }
                assert forall|b: u64| 1 <= popcount(b) < i + 1 implies #[trigger] cache@.contains_key(
                    b,
                ) by {
                    if popcount(b) == i {
                        assert(combs.contains(b));
                        let t: int = choose|t: int| 0 <= t < combs.len() && combs[t] == b;
                        assert(0 <= t < ncomb && combs[t] == b);
                    }
                }
            }
            i = i + 1;
        }
        cache
    }
}

} // verus!
