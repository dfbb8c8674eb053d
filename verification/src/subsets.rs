//! Enumeration of every subset of the set bits of a mask: the occupancy
//! patterns relevant to a square are exactly the subsets of its footprint.

use vstd::prelude::*;
use crate::bits::{lemma_popcount_clear_bit, popcount, pow2};
use crate::constants::Constants;

verus! {

impl Constants {
    /// Every subset of the set bits of `number`, without duplicates: exactly
    /// 2^popcount(number) masks, each a submask of `number`, every submask of
    /// `number` among them, 0 and `number` included.
    pub fn get_all_possible_combinations_of_bits(number: u64) -> (res: Vec<u64>)
        ensures
            res@.len() == pow2(popcount(number)),
            forall|i: int| 0 <= i < res@.len() ==> (#[trigger] res@[i]) & number == res@[i],
            forall|s: u64| s & number == s ==> res@.contains(s),
            res@.no_duplicates(),
            res@.contains(0u64),
            res@.contains(number),
    {
        let res = Self::get_all_possible_combinations_of_bits_helper(number);
        proof {
            assert(0u64 & number == 0u64 && number & number == number) by (bit_vector);
        }
        res
    }

    /// Recursive halving: the subsets of `number` are the subsets of
    /// `number` with its highest bit cleared, followed by the same list with
    /// that bit added to each element.
    #[verifier::loop_isolation(false)]
    pub fn get_all_possible_combinations_of_bits_helper(number: u64) -> (res: Vec<u64>)
        ensures
            res@.len() == pow2(popcount(number)),
            forall|i: int| 0 <= i < res@.len() ==> (#[trigger] res@[i]) & number == res@[i],
            forall|s: u64| s & number == s ==> res@.contains(s),
            res@.no_duplicates(),
        decreases number,
    {
        if number == 0 {
            let mut res: Vec<u64> = Vec::new();
            res.push(0);
            proof {
                assert(res@ =~= seq![0u64]);
                assert(forall|s: u64| s & 0u64 == s ==> s == 0u64) by (bit_vector);
                assert(0u64 & 0u64 == 0u64) by (bit_vector);
                assert forall|s: u64| s & 0u64 == s implies res@.contains(s) by {
                    assert(res@[0] == 0u64);
                }
            }
            return res;
        }
        proof {
            vstd::std_specs::bits::axiom_u64_leading_zeros(number);
        }
        let lz: u32 = number.leading_zeros();
        let hb: u64 = 63 - (lz as u64);
        let h: u64 = 1u64 << hb;
        proof {
            assert((number >> hb) & 1u64 == 1u64) by (bit_vector)
                requires
                    (number >> hb) & 1u64 != 0u64 && hb < 64,
            ;
            assert(h <= number && number - h == (number & !h) && (number & !h) & h == 0) by (
            bit_vector)
                requires
                    (number >> hb) & 1u64 == 1u64 && h == 1u64 << hb && hb < 64,
            ;
            lemma_popcount_clear_bit(number, hb);
        }
        let rest: u64 = number - h;
        assert(popcount(number) == 1 + popcount(rest));
        let mut res: Vec<u64> = Self::get_all_possible_combinations_of_bits_helper(rest);
        let ghost rest_seq: Seq<u64> = res@;
        let length: usize = res.len();
        assert(pow2(popcount(number)) == 2 * pow2(popcount(rest)));
        for i in 0..length
            invariant
                res@.len() == length + i,
                forall|k: int| 0 <= k < length ==> res@[k] == rest_seq[k],
                forall|k: int| 0 <= k < i ==> res@[length + k] == (rest_seq[k] | h),
        {
            let v: u64 = res[i];
            proof {
                assert(v == rest_seq[i as int]);
                assert(rest_seq[i as int] & rest == rest_seq[i as int]);
                assert(v & h == 0 && v + h == (v | h)) by (bit_vector)
                    requires
                        v & rest == v && rest & h == 0,
                ;
            }
            res.push(v + h);
        }
        proof {
            // Each element is a submask of `number`.
            assert forall|i: int| 0 <= i < res@.len() implies (#[trigger] res@[i]) & number
                == res@[i] by {
                if i < length {
                    let s: u64 = rest_seq[i];
                    assert(s & number == s) by (bit_vector)
                        requires
                            s & rest == s && rest == (number & !h) && h == 1u64 << hb && hb < 64,
                    ;
                } else {
                    let s: u64 = rest_seq[i - length];
                    assert((s | h) & number == (s | h)) by (bit_vector)
                        requires
                            s & rest == s && rest == (number & !h) && h == 1u64 << hb && hb < 64
                                && (number >> hb) & 1u64 == 1u64,
                    ;
                }
            }
            // Every submask of `number` appears.
            assert forall|s: u64| s & number == s implies res@.contains(s) by {
                if s & h == 0 {
                    assert(s & rest == s) by (bit_vector)
                        requires
                            s & number == s && s & h == 0 && rest == (number & !h),
                    ;
                    assert(rest_seq.contains(s));
                    let j: int = choose|j: int| 0 <= j < rest_seq.len() && rest_seq[j] == s;
                    assert(res@[j] == s);
                } else {
                    let s2: u64 = s & !h;
                    assert(s2 & rest == s2 && (s2 | h) == s) by (bit_vector)
                        requires
                            s & number == s && s & h != 0 && s2 == (s & !h) && rest == (number
                                & !h) && h == 1u64 << hb && hb < 64,
                    ;
                    assert(rest_seq.contains(s2));
                    let j: int = choose|j: int| 0 <= j < rest_seq.len() && rest_seq[j] == s2;
                    assert(res@[length + j] == (s2 | h));
                }
            }
            // No duplicates: the two halves are disjoint (bit `hb` clear
            // versus set) and each half repeats nothing.
            assert forall|i: int, j: int|
                0 <= i < res@.len() && 0 <= j < res@.len() && i != j implies res@[i] != res@[
            j] by {
                if i < length && j < length {
                    assert(rest_seq[i] != rest_seq[j]);
                } else if i >= length && j >= length {
                    let s1: u64 = rest_seq[i - length];
                    let s2: u64 = rest_seq[j - length];
                    assert((s1 | h) != (s2 | h)) by (bit_vector)
                        requires
                            s1 & rest == s1 && s2 & rest == s2 && rest & h == 0 && s1 != s2,
                    ;
                } else {
                    let lo: int = if i < length {
                        i
                    } else {
                        j
                    };
                    let hi: int = if i < length {
                        j
                    } else {
                        i
                    };
                    let s1: u64 = rest_seq[lo];
                    let s2: u64 = rest_seq[hi - length];
                    assert(s1 != (s2 | h)) by (bit_vector)
                        requires
                            s1 & rest == s1 && rest & h == 0 && h != 0,
                    ;
                }
            }
        }
        res
    }
}

} // verus!
