//! Integer averaging, shared by gap analysis and paragraph layout.

use vstd::prelude::*;
use crate::geom::COORD_BOUND;

verus! {

/// Sum of an integer sequence.
pub open spec fn seq_sum(s: Seq<int>) -> int
    decreases s.len(),
{
    if s.len() == 0 {
        0
    } else {
        seq_sum(s.drop_last()) + s.last()
    }
}

/// The integer views of a vector of machine integers.
pub open spec fn iv(s: Seq<i64>) -> Seq<int> {
    s.map_values(|x: i64| x as int)
}

/// The average of a non-empty sequence, rounded toward zero.
pub open spec fn spec_avg(s: Seq<int>) -> int
    recommends
        s.len() > 0,
{
    seq_sum(s) / (s.len() as int)
}

pub proof fn lemma_seq_sum_bounds(s: Seq<int>, b: int)
    requires
        forall|i: int| 0 <= i < s.len() ==> 0 <= #[trigger] s[i] <= b,
    ensures
        0 <= seq_sum(s) <= s.len() * b,
    decreases s.len(),
{
    if s.len() == 0 {
    } else {
        lemma_seq_sum_bounds(s.drop_last(), b);
        assert(s.len() * b == (s.len() - 1) * b + b) by (nonlinear_arith);
    }
}

/// The average of values drawn from `[0, b]` lies in `[0, b]`.
pub proof fn lemma_avg_bounds(s: Seq<int>, b: int)
    requires
        s.len() > 0,
        0 <= b,
        forall|i: int| 0 <= i < s.len() ==> 0 <= #[trigger] s[i] <= b,
    ensures
        0 <= spec_avg(s) <= b,
{
    lemma_seq_sum_bounds(s, b);
    let n = s.len() as int;
    vstd::arithmetic::div_mod::lemma_div_is_ordered(0, seq_sum(s), n);
    vstd::arithmetic::div_mod::lemma_div_is_ordered(seq_sum(s), n * b, n);
    vstd::arithmetic::div_mod::lemma_div_multiples_vanish(b, n);
}

/// Average of the values of a vector: `None` exactly when it is empty.
/// Values must be non-negative page quantities.
pub fn avg(v: &Vec<i64>) -> (r: Option<i64>)
    requires
        forall|i: int| 0 <= i < v@.len() ==> 0 <= #[trigger] v@[i] <= 2 * COORD_BOUND,
    ensures
        match r {
            Option::None => v@.len() == 0,
            Option::Some(a) => v@.len() > 0 && a as int == spec_avg(iv(v@)) && 0 <= a <= 2
                * COORD_BOUND,
        },
{
    if v.len() == 0 {
        return Option::None;
    }
    let mut sum: u128 = 0;
    let mut i: usize = 0;
    proof {
        assert(iv(v@).take(0) =~= Seq::empty());
    }
    while i < v.len()
        invariant
            0 <= i <= v@.len(),
            forall|k: int| 0 <= k < v@.len() ==> 0 <= #[trigger] v@[k] <= 2 * COORD_BOUND,
            sum as int == seq_sum(iv(v@).take(i as int)),
            0 <= sum as int <= (i as int) * (2 * COORD_BOUND as int),
        decreases v@.len() - i,
    {
        let x = v[i];
        proof {
            assert(iv(v@).take(i + 1).drop_last() =~= iv(v@).take(i as int));
            assert(iv(v@).take(i + 1).last() == v@[i as int] as int);
            assert((i + 1) * (2 * COORD_BOUND as int) == (i as int) * (2 * COORD_BOUND as int)
                + (2 * COORD_BOUND as int)) by (nonlinear_arith);
            assert((i as int) * (2 * COORD_BOUND as int) < 0x1_0000_0000_0000_0000
                * 0x8_0000_0000_0000) by (nonlinear_arith)
            requires
                0 <= i < 0x1_0000_0000_0000_0000,
            ;
        }
        sum = sum + (x as u64 as u128);
        i = i + 1;
    }
    proof {
        assert(iv(v@).take(v@.len() as int) =~= iv(v@));
        lemma_avg_bounds(iv(v@), 2 * COORD_BOUND as int);
        assert((v@.len() as int) * (2 * COORD_BOUND as int) < 0x1_0000_0000_0000_0000
            * 0x8_0000_0000_0000) by (nonlinear_arith)
        requires
            0 <= v@.len() < 0x1_0000_0000_0000_0000,
        ;
    }
    let q = sum / (v.len() as u128);
    Option::Some(q as i64)
}

} // verus!
