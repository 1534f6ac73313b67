//! Delta coding of 64-bit integers.
//!
//! Identifiers and coordinates travel as successive differences. A decoder
//! keeps one running total per field, starts it at zero and adds each
//! difference in turn. Totals are kept in 64-bit two's complement, so every
//! sequence of 64-bit values has a sequence of 64-bit differences that
//! decodes to it.

use vstd::prelude::*;

verus! {

/// The running total after the first `n` differences, in 64-bit two's
/// complement.
pub open spec fn running_total(deltas: Seq<i64>, n: int) -> i64
    decreases n,
{
    if n <= 0 {
        0i64
    } else {
        running_total(deltas, n - 1).wrapping_add(deltas[n - 1])
    }
}

/// The sum of the first `n` differences as a mathematical integer.
pub open spec fn exact_total(deltas: Seq<i64>, n: int) -> int
    decreases n,
{
    if n <= 0 {
        0
    } else {
        exact_total(deltas, n - 1) + deltas[n - 1]
    }
}

/// The absolute values that `deltas` stand for: entry `i` is the running
/// total after `i + 1` differences.
pub open spec fn delta_decode(deltas: Seq<i64>) -> Seq<i64> {
    Seq::new(deltas.len(), |i: int| running_total(deltas, i + 1))
}

/// The differences that stand for `values`: the first entry is the first
/// value, each later entry the step from its predecessor.
pub open spec fn delta_encode(values: Seq<i64>) -> Seq<i64> {
    Seq::new(
        values.len(),
        |i: int|
            if i == 0 {
                values[0]
            } else {
                values[i].wrapping_sub(values[i - 1])
            },
    )
}

/// While no partial sum leaves the 64-bit range, the running total is the
/// plain sum of the differences.
pub proof fn lemma_running_total_exact(deltas: Seq<i64>, n: int)
    requires
        0 <= n <= deltas.len(),
        forall|k: int| 0 <= k <= n ==> i64::MIN <= #[trigger] exact_total(deltas, k) <= i64::MAX,
    ensures
        running_total(deltas, n) == exact_total(deltas, n),
    decreases n,
{
    if n > 0 {
        lemma_running_total_exact(deltas, n - 1);
        assert(i64::MIN <= exact_total(deltas, n) <= i64::MAX);
    }
}

/// Decoding the differences of a sequence gives the sequence back, whatever
/// its values: equal neighbours, falling values and steps wider than the
/// 64-bit range included.
pub proof fn lemma_delta_round_trip(values: Seq<i64>)
    ensures
        delta_decode(delta_encode(values)) == values,
{
    let deltas = delta_encode(values);
    assert forall|n: int| 1 <= n <= values.len() implies running_total(deltas, n) == values[n
        - 1] by {
        lemma_round_trip_total(values, n);
    }
    assert(delta_decode(deltas) =~= values);
}

proof fn lemma_round_trip_total(values: Seq<i64>, n: int)
    requires
        1 <= n <= values.len(),
    ensures
        running_total(delta_encode(values), n) == values[n - 1],
    decreases n,
{
    let deltas = delta_encode(values);
    if n == 1 {
        assert(running_total(deltas, 0) == 0i64);
        assert(running_total(deltas, 1) == running_total(deltas, 0).wrapping_add(deltas[0]));
    } else {
        lemma_round_trip_total(values, n - 1);
        assert(running_total(deltas, n) == running_total(deltas, n - 1).wrapping_add(
            deltas[n - 1],
        ));
    }
}

/// Recovers absolute values from successive differences.
pub fn decode_deltas(deltas: &Vec<i64>) -> (values: Vec<i64>)
    ensures
        values@ == delta_decode(deltas@),
{
    let mut values: Vec<i64> = Vec::with_capacity(deltas.len());
    let mut total: i64 = 0;
    let mut i: usize = 0;
    while i < deltas.len()
        invariant
            0 <= i <= deltas.len(),
            total == running_total(deltas@, i as int),
            values@ == delta_decode(deltas@).subrange(0, i as int),
        decreases deltas.len() - i,
    {
        total = total.wrapping_add(deltas[i]);
        values.push(total);
        i += 1;
        assert(values@ =~= delta_decode(deltas@).subrange(0, i as int));
    }
    assert(values@ =~= delta_decode(deltas@));
    values
}

} // verus!
