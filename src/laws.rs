//! Laws that relate the library's operations.
use vstd::prelude::*;
use crate::model::{
    abs, apply_slots, bonus_of, early_exit_reduction_of, fits_i32, nonzero_count, reduction_of,
    scan_stop, slots_fit, trunc_div,
};
use crate::nominal::nominal_slot;

verus! {

proof fn lemma_nonzero_count_monotone(m: Seq<i8>, j: nat, n: nat)
    requires
        j <= n <= m.len(),
    ensures
        nonzero_count(m, j) <= nonzero_count(m, n),
    decreases n,
{
    if j < n {
        lemma_nonzero_count_monotone(m, j, (n - 1) as nat);
    }
}

/// Slots `j..n` hold no non-zero count when the non-zero count does not grow
/// between them; such slots change neither the damage nor whether it fits.
proof fn lemma_zero_tail(d: int, m: Seq<i8>, j: nat, n: nat, bonus: bool)
    requires
        j <= n <= m.len(),
        nonzero_count(m, n) == nonzero_count(m, j),
    ensures
        apply_slots(d, m, n, bonus) == apply_slots(d, m, j, bonus),
        slots_fit(d, m, n, bonus) == slots_fit(d, m, j, bonus),
    decreases n,
{
    if j < n {
        lemma_nonzero_count_monotone(m, j, (n - 1) as nat);
        assert(m[n - 1] == 0);
        lemma_zero_tail(d, m, j, (n - 1) as nat, bonus);
    }
}

/// Where the scan stops before the last slot, it has seen `k` non-zero slots.
proof fn lemma_scan_stop_seen(m: Seq<i8>, k: nat, j: nat)
    requires
        j <= 8,
    ensures
        scan_stop(m, k, j) == 8 || nonzero_count(m, scan_stop(m, k, j)) >= k,
    decreases 8 - j,
{
    if j < 8 && nonzero_count(m, j) < k {
        lemma_scan_stop_seen(m, k, j + 1);
    }
}

/// An all-zero modifier vector leaves every damage value unchanged, as a bonus
/// and as a reduction, and never overflows.
pub proof fn lemma_zero_vector_is_identity(d: int, m: Seq<i8>)
    requires
        m.len() == 8,
        forall|i: int| 0 <= i < 8 ==> #[trigger] m[i] == 0,
    ensures
        bonus_of(d, m) == d,
        reduction_of(d, m) == d,
        slots_fit(d, m, 8, true),
        slots_fit(d, m, 8, false),
{
    reveal_with_fuel(nonzero_count, 9);
    assert(nonzero_count(m, 8) == 0);
    lemma_zero_tail(d, m, 0, 8, true);
    lemma_zero_tail(d, m, 0, 8, false);
}

/// The early-exit reduction, told the true number of non-zero slots, gives the
/// same damage as the full reduction, and is defined on the same inputs.
pub proof fn lemma_early_exit_matches_reduction(d: int, m: Seq<i8>)
    requires
        m.len() == 8,
    ensures
        early_exit_reduction_of(d, m, nonzero_count(m, 8)) == reduction_of(d, m),
        slots_fit(d, m, scan_stop(m, nonzero_count(m, 8), 0), false) == slots_fit(d, m, 8, false),
{
    let k = nonzero_count(m, 8);
    let stop = scan_stop(m, k, 0);
    crate::model::lemma_scan_stop_bounds(m, k, 0);
    lemma_scan_stop_seen(m, k, 0);
    lemma_nonzero_count_monotone(m, stop, 8);
    lemma_zero_tail(d, m, stop, 8, false);
}

/// The slot vector of a nominal value holds its whole units, rounded toward
/// zero, in slot 7, and at most one other non-zero slot: the sign of the value,
/// at the index of its leftover eighths less one, present exactly when
/// eighths are left over.
pub proof fn lemma_nominal_encoding_shape(n: int)
    requires
        i8::MIN <= n <= i8::MAX,
    ensures
        nominal_slot(n, 7) == trunc_div(n, 8),
        forall|i: int, j: int|
            0 <= i < 7 && 0 <= j < 7 && #[trigger] nominal_slot(n, i) != 0 && #[trigger] nominal_slot(
                n,
                j,
            ) != 0 ==> i == j,
        forall|i: int|
            0 <= i < 7 ==> #[trigger] nominal_slot(n, i) == 0 || nominal_slot(n, i) == (if n > 0 {
                1int
            } else {
                -1int
            }),
        (exists|i: int| 0 <= i < 7 && #[trigger] nominal_slot(n, i) != 0) <==> abs(n) % 8 != 0,
{
    if abs(n) % 8 != 0 {
        assert(nominal_slot(n, abs(n) % 8 - 1) != 0);
    }
}

} // verus!
