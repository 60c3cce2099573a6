//! Mathematical model of modifier application, over unbounded integers.
use vstd::prelude::*;

verus! {

/// Number of slots in a modifier vector.
pub const SLOTS: usize = 8;

/// Whether `x` is a value of `i32`.
pub open spec fn fits_i32(x: int) -> bool {
    i32::MIN <= x <= i32::MAX
}

pub open spec fn abs(x: int) -> int {
    if x >= 0 { x } else { -x }
}

/// Integer division rounding toward zero, as Rust's `/` does.
pub open spec fn trunc_div(a: int, b: int) -> int {
    let q = abs(a) / abs(b);
    if (a >= 0) == (b > 0) { q } else { -q }
}

/// One application of the fraction `numerator / 8` of the damage `d`:
/// added when `raise` holds, subtracted otherwise.
pub open spec fn step(d: int, numerator: int, raise: bool) -> int {
    let part = trunc_div(d * numerator, 8);
    if raise { d + part } else { d - part }
}

/// `n` successive applications of `step`, each on the previous result.
pub open spec fn repeat_step(d: int, numerator: int, raise: bool, n: nat) -> int
    decreases n,
{
    if n == 0 {
        d
    } else {
        step(repeat_step(d, numerator, raise, (n - 1) as nat), numerator, raise)
    }
}

/// Every intermediate value of `repeat_step(d, numerator, raise, n)` fits in `i32`.
pub open spec fn repeat_fits(d: int, numerator: int, raise: bool, n: nat) -> bool
    decreases n,
{
    n == 0 || (repeat_fits(d, numerator, raise, (n - 1) as nat) && fits_i32(
        repeat_step(d, numerator, raise, n),
    ))
}

/// Whether a slot count raises the damage: a positive count raises it for a
/// bonus and lowers it for a reduction; a negative count does the opposite.
pub open spec fn raises(count: int, bonus: bool) -> bool {
    (count > 0) == bonus
}

/// The damage after one slot with fraction `numerator / 8` and the given count.
pub open spec fn apply_slot(d: int, numerator: int, count: int, bonus: bool) -> int {
    repeat_step(d, numerator, raises(count, bonus), abs(count) as nat)
}

pub open spec fn slot_fits(d: int, numerator: int, count: int, bonus: bool) -> bool {
    repeat_fits(d, numerator, raises(count, bonus), abs(count) as nat)
}

/// The damage after the first `n` slots of `m`, in index order; slot `i` uses
/// the numerator `i + 1`.
pub open spec fn apply_slots(d: int, m: Seq<i8>, n: nat, bonus: bool) -> int
    decreases n,
{
    if n == 0 {
        d
    } else {
        apply_slot(apply_slots(d, m, (n - 1) as nat, bonus), n as int, m[n - 1] as int, bonus)
    }
}

/// Every intermediate value of `apply_slots(d, m, n, bonus)` fits in `i32`.
pub open spec fn slots_fit(d: int, m: Seq<i8>, n: nat, bonus: bool) -> bool
    decreases n,
{
    n == 0 || (slots_fit(d, m, (n - 1) as nat, bonus) && slot_fits(
        apply_slots(d, m, (n - 1) as nat, bonus),
        n as int,
        m[n - 1] as int,
        bonus,
    ))
}

/// The damage `d` after the bonus vector `m`.
pub open spec fn bonus_of(d: int, m: Seq<i8>) -> int {
    apply_slots(d, m, 8, true)
}

/// The damage `d` after the reduction vector `m`.
pub open spec fn reduction_of(d: int, m: Seq<i8>) -> int {
    apply_slots(d, m, 8, false)
}

/// Number of non-zero slots among the first `n` slots of `m`.
pub open spec fn nonzero_count(m: Seq<i8>, n: nat) -> nat
    decreases n,
{
    if n == 0 {
        0
    } else {
        nonzero_count(m, (n - 1) as nat) + if m[n - 1] != 0 { 1nat } else { 0nat }
    }
}

/// The number of slots that the early-exit scan visits from slot `j` on when
/// it is told of `k` non-zero slots: it stops before the first slot at which
/// `k` non-zero slots have been seen, or after the last slot.
pub open spec fn scan_stop(m: Seq<i8>, k: nat, j: nat) -> nat
    decreases 8 - j,
{
    if j >= 8 || nonzero_count(m, j) >= k {
        j
    } else {
        scan_stop(m, k, j + 1)
    }
}

/// The damage `d` after the early-exit reduction with the hint `k`.
pub open spec fn early_exit_reduction_of(d: int, m: Seq<i8>, k: nat) -> int {
    apply_slots(d, m, scan_stop(m, k, 0), false)
}

/// The damage after the first `n` (numerator, denominator) pairs of `fr`, each
/// subtracting its fraction of the running value.
pub open spec fn list_reduction_of(d: int, fr: Seq<(i32, i32)>, n: nat) -> int
    decreases n,
{
    if n == 0 {
        d
    } else {
        let p = list_reduction_of(d, fr, (n - 1) as nat);
        p - trunc_div(p * fr[n - 1].0, fr[n - 1].1 as int)
    }
}

/// Every intermediate value of `list_reduction_of(d, fr, n)` fits in `i32`.
pub open spec fn list_fits(d: int, fr: Seq<(i32, i32)>, n: nat) -> bool
    decreases n,
{
    n == 0 || (list_fits(d, fr, (n - 1) as nat) && fits_i32(list_reduction_of(d, fr, n)))
}

} // verus!

verus! {

pub proof fn lemma_repeat_fits_prefix(d: int, numerator: int, raise: bool, n: nat, k: nat)
    requires
        repeat_fits(d, numerator, raise, n),
        k <= n,
    ensures
        repeat_fits(d, numerator, raise, k),
    decreases n,
{
    if k < n {
        lemma_repeat_fits_prefix(d, numerator, raise, (n - 1) as nat, k);
    }
}

pub proof fn lemma_slots_fit_prefix(d: int, m: Seq<i8>, n: nat, k: nat, bonus: bool)
    requires
        slots_fit(d, m, n, bonus),
        k <= n,
    ensures
        slots_fit(d, m, k, bonus),
    decreases n,
{
    if k < n {
        lemma_slots_fit_prefix(d, m, (n - 1) as nat, k, bonus);
    }
}

pub proof fn lemma_list_fits_prefix(d: int, fr: Seq<(i32, i32)>, n: nat, k: nat)
    requires
        list_fits(d, fr, n),
        k <= n,
    ensures
        list_fits(d, fr, k),
    decreases n,
{
    if k < n {
        lemma_list_fits_prefix(d, fr, (n - 1) as nat, k);
    }
}

pub proof fn lemma_scan_stop_bounds(m: Seq<i8>, k: nat, j: nat)
    requires
        j <= 8,
    ensures
        j <= scan_stop(m, k, j) <= 8,
    decreases 8 - j,
{
    if j < 8 && nonzero_count(m, j) < k {
        lemma_scan_stop_bounds(m, k, j + 1);
    }
}

} // verus!
