//! Applying modifier vectors to damage values.
use vstd::prelude::*;
use crate::model::{
    abs, apply_slot, apply_slots, bonus_of, early_exit_reduction_of, fits_i32,
    lemma_list_fits_prefix, lemma_repeat_fits_prefix, lemma_scan_stop_bounds,
    lemma_slots_fit_prefix, list_fits, list_reduction_of, nonzero_count, reduction_of,
    repeat_fits, repeat_step, scan_stop, slot_fits, slots_fit, step, SLOTS,
};

verus! {

/// One application of `numerator / 8` of `d`, computed without intermediate overflow.
fn step_once(d: i32, numerator: i64, raise: bool) -> (r: i32)
    requires
        1 <= numerator <= 8,
        fits_i32(step(d as int, numerator as int, raise)),
    ensures
        r == step(d as int, numerator as int, raise),
{
    assert(-0x8_0000_0000 <= d * numerator <= 0x8_0000_0000) by (nonlinear_arith)
        requires
            i32::MIN <= d <= i32::MAX,
            1 <= numerator <= 8,
    ;
    let part: i64 = (d as i64) * numerator / 8;
    let r: i64 = if raise { d as i64 + part } else { d as i64 - part };
    r as i32
}

/// Applies one slot: `|count|` steps of `numerator / 8`, in the direction that
/// the sign of `count` and the context give.
fn apply_slot_exec(d: i32, numerator: i64, count: i8, bonus: bool) -> (r: i32)
    requires
        1 <= numerator <= 8,
        slot_fits(d as int, numerator as int, count as int, bonus),
    ensures
        r == apply_slot(d as int, numerator as int, count as int, bonus),
{
    let raise = (count > 0) == bonus;
    let times: u8 = if count >= 0 { count as u8 } else { (0i16 - count as i16) as u8 };
    let ghost n = abs(count as int) as nat;
    let mut output = d;
    let mut k: u8 = 0;
    while k < times
        invariant
            k <= times,
            times == n,
            1 <= numerator <= 8,
            repeat_fits(d as int, numerator as int, raise, n),
            output == repeat_step(d as int, numerator as int, raise, k as nat),
        decreases times - k,
    {
        proof {
            lemma_repeat_fits_prefix(d as int, numerator as int, raise, n, (k + 1) as nat);
        }
        output = step_once(output, numerator, raise);
        k = k + 1;
    }
    output
}

/// Applies all eight slots in index order; slot `i` uses the numerator `i + 1`.
fn apply_slots_exec(damage: i32, bytes: [i8; 8], bonus: bool) -> (r: i32)
    requires
        slots_fit(damage as int, bytes@, 8, bonus),
    ensures
        r == apply_slots(damage as int, bytes@, 8, bonus),
{
    let mut output = damage;
    let mut i: usize = 0;
    while i < SLOTS
        invariant
            i <= 8,
            slots_fit(damage as int, bytes@, 8, bonus),
            output == apply_slots(damage as int, bytes@, i as nat, bonus),
        decreases 8 - i,
    {
        proof {
            lemma_slots_fit_prefix(damage as int, bytes@, 8, (i + 1) as nat, bonus);
        }
        output = apply_slot_exec(output, (i + 1) as i64, bytes[i], bonus);
        i = i + 1;
    }
    output
}

/// Returns damage after damage bonus. (+) raises damage, (-) lowers it.
///
/// Each slot's steps compound on the running value; division truncates toward
/// zero. The caller guarantees that no intermediate damage leaves `i32`.
pub fn damage_bonus(damage: i32, db_bytes: [i8; 8]) -> (r: i32)
    requires
        slots_fit(damage as int, db_bytes@, 8, true),
    ensures
        r == bonus_of(damage as int, db_bytes@),
{
    apply_slots_exec(damage, db_bytes, true)
}

/// Returns damage after damage reduction. (+) lowers damage, (-) raises it.
///
/// Each slot's steps compound on the running value; division truncates toward
/// zero. The caller guarantees that no intermediate damage leaves `i32`.
pub fn damage_reduction(damage: i32, dr_bytes: [i8; 8]) -> (r: i32)
    requires
        slots_fit(damage as int, dr_bytes@, 8, false),
    ensures
        r == reduction_of(damage as int, dr_bytes@),
{
    apply_slots_exec(damage, dr_bytes, false)
}

/// Returns damage after damage reduction, scanning slots only until the
/// `non_zero` non-zero slots that the caller announces have been applied.
///
/// With `non_zero` equal to the number of non-zero slots the result is that of
/// `damage_reduction`; with a smaller one, the later slots are left out.
pub fn damage_reduction_early_exit(damage: i32, dr_bytes: [i8; 8], non_zero: u32) -> (r: i32)
    requires
        slots_fit(damage as int, dr_bytes@, scan_stop(dr_bytes@, non_zero as nat, 0), false),
    ensures
        r == early_exit_reduction_of(damage as int, dr_bytes@, non_zero as nat),
{
    let ghost m = dr_bytes@;
    let ghost stop = scan_stop(m, non_zero as nat, 0);
    proof {
        lemma_scan_stop_bounds(m, non_zero as nat, 0);
    }
    let mut output = damage;
    let mut remaining = non_zero;
    let mut i: usize = 0;
    while i < SLOTS
        invariant_except_break
            i <= stop <= 8,
            stop == scan_stop(m, non_zero as nat, i as nat),
            remaining + nonzero_count(m, i as nat) == non_zero,
            m == dr_bytes@,
            slots_fit(damage as int, m, stop, false),
            output == apply_slots(damage as int, m, i as nat, false),
        ensures
            output == apply_slots(damage as int, m, stop, false),
        decreases 8 - i,
    {
        if remaining == 0 {
            break;
        }
        proof {
            lemma_scan_stop_bounds(m, non_zero as nat, (i + 1) as nat);
            lemma_slots_fit_prefix(damage as int, m, stop, (i + 1) as nat, false);
        }
        let count = dr_bytes[i];
        output = apply_slot_exec(output, (i + 1) as i64, count, false);
        if count != 0 {
            remaining = remaining - 1;
        }
        i = i + 1;
    }
    output
}

/// Returns damage after a list of (numerator, denominator) reductions, applied
/// in list order, each subtracting its fraction of the running value.
///
/// Denominators are non-zero and no intermediate damage leaves `i32`.
pub fn damage_reduction_list(damage: i32, dr_fractions: &Vec<(i32, i32)>) -> (r: i32)
    requires
        forall|j: int| 0 <= j < dr_fractions@.len() ==> #[trigger] dr_fractions@[j].1 != 0,
        list_fits(damage as int, dr_fractions@, dr_fractions@.len()),
    ensures
        r == list_reduction_of(damage as int, dr_fractions@, dr_fractions@.len()),
{
    let mut output = damage;
    let mut i: usize = 0;
    while i < dr_fractions.len()
        invariant
            i <= dr_fractions@.len(),
            forall|j: int| 0 <= j < dr_fractions@.len() ==> #[trigger] dr_fractions@[j].1 != 0,
            list_fits(damage as int, dr_fractions@, dr_fractions@.len()),
            output == list_reduction_of(damage as int, dr_fractions@, i as nat),
        decreases dr_fractions@.len() - i,
    {
        proof {
            lemma_list_fits_prefix(damage as int, dr_fractions@, dr_fractions@.len(), (i + 1) as nat);
        }
        let (numerator, denominator) = dr_fractions[i];
        assert(-0x4000_0000_0000_0000 <= output * numerator <= 0x4000_0000_0000_0000)
            by (nonlinear_arith)
            requires
                i32::MIN <= output <= i32::MAX,
                i32::MIN <= numerator <= i32::MAX,
        ;
        let product: i64 = (output as i64) * (numerator as i64);
        // Truncating division is unchanged when both operands change sign.
        let part: i64 = if denominator < 0 {
            (0 - product) / (0 - denominator as i64)
        } else {
            product / (denominator as i64)
        };
        output = ((output as i64) - part) as i32;
        i = i + 1;
    }
    output
}

} // verus!
