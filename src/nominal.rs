//! Encoding a nominal modifier value into its eight-slot vector.
use vstd::prelude::*;
use crate::model::{abs, trunc_div};

verus! {

/// Slot `i` of the vector that encodes the nominal value `n` (8 nominal units
/// make one whole unit): slot 7 holds the whole units `n / 8`, rounded toward
/// zero; the remainder `|n| % 8`, when not zero, puts the sign of `n` in the
/// slot of that many eighths (index `remainder - 1`); every other slot is 0.
pub open spec fn nominal_slot(n: int, i: int) -> int {
    let fraction = abs(n) % 8;
    if i == 7 {
        trunc_div(n, 8)
    } else if fraction != 0 && i == fraction - 1 {
        if n > 0 { 1 } else { -1 }
    } else {
        0
    }
}

/// The vector that encodes `n`, slot by slot.
pub open spec fn encodes(v: Seq<i8>, n: int) -> bool {
    &&& v.len() == 8
    &&& forall|i: int| 0 <= i < 8 ==> #[trigger] v[i] == nominal_slot(n, i)
}

fn encode_nominal(nominal: i8) -> (r: [i8; 8])
    ensures
        encodes(r@, nominal as int),
{
    let mut bytes: [i8; 8] = [0; 8];
    let whole: i8 = nominal / 8;
    let magnitude: i16 = if nominal < 0 { 0 - nominal as i16 } else { nominal as i16 };
    let fraction: usize = (magnitude % 8) as usize;
    bytes[7] = whole;
    if fraction != 0 {
        bytes[fraction - 1] = if nominal > 0 { 1 } else { -1 };
    }
    bytes
}

/// Converts a nominal damage bonus value into its slot vector.
pub fn db_bytes_from_nominal(nominal: i8) -> (r: [i8; 8])
    ensures
        encodes(r@, nominal as int),
{
    encode_nominal(nominal)
}

/// Converts a nominal damage reduction value into its slot vector.
pub fn dr_bytes_from_nominal(nominal: i8) -> (r: [i8; 8])
    ensures
        encodes(r@, nominal as int),
{
    encode_nominal(nominal)
}

} // verus!
