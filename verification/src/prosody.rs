//! Prosody parameter mapping. The host hands pitch, rate and volume as signed
//! percentages centered at zero (nominally -100 to 100); the synthesis backend
//! takes multiplicative factors. Factors are carried as integer thousandths of
//! the backend's unit factor, so a value of 1000 is the neutral 1.0 factor.
//! Pitch interpolates between 0.5 at -100, 1.0 at 0 and 2.0 at 100; rate
//! between 0.5, 1.0 and 4.5; volume converts directly from percentage to a
//! fraction of the unit.
use vstd::prelude::*;

verus! {

/// Pitch factor in thousandths: linear toward 500 for negative input, toward
/// 2000 for positive input, 1000 at zero.
pub open spec fn spec_pitch_factor(p: int) -> int {
    if p < 0 {
        1000 + 5 * p
    } else {
        1000 + 10 * p
    }
}

/// Rate factor in thousandths: linear toward 500 for negative input, toward
/// 4500 for positive input, 1000 at zero.
pub open spec fn spec_rate_factor(p: int) -> int {
    if p < 0 {
        1000 + 5 * p
    } else {
        1000 + 35 * p
    }
}

/// Volume in thousandths: the percentage itself, scaled.
pub open spec fn spec_volume_factor(p: int) -> int {
    10 * p
}

/// Maps a pitch percentage to its factor in thousandths.
pub fn pitch_factor(p: i64) -> (r: i64)
    requires
        -1000000000 <= p <= 1000000000,
    ensures
        r == spec_pitch_factor(p as int),
{
    if p < 0 {
        1000 + 5 * p
    } else {
        1000 + 10 * p
    }
}

/// Maps a rate percentage to its factor in thousandths.
pub fn rate_factor(p: i64) -> (r: i64)
    requires
        -1000000000 <= p <= 1000000000,
    ensures
        r == spec_rate_factor(p as int),
{
    if p < 0 {
        1000 + 5 * p
    } else {
        1000 + 35 * p
    }
}

/// Maps a volume percentage to thousandths of the unit volume.
pub fn volume_factor(p: i64) -> (r: i64)
    requires
        -1000000000 <= p <= 1000000000,
    ensures
        r == spec_volume_factor(p as int),
{
    10 * p
}

/// Prosody mapping determinism and shape: the neutral input maps to the unit
/// factor, the extreme inputs map to the documented bounds, and both mappings
/// rise monotonically in between.
pub proof fn lemma_prosody_mapping(p: int, q: int)
    requires
        p <= q,
    ensures
        spec_rate_factor(0) == 1000,
        spec_rate_factor(100) == 4500,
        spec_rate_factor(-100) == 500,
        spec_pitch_factor(0) == 1000,
        spec_pitch_factor(100) == 2000,
        spec_pitch_factor(-100) == 500,
        spec_rate_factor(p) <= spec_rate_factor(q),
        spec_pitch_factor(p) <= spec_pitch_factor(q),
{
}

} // verus!
