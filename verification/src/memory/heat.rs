//! How warm a message is.
//!
//! A heat is kept as an integer that is ordered as the heats are: the bit
//! pattern of a double-precision number that is not negative.

use vstd::prelude::*;

verus! {

/// The heats at which a message counts as warm and as hot.
#[derive(Debug, Clone, Copy)]
pub struct HeatThresholds {
    /// Below this heat a message is cold.
    pub cold: i64,
    /// Below this heat a message is warm at most.
    pub warm: i64,
}

impl Default for HeatThresholds {
    fn default() -> (r: Self)
        ensures
            r == (HeatThresholds { cold: 0x3FC9_9999_9999_999A, warm: 0x3FD9_9999_9999_999A }),
    {
        HeatThresholds { cold: 0x3FC9_9999_9999_999A, warm: 0x3FD9_9999_9999_999A }
    }
}

/// How warm a message is.
#[derive(Debug, Clone, Copy, PartialEq, Eq, Structural)]
pub enum Temperature {
    /// It is kept in full.
    Hot,
    /// It is shortened.
    Warm,
    /// It is replaced by a placeholder.
    Cold,
}

/// How warm a message of the given heat is.
pub open spec fn temperature(heat: i64, thresholds: HeatThresholds) -> Temperature {
    if heat >= thresholds.warm {
        Temperature::Hot
    } else if heat >= thresholds.cold {
        Temperature::Warm
    } else {
        Temperature::Cold
    }
}

/// How warm a message of the given heat is.
pub fn classify(heat: i64, thresholds: &HeatThresholds) -> (r: Temperature)
    ensures
        r == temperature(heat, *thresholds),
{
    if heat >= thresholds.warm {
        Temperature::Hot
    } else if heat >= thresholds.cold {
        Temperature::Warm
    } else {
        Temperature::Cold
    }
}

/// A message never becomes colder by becoming hotter.
pub proof fn law_hotter_is_no_colder(a: i64, b: i64, thresholds: HeatThresholds)
    requires
        a <= b,
        thresholds.cold <= thresholds.warm,
    ensures
        temperature(a, thresholds) is Hot ==> temperature(b, thresholds) is Hot,
        temperature(b, thresholds) is Cold ==> temperature(a, thresholds) is Cold,
{
}

/// A message is hot from the upper threshold on, warm from the lower one on, and cold
/// below both.
pub proof fn law_heat_decides(heat: i64, thresholds: HeatThresholds)
    ensures
        temperature(heat, thresholds) is Hot <==> heat >= thresholds.warm,
        temperature(heat, thresholds) is Cold <==> heat < thresholds.cold && heat
            < thresholds.warm,
{
}

} // verus!
