//! Time-unit ladder and formatting configuration for time labels.
use vstd::prelude::*;

verus! {

/// Time unit ladder, smallest to largest. `Ns` is the hard floor (nothing is
/// ever rendered below nanoseconds); `Min` is the top of the ladder.
#[derive(Clone, Copy, Debug, PartialEq, Eq, Structural)]
pub enum TimeUnit {
    Ns,
    Us,
    Ms,
    S,
    Min,
}

/// The label suffix of each unit.
pub open spec fn spec_suffix(unit: TimeUnit) -> Seq<char> {
    match unit {
        TimeUnit::Ns => "ns"@,
        TimeUnit::Us => "µs"@,
        TimeUnit::Ms => "ms"@,
        TimeUnit::S => "s"@,
        TimeUnit::Min => "min"@,
    }
}

impl TimeUnit {
    /// The suffix printed after a value in this unit.
    pub fn suffix(self) -> (s: &'static str)
        ensures
            s@ == spec_suffix(self),
    {
        match self {
            TimeUnit::Ns => "ns",
            TimeUnit::Us => "µs",
            TimeUnit::Ms => "ms",
            TimeUnit::S => "s",
            TimeUnit::Min => "min",
        }
    }
}

/// Formatting knobs for time labels. `decimals` is fixed per config (2 by
/// default); `min_unit` is the floor of the unit ladder.
#[derive(Clone, Copy, Debug, PartialEq, Eq, Structural)]
pub struct TimeFormatConfig {
    pub decimals: u8,
    pub min_unit: TimeUnit,
}

impl Default for TimeFormatConfig {
    fn default() -> (c: Self)
        ensures
            c.decimals == 2,
            c.min_unit == TimeUnit::Ns,
    {
        TimeFormatConfig { decimals: 2, min_unit: TimeUnit::Ns }
    }
}

/// Default time-format configuration: 2 decimal places, nanoseconds as floor.
pub fn default_time_format() -> (c: TimeFormatConfig)
    ensures
        c == (TimeFormatConfig { decimals: 2, min_unit: TimeUnit::Ns }),
{
    TimeFormatConfig { decimals: 2, min_unit: TimeUnit::Ns }
}

/// Number of decimals a label in `unit` is printed with: at the configured
/// floor the unit itself is the smallest quantum, so it is printed as a whole
/// number; every larger unit keeps the configured decimals.
pub fn decimals_for_unit(unit: TimeUnit, config: &TimeFormatConfig) -> (d: u8)
    ensures
        d == (if unit == config.min_unit { 0 } else { config.decimals }),
{
    if unit == config.min_unit {
        0
    } else {
        config.decimals
    }
}

} // verus!
