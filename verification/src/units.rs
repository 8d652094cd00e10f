//! Time units and their spellings.
use crate::grammar::same_text;
use vstd::prelude::*;

verus! {

/// A time unit. Each has a one-letter code.
#[derive(Clone, Copy, Debug, PartialEq, Eq, Structural)]
pub enum Unit {
    Seconds,
    Minutes,
    Hours,
    Millis,
}

impl Unit {
    /// The text of the unit's code: `s`, `m`, `h`, or `l` for milliseconds.
    pub open spec fn code_text(self) -> Seq<char> {
        match self {
            Unit::Seconds => "s"@,
            Unit::Minutes => "m"@,
            Unit::Hours => "h"@,
            Unit::Millis => "l"@,
        }
    }

    /// The unit's code.
    pub fn code(self) -> (code: &'static str)
        ensures
            code@ == self.code_text(),
    {
        match self {
            Unit::Seconds => "s",
            Unit::Minutes => "m",
            Unit::Hours => "h",
            Unit::Millis => "l",
        }
    }
}

/// The unit that a spelling names. The table is exact: a spelling matches as
/// a whole and in lower case, or it names nothing.
pub open spec fn unit_of(spelling: Seq<char>) -> Option<Unit> {
    if spelling == "s"@ || spelling == "sec"@ || spelling == "second"@ || spelling == "seconds"@ {
        Some(Unit::Seconds)
    } else if spelling == "m"@ || spelling == "min"@ || spelling == "minute"@ || spelling
        == "minutes"@ {
        Some(Unit::Minutes)
    } else if spelling == "h"@ || spelling == "hour"@ || spelling == "hours"@ {
        Some(Unit::Hours)
    } else if spelling == "l"@ || spelling == "milli"@ || spelling == "millis"@ || spelling
        == "millisecond"@ || spelling == "milliseconds"@ {
        Some(Unit::Millis)
    } else {
        None
    }
}

/// The code of the unit that a spelling names, where it names one.
pub open spec fn code_of(spelling: Seq<char>) -> Option<Seq<char>> {
    match unit_of(spelling) {
        Some(unit) => Some(unit.code_text()),
        None => None,
    }
}

/// Looks a spelling up in the table of units.
pub fn normalise_unit(spelling: &str) -> (unit: Option<Unit>)
    ensures
        unit == unit_of(spelling@),
{
    if same_text(spelling, "s") || same_text(spelling, "sec") || same_text(spelling, "second")
        || same_text(spelling, "seconds") {
        Some(Unit::Seconds)
    } else if same_text(spelling, "m") || same_text(spelling, "min") || same_text(
        spelling,
        "minute",
    ) || same_text(spelling, "minutes") {
        Some(Unit::Minutes)
    } else if same_text(spelling, "h") || same_text(spelling, "hour") || same_text(
        spelling,
        "hours",
    ) {
        Some(Unit::Hours)
    } else if same_text(spelling, "l") || same_text(spelling, "milli") || same_text(
        spelling,
        "millis",
    ) || same_text(spelling, "millisecond") || same_text(spelling, "milliseconds") {
        Some(Unit::Millis)
    } else {
        None
    }
}

/// A code names its own unit: normalising twice changes nothing.
pub proof fn lemma_code_names_its_unit(unit: Unit)
    ensures
        unit_of(unit.code_text()) == Some(unit),
{
    reveal_strlit("s");
    reveal_strlit("m");
    reveal_strlit("h");
    reveal_strlit("l");
    reveal_strlit("sec");
    reveal_strlit("second");
    reveal_strlit("seconds");
    reveal_strlit("min");
    reveal_strlit("minute");
    reveal_strlit("minutes");
    reveal_strlit("hour");
    reveal_strlit("hours");
    assert("s"@[0] == 's');
    assert("m"@[0] == 'm');
    assert("h"@[0] == 'h');
    assert("l"@[0] == 'l');
}

} // verus!
