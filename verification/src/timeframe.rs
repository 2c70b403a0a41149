//! The closed set of supported bar durations, with the canonical
//! label <-> variant mapping and the duration in seconds that the
//! aggregator uses as its bucket width.

use vstd::prelude::*;

use crate::text::str_equal;

verus! {

/// A supported bar duration. The set is closed; ordering is total by
/// bar length in seconds.
#[derive(Clone, Copy, PartialEq, Eq, Structural, Debug)]
pub enum TimeFrame {
    M1,
    M5,
    M15,
    M30,
    H1,
    H4,
    D1,
    W1,
}

impl TimeFrame {
    /// The fixed bar length of this timeframe, in seconds.
    pub open spec fn duration_spec(self) -> int {
        match self {
            TimeFrame::M1 => 60,
            TimeFrame::M5 => 300,
            TimeFrame::M15 => 900,
            TimeFrame::M30 => 1800,
            TimeFrame::H1 => 3600,
            TimeFrame::H4 => 14400,
            TimeFrame::D1 => 86400,
            TimeFrame::W1 => 604800,
        }
    }

    /// The canonical label of this timeframe.
    pub open spec fn label_spec(self) -> Seq<char> {
        match self {
            TimeFrame::M1 => "M1"@,
            TimeFrame::M5 => "M5"@,
            TimeFrame::M15 => "M15"@,
            TimeFrame::M30 => "M30"@,
            TimeFrame::H1 => "H1"@,
            TimeFrame::H4 => "H4"@,
            TimeFrame::D1 => "D1"@,
            TimeFrame::W1 => "W1"@,
        }
    }

    /// Which timeframe, if any, a label denotes: the inverse of `label_spec`.
    pub open spec fn parse_spec(s: Seq<char>) -> Option<TimeFrame> {
        if s == "M1"@ {
            Some(TimeFrame::M1)
        } else if s == "M5"@ {
            Some(TimeFrame::M5)
        } else if s == "M15"@ {
            Some(TimeFrame::M15)
        } else if s == "M30"@ {
            Some(TimeFrame::M30)
        } else if s == "H1"@ {
            Some(TimeFrame::H1)
        } else if s == "H4"@ {
            Some(TimeFrame::H4)
        } else if s == "D1"@ {
            Some(TimeFrame::D1)
        } else if s == "W1"@ {
            Some(TimeFrame::W1)
        } else {
            None
        }
    }

    /// Bar length in seconds; the aggregation bucket width.
    pub fn duration_seconds(self) -> (d: i64)
        ensures
            d == self.duration_spec(),
            0 < d <= 604800,
    {
        match self {
            TimeFrame::M1 => 60,
            TimeFrame::M5 => 300,
            TimeFrame::M15 => 900,
            TimeFrame::M30 => 1800,
            TimeFrame::H1 => 3600,
            TimeFrame::H4 => 14400,
            TimeFrame::D1 => 86400,
            TimeFrame::W1 => 604800,
        }
    }

    /// Case-sensitive match of a label against the closed enumeration.
    pub fn from_str(s: &str) -> (r: Option<TimeFrame>)
        ensures
            r == Self::parse_spec(s@),
    {
        if str_equal(s, "M1") {
            Some(TimeFrame::M1)
        } else if str_equal(s, "M5") {
            Some(TimeFrame::M5)
        } else if str_equal(s, "M15") {
            Some(TimeFrame::M15)
        } else if str_equal(s, "M30") {
            Some(TimeFrame::M30)
        } else if str_equal(s, "H1") {
            Some(TimeFrame::H1)
        } else if str_equal(s, "H4") {
            Some(TimeFrame::H4)
        } else if str_equal(s, "D1") {
            Some(TimeFrame::D1)
        } else if str_equal(s, "W1") {
            Some(TimeFrame::W1)
        } else {
            None
        }
    }

    /// The canonical label: the inverse of `from_str`.
    pub fn display(self) -> (r: String)
        ensures
            r@ == self.label_spec(),
    {
        match self {
            TimeFrame::M1 => String::from_str("M1"),
            TimeFrame::M5 => String::from_str("M5"),
            TimeFrame::M15 => String::from_str("M15"),
            TimeFrame::M30 => String::from_str("M30"),
            TimeFrame::H1 => String::from_str("H1"),
            TimeFrame::H4 => String::from_str("H4"),
            TimeFrame::D1 => String::from_str("D1"),
            TimeFrame::W1 => String::from_str("W1"),
        }
    }

    /// Every timeframe's bar length divides a week, so week-aligned
    /// boundaries are aligned for every timeframe.
    pub proof fn lemma_duration_divides_week(self)
        ensures
            604800int % self.duration_spec() == 0,
            0 < self.duration_spec() <= 604800,
    {
        match self {
            TimeFrame::M1 => assert(604800int % 60 == 0),
            TimeFrame::M5 => assert(604800int % 300 == 0),
            TimeFrame::M15 => assert(604800int % 900 == 0),
            TimeFrame::M30 => assert(604800int % 1800 == 0),
            TimeFrame::H1 => assert(604800int % 3600 == 0),
            TimeFrame::H4 => assert(604800int % 14400 == 0),
            TimeFrame::D1 => assert(604800int % 86400 == 0),
            TimeFrame::W1 => assert(604800int % 604800 == 0),
        }
    }
}

/// No two timeframes share a bar length: the duration determines the
/// timeframe.
pub proof fn lemma_duration_injective(a: TimeFrame, b: TimeFrame)
    requires
        a.duration_spec() == b.duration_spec(),
    ensures
        a == b,
{
}

/// The labels round-trip: parsing the canonical label of any timeframe
/// yields that timeframe back.
pub proof fn lemma_label_round_trip(tf: TimeFrame)
    ensures
        TimeFrame::parse_spec(tf.label_spec()) == Some(tf),
{
    reveal_strlit("M1");
    reveal_strlit("M5");
    reveal_strlit("M15");
    reveal_strlit("M30");
    reveal_strlit("H1");
    reveal_strlit("H4");
    reveal_strlit("D1");
    reveal_strlit("W1");
    assert("M1"@.len() == 2 && "M1"@[0] == 'M' && "M1"@[1] == '1');
    assert("M5"@.len() == 2 && "M5"@[1] == '5');
    assert("M15"@.len() == 3 && "M15"@[1] == '1' && "M15"@[2] == '5');
    assert("M30"@.len() == 3 && "M30"@[1] == '3');
    assert("H1"@.len() == 2 && "H1"@[0] == 'H' && "H1"@[1] == '1');
    assert("H4"@.len() == 2 && "H4"@[0] == 'H' && "H4"@[1] == '4');
    assert("D1"@.len() == 2 && "D1"@[0] == 'D');
    assert("W1"@.len() == 2 && "W1"@[0] == 'W');
}

} // verus!
