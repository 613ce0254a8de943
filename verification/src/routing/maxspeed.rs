//! The speed limits of OpenStreetMap ways (the `maxspeed` tags).
//!
//! Speeds are kept as the digits and the unit they are given in; turning
//! them into velocities is left to the caller.
use vstd::prelude::*;
use vstd::string::StringExecFns;
use crate::routing::text::{str_lowercase, str_trim, to_lowercase, trim, str_eq, chars_of, is_white_space, is_ascii_text, ascii_lowercase};
use crate::routing::tags::{tags_view, tag_value, get_tag};

verus! {

/// The units speed limits are given in.
#[derive(Clone, Copy, PartialEq, Eq, Structural, Debug)]
pub enum SpeedUnit {
    KilometersPerHour,
    MilesPerHour,
    Knots,
    MetersPerSecond,
}

/// A speed limit: a limit in decimal digits and a unit, no limit, or unknown.
#[derive(Clone, PartialEq, Eq, Debug)]
pub enum MaxSpeed {
    Limited(String, SpeedUnit),
    Unlimited,
    Unknown,
}

/// What a speed limit states.
pub enum MaxSpeedView {
    Limited(Seq<char>, SpeedUnit),
    Unlimited,
    Unknown,
}

/// The view of a speed limit.
pub open spec fn maxspeed_view(m: MaxSpeed) -> MaxSpeedView {
    match m {
        MaxSpeed::Limited(digits, unit) => MaxSpeedView::Limited(digits@, unit),
        MaxSpeed::Unlimited => MaxSpeedView::Unlimited,
        MaxSpeed::Unknown => MaxSpeedView::Unknown,
    }
}

/// The limits of named speed zones (`de:urban` and the like), in lower case.
pub open spec fn named_speed(s: Seq<char>) -> Option<MaxSpeedView> {
    if s == "none"@ {
        Some(MaxSpeedView::Unlimited)
    } else if s == ""@ {
        Some(MaxSpeedView::Unknown)
    } else if s == "walk"@ {
        Some(MaxSpeedView::Limited("5"@, SpeedUnit::KilometersPerHour))
    } else if s == "at:bicycle_road"@ || s == "be-bru:urban"@ || s == "be:cyclestreet"@ || s == "be:zone30"@ || s == "de:bicycle_road"@ || s == "fr:zone30"@ {
        Some(MaxSpeedView::Limited("30"@, SpeedUnit::KilometersPerHour))
    } else if s == "at:motorway"@ || s == "cz:motorway"@ || s == "de:motorway"@ || s == "dk:motorway"@ || s == "fr:motorway"@ || s == "it:motorway"@ {
        Some(MaxSpeedView::Limited("130"@, SpeedUnit::KilometersPerHour))
    } else if s == "at:rural"@ || s == "at:trunk"@ || s == "ch:trunk"@ || s == "de:rural"@ {
        Some(MaxSpeedView::Limited("100"@, SpeedUnit::KilometersPerHour))
    } else if s == "at:urban"@ || s == "be-vlg:urban"@ || s == "be-wal:urban"@ || s == "ch:urban"@ || s == "cz:urban"@ || s == "de:urban"@ || s == "dk:urban"@ || s == "fr:urban"@ || s == "it:urban"@ {
        Some(MaxSpeedView::Limited("50"@, SpeedUnit::KilometersPerHour))
    } else if s == "be-bru:rural"@ || s == "be-vlg:rural"@ {
        Some(MaxSpeedView::Limited("70"@, SpeedUnit::KilometersPerHour))
    } else if s == "be:living_street"@ || s == "cz:living_street"@ || s == "cz:pedestrian_zone"@ {
        Some(MaxSpeedView::Limited("20"@, SpeedUnit::KilometersPerHour))
    } else if s == "be:motorway"@ || s == "be:trunk"@ || s == "ch:motorway"@ {
        Some(MaxSpeedView::Limited("120"@, SpeedUnit::KilometersPerHour))
    } else if s == "be-wal:rural"@ || s == "cz:rural"@ || s == "it:rural"@ {
        Some(MaxSpeedView::Limited("90"@, SpeedUnit::KilometersPerHour))
    } else if s == "ch:rural"@ || s == "cz:urban_motorway"@ || s == "cz:urban_trunk"@ || s == "dk:rural"@ || s == "fr:rural"@ {
        Some(MaxSpeedView::Limited("80"@, SpeedUnit::KilometersPerHour))
    } else if s == "cz:trunk"@ || s == "it:trunk"@ {
        Some(MaxSpeedView::Limited("110"@, SpeedUnit::KilometersPerHour))
    } else if s == "de:living_street"@ {
        Some(MaxSpeedView::Limited("7"@, SpeedUnit::KilometersPerHour))
    } else {
        None
    }}

/// The limits of the named speed zones, as the OpenStreetMap list of
/// implicit speed limits gives them: `walk` is 5 km/h, `none` is no limit,
/// an empty value is unknown, and each country zone has its limit in km/h
/// (`de:urban` 50, `de:rural` 100, `de:motorway` 130, `fr:zone30` 30, ...).
/// No other value names a zone.
#[verifier::rlimit(100)]
pub proof fn lemma_named_zones()
    ensures
        named_speed("walk"@) == Some(MaxSpeedView::Limited("5"@, SpeedUnit::KilometersPerHour)),
        named_speed("none"@) == Some(MaxSpeedView::Unlimited),
        named_speed(""@) == Some(MaxSpeedView::Unknown),
        named_speed("at:bicycle_road"@) == Some(MaxSpeedView::Limited("30"@, SpeedUnit::KilometersPerHour)),
        named_speed("at:motorway"@) == Some(MaxSpeedView::Limited("130"@, SpeedUnit::KilometersPerHour)),
        named_speed("at:rural"@) == Some(MaxSpeedView::Limited("100"@, SpeedUnit::KilometersPerHour)),
        named_speed("at:trunk"@) == Some(MaxSpeedView::Limited("100"@, SpeedUnit::KilometersPerHour)),
        named_speed("at:urban"@) == Some(MaxSpeedView::Limited("50"@, SpeedUnit::KilometersPerHour)),
        named_speed("be-bru:rural"@) == Some(MaxSpeedView::Limited("70"@, SpeedUnit::KilometersPerHour)),
        named_speed("be-bru:urban"@) == Some(MaxSpeedView::Limited("30"@, SpeedUnit::KilometersPerHour)),
        named_speed("be:cyclestreet"@) == Some(MaxSpeedView::Limited("30"@, SpeedUnit::KilometersPerHour)),
        named_speed("be:living_street"@) == Some(MaxSpeedView::Limited("20"@, SpeedUnit::KilometersPerHour)),
        named_speed("be:motorway"@) == Some(MaxSpeedView::Limited("120"@, SpeedUnit::KilometersPerHour)),
        named_speed("be:trunk"@) == Some(MaxSpeedView::Limited("120"@, SpeedUnit::KilometersPerHour)),
        named_speed("be-vlg:rural"@) == Some(MaxSpeedView::Limited("70"@, SpeedUnit::KilometersPerHour)),
        named_speed("be-vlg:urban"@) == Some(MaxSpeedView::Limited("50"@, SpeedUnit::KilometersPerHour)),
        named_speed("be-wal:rural"@) == Some(MaxSpeedView::Limited("90"@, SpeedUnit::KilometersPerHour)),
        named_speed("be-wal:urban"@) == Some(MaxSpeedView::Limited("50"@, SpeedUnit::KilometersPerHour)),
        named_speed("be:zone30"@) == Some(MaxSpeedView::Limited("30"@, SpeedUnit::KilometersPerHour)),
        named_speed("ch:motorway"@) == Some(MaxSpeedView::Limited("120"@, SpeedUnit::KilometersPerHour)),
        named_speed("ch:rural"@) == Some(MaxSpeedView::Limited("80"@, SpeedUnit::KilometersPerHour)),
        named_speed("ch:trunk"@) == Some(MaxSpeedView::Limited("100"@, SpeedUnit::KilometersPerHour)),
        named_speed("ch:urban"@) == Some(MaxSpeedView::Limited("50"@, SpeedUnit::KilometersPerHour)),
        named_speed("cz:living_street"@) == Some(MaxSpeedView::Limited("20"@, SpeedUnit::KilometersPerHour)),
        named_speed("cz:motorway"@) == Some(MaxSpeedView::Limited("130"@, SpeedUnit::KilometersPerHour)),
        named_speed("cz:pedestrian_zone"@) == Some(MaxSpeedView::Limited("20"@, SpeedUnit::KilometersPerHour)),
        named_speed("cz:rural"@) == Some(MaxSpeedView::Limited("90"@, SpeedUnit::KilometersPerHour)),
        named_speed("cz:trunk"@) == Some(MaxSpeedView::Limited("110"@, SpeedUnit::KilometersPerHour)),
        named_speed("cz:urban_motorway"@) == Some(MaxSpeedView::Limited("80"@, SpeedUnit::KilometersPerHour)),
        named_speed("cz:urban"@) == Some(MaxSpeedView::Limited("50"@, SpeedUnit::KilometersPerHour)),
        named_speed("cz:urban_trunk"@) == Some(MaxSpeedView::Limited("80"@, SpeedUnit::KilometersPerHour)),
        named_speed("de:bicycle_road"@) == Some(MaxSpeedView::Limited("30"@, SpeedUnit::KilometersPerHour)),
        named_speed("de:living_street"@) == Some(MaxSpeedView::Limited("7"@, SpeedUnit::KilometersPerHour)),
        named_speed("de:motorway"@) == Some(MaxSpeedView::Limited("130"@, SpeedUnit::KilometersPerHour)),
        named_speed("de:rural"@) == Some(MaxSpeedView::Limited("100"@, SpeedUnit::KilometersPerHour)),
        named_speed("de:urban"@) == Some(MaxSpeedView::Limited("50"@, SpeedUnit::KilometersPerHour)),
        named_speed("dk:motorway"@) == Some(MaxSpeedView::Limited("130"@, SpeedUnit::KilometersPerHour)),
        named_speed("dk:rural"@) == Some(MaxSpeedView::Limited("80"@, SpeedUnit::KilometersPerHour)),
        named_speed("dk:urban"@) == Some(MaxSpeedView::Limited("50"@, SpeedUnit::KilometersPerHour)),
        named_speed("fr:motorway"@) == Some(MaxSpeedView::Limited("130"@, SpeedUnit::KilometersPerHour)),
        named_speed("fr:rural"@) == Some(MaxSpeedView::Limited("80"@, SpeedUnit::KilometersPerHour)),
        named_speed("fr:urban"@) == Some(MaxSpeedView::Limited("50"@, SpeedUnit::KilometersPerHour)),
        named_speed("fr:zone30"@) == Some(MaxSpeedView::Limited("30"@, SpeedUnit::KilometersPerHour)),
        named_speed("it:motorway"@) == Some(MaxSpeedView::Limited("130"@, SpeedUnit::KilometersPerHour)),
        named_speed("it:rural"@) == Some(MaxSpeedView::Limited("90"@, SpeedUnit::KilometersPerHour)),
        named_speed("it:trunk"@) == Some(MaxSpeedView::Limited("110"@, SpeedUnit::KilometersPerHour)),
        named_speed("it:urban"@) == Some(MaxSpeedView::Limited("50"@, SpeedUnit::KilometersPerHour)),
        forall|s: Seq<char>| #[trigger] named_speed(s) is Some ==> (s == "walk"@ || s == "none"@ || s == ""@ || s == "at:bicycle_road"@ || s == "at:motorway"@ || s == "at:rural"@ || s == "at:trunk"@ || s == "at:urban"@ || s == "be-bru:rural"@ || s == "be-bru:urban"@ || s == "be:cyclestreet"@ || s == "be:living_street"@ || s == "be:motorway"@ || s == "be:trunk"@ || s == "be-vlg:rural"@ || s == "be-vlg:urban"@ || s == "be-wal:rural"@ || s == "be-wal:urban"@ || s == "be:zone30"@ || s == "ch:motorway"@ || s == "ch:rural"@ || s == "ch:trunk"@ || s == "ch:urban"@ || s == "cz:living_street"@ || s == "cz:motorway"@ || s == "cz:pedestrian_zone"@ || s == "cz:rural"@ || s == "cz:trunk"@ || s == "cz:urban_motorway"@ || s == "cz:urban"@ || s == "cz:urban_trunk"@ || s == "de:bicycle_road"@ || s == "de:living_street"@ || s == "de:motorway"@ || s == "de:rural"@ || s == "de:urban"@ || s == "dk:motorway"@ || s == "dk:rural"@ || s == "dk:urban"@ || s == "fr:motorway"@ || s == "fr:rural"@ || s == "fr:urban"@ || s == "fr:zone30"@ || s == "it:motorway"@ || s == "it:rural"@ || s == "it:trunk"@ || s == "it:urban"@),
{
    reveal_strlit("walk");
    reveal_strlit("none");
    reveal_strlit("");
    reveal_strlit("at:bicycle_road");
    reveal_strlit("at:motorway");
    reveal_strlit("at:rural");
    reveal_strlit("at:trunk");
    reveal_strlit("at:urban");
    reveal_strlit("be-bru:rural");
    reveal_strlit("be-bru:urban");
    reveal_strlit("be:cyclestreet");
    reveal_strlit("be:living_street");
    reveal_strlit("be:motorway");
    reveal_strlit("be:trunk");
    reveal_strlit("be-vlg:rural");
    reveal_strlit("be-vlg:urban");
    reveal_strlit("be-wal:rural");
    reveal_strlit("be-wal:urban");
    reveal_strlit("be:zone30");
    reveal_strlit("ch:motorway");
    reveal_strlit("ch:rural");
    reveal_strlit("ch:trunk");
    reveal_strlit("ch:urban");
    reveal_strlit("cz:living_street");
    reveal_strlit("cz:motorway");
    reveal_strlit("cz:pedestrian_zone");
    reveal_strlit("cz:rural");
    reveal_strlit("cz:trunk");
    reveal_strlit("cz:urban_motorway");
    reveal_strlit("cz:urban");
    reveal_strlit("cz:urban_trunk");
    reveal_strlit("de:bicycle_road");
    reveal_strlit("de:living_street");
    reveal_strlit("de:motorway");
    reveal_strlit("de:rural");
    reveal_strlit("de:urban");
    reveal_strlit("dk:motorway");
    reveal_strlit("dk:rural");
    reveal_strlit("dk:urban");
    reveal_strlit("fr:motorway");
    reveal_strlit("fr:rural");
    reveal_strlit("fr:urban");
    reveal_strlit("fr:zone30");
    reveal_strlit("it:motorway");
    reveal_strlit("it:rural");
    reveal_strlit("it:trunk");
    reveal_strlit("it:urban");
    reveal_strlit("100");
    reveal_strlit("110");
    reveal_strlit("120");
    reveal_strlit("130");
    reveal_strlit("20");
    reveal_strlit("30");
    reveal_strlit("5");
    reveal_strlit("50");
    reveal_strlit("7");
    reveal_strlit("70");
    reveal_strlit("80");
    reveal_strlit("90");
    assert("walk"@.len() == 4);
    assert("none"@.len() == 4);
    assert(""@.len() == 0);
    assert("at:bicycle_road"@.len() == 15);
    assert("at:motorway"@.len() == 11);
    assert("at:rural"@.len() == 8);
    assert("at:trunk"@.len() == 8);
    assert("at:urban"@.len() == 8);
    assert("be-bru:rural"@.len() == 12);
    assert("be-bru:urban"@.len() == 12);
    assert("be:cyclestreet"@.len() == 14);
    assert("be:living_street"@.len() == 16);
    assert("be:motorway"@.len() == 11);
    assert("be:trunk"@.len() == 8);
    assert("be-vlg:rural"@.len() == 12);
    assert("be-vlg:urban"@.len() == 12);
    assert("be-wal:rural"@.len() == 12);
    assert("be-wal:urban"@.len() == 12);
    assert("be:zone30"@.len() == 9);
    assert("ch:motorway"@.len() == 11);
    assert("ch:rural"@.len() == 8);
    assert("ch:trunk"@.len() == 8);
    assert("ch:urban"@.len() == 8);
    assert("cz:living_street"@.len() == 16);
    assert("cz:motorway"@.len() == 11);
    assert("cz:pedestrian_zone"@.len() == 18);
    assert("cz:rural"@.len() == 8);
    assert("cz:trunk"@.len() == 8);
    assert("cz:urban_motorway"@.len() == 17);
    assert("cz:urban"@.len() == 8);
    assert("cz:urban_trunk"@.len() == 14);
    assert("de:bicycle_road"@.len() == 15);
    assert("de:living_street"@.len() == 16);
    assert("de:motorway"@.len() == 11);
    assert("de:rural"@.len() == 8);
    assert("de:urban"@.len() == 8);
    assert("dk:motorway"@.len() == 11);
    assert("dk:rural"@.len() == 8);
    assert("dk:urban"@.len() == 8);
    assert("fr:motorway"@.len() == 11);
    assert("fr:rural"@.len() == 8);
    assert("fr:urban"@.len() == 8);
    assert("fr:zone30"@.len() == 9);
    assert("it:motorway"@.len() == 11);
    assert("it:rural"@.len() == 8);
    assert("it:trunk"@.len() == 8);
    assert("it:urban"@.len() == 8);
    assert("walk"@[0] != "none"@[0]);
    assert("at:bicycle_road"@[0] != "de:bicycle_road"@[0]);
    assert("at:motorway"@[0] != "be:motorway"@[0]);
    assert("at:motorway"@[0] != "ch:motorway"@[0]);
    assert("at:motorway"@[0] != "cz:motorway"@[0]);
    assert("at:motorway"@[0] != "de:motorway"@[0]);
    assert("at:motorway"@[0] != "dk:motorway"@[0]);
    assert("at:motorway"@[0] != "fr:motorway"@[0]);
    assert("at:motorway"@[0] != "it:motorway"@[0]);
    assert("at:rural"@[3] != "at:trunk"@[3]);
    assert("at:rural"@[3] != "at:urban"@[3]);
    assert("at:rural"@[0] != "be:trunk"@[0]);
    assert("at:rural"@[0] != "ch:rural"@[0]);
    assert("at:rural"@[0] != "ch:trunk"@[0]);
    assert("at:rural"@[0] != "ch:urban"@[0]);
    assert("at:rural"@[0] != "cz:rural"@[0]);
    assert("at:rural"@[0] != "cz:trunk"@[0]);
    assert("at:rural"@[0] != "cz:urban"@[0]);
    assert("at:rural"@[0] != "de:rural"@[0]);
    assert("at:rural"@[0] != "de:urban"@[0]);
    assert("at:rural"@[0] != "dk:rural"@[0]);
    assert("at:rural"@[0] != "dk:urban"@[0]);
    assert("at:rural"@[0] != "fr:rural"@[0]);
    assert("at:rural"@[0] != "fr:urban"@[0]);
    assert("at:rural"@[0] != "it:rural"@[0]);
    assert("at:rural"@[0] != "it:trunk"@[0]);
    assert("at:rural"@[0] != "it:urban"@[0]);
    assert("at:trunk"@[3] != "at:urban"@[3]);
    assert("at:trunk"@[0] != "be:trunk"@[0]);
    assert("at:trunk"@[0] != "ch:rural"@[0]);
    assert("at:trunk"@[0] != "ch:trunk"@[0]);
    assert("at:trunk"@[0] != "ch:urban"@[0]);
    assert("at:trunk"@[0] != "cz:rural"@[0]);
    assert("at:trunk"@[0] != "cz:trunk"@[0]);
    assert("at:trunk"@[0] != "cz:urban"@[0]);
    assert("at:trunk"@[0] != "de:rural"@[0]);
    assert("at:trunk"@[0] != "de:urban"@[0]);
    assert("at:trunk"@[0] != "dk:rural"@[0]);
    assert("at:trunk"@[0] != "dk:urban"@[0]);
    assert("at:trunk"@[0] != "fr:rural"@[0]);
    assert("at:trunk"@[0] != "fr:urban"@[0]);
    assert("at:trunk"@[0] != "it:rural"@[0]);
    assert("at:trunk"@[0] != "it:trunk"@[0]);
    assert("at:trunk"@[0] != "it:urban"@[0]);
    assert("at:urban"@[0] != "be:trunk"@[0]);
    assert("at:urban"@[0] != "ch:rural"@[0]);
    assert("at:urban"@[0] != "ch:trunk"@[0]);
    assert("at:urban"@[0] != "ch:urban"@[0]);
    assert("at:urban"@[0] != "cz:rural"@[0]);
    assert("at:urban"@[0] != "cz:trunk"@[0]);
    assert("at:urban"@[0] != "cz:urban"@[0]);
    assert("at:urban"@[0] != "de:rural"@[0]);
    assert("at:urban"@[0] != "de:urban"@[0]);
    assert("at:urban"@[0] != "dk:rural"@[0]);
    assert("at:urban"@[0] != "dk:urban"@[0]);
    assert("at:urban"@[0] != "fr:rural"@[0]);
    assert("at:urban"@[0] != "fr:urban"@[0]);
    assert("at:urban"@[0] != "it:rural"@[0]);
    assert("at:urban"@[0] != "it:trunk"@[0]);
    assert("at:urban"@[0] != "it:urban"@[0]);
    assert("be-bru:rural"@[7] != "be-bru:urban"@[7]);
    assert("be-bru:rural"@[3] != "be-vlg:rural"@[3]);
    assert("be-bru:rural"@[3] != "be-vlg:urban"@[3]);
    assert("be-bru:rural"@[3] != "be-wal:rural"@[3]);
    assert("be-bru:rural"@[3] != "be-wal:urban"@[3]);
    assert("be-bru:urban"@[3] != "be-vlg:rural"@[3]);
    assert("be-bru:urban"@[3] != "be-vlg:urban"@[3]);
    assert("be-bru:urban"@[3] != "be-wal:rural"@[3]);
    assert("be-bru:urban"@[3] != "be-wal:urban"@[3]);
    assert("be:cyclestreet"@[0] != "cz:urban_trunk"@[0]);
    assert("be:living_street"@[0] != "cz:living_street"@[0]);
    assert("be:living_street"@[0] != "de:living_street"@[0]);
    assert("be:motorway"@[0] != "ch:motorway"@[0]);
    assert("be:motorway"@[0] != "cz:motorway"@[0]);
    assert("be:motorway"@[0] != "de:motorway"@[0]);
    assert("be:motorway"@[0] != "dk:motorway"@[0]);
    assert("be:motorway"@[0] != "fr:motorway"@[0]);
    assert("be:motorway"@[0] != "it:motorway"@[0]);
    assert("be:trunk"@[0] != "ch:rural"@[0]);
    assert("be:trunk"@[0] != "ch:trunk"@[0]);
    assert("be:trunk"@[0] != "ch:urban"@[0]);
    assert("be:trunk"@[0] != "cz:rural"@[0]);
    assert("be:trunk"@[0] != "cz:trunk"@[0]);
    assert("be:trunk"@[0] != "cz:urban"@[0]);
    assert("be:trunk"@[0] != "de:rural"@[0]);
    assert("be:trunk"@[0] != "de:urban"@[0]);
    assert("be:trunk"@[0] != "dk:rural"@[0]);
    assert("be:trunk"@[0] != "dk:urban"@[0]);
    assert("be:trunk"@[0] != "fr:rural"@[0]);
    assert("be:trunk"@[0] != "fr:urban"@[0]);
    assert("be:trunk"@[0] != "it:rural"@[0]);
    assert("be:trunk"@[0] != "it:trunk"@[0]);
    assert("be:trunk"@[0] != "it:urban"@[0]);
    assert("be-vlg:rural"@[7] != "be-vlg:urban"@[7]);
    assert("be-vlg:rural"@[3] != "be-wal:rural"@[3]);
    assert("be-vlg:rural"@[3] != "be-wal:urban"@[3]);
    assert("be-vlg:urban"@[3] != "be-wal:rural"@[3]);
    assert("be-vlg:urban"@[3] != "be-wal:urban"@[3]);
    assert("be-wal:rural"@[7] != "be-wal:urban"@[7]);
    assert("be:zone30"@[0] != "fr:zone30"@[0]);
    assert("ch:motorway"@[1] != "cz:motorway"@[1]);
    assert("ch:motorway"@[0] != "de:motorway"@[0]);
    assert("ch:motorway"@[0] != "dk:motorway"@[0]);
    assert("ch:motorway"@[0] != "fr:motorway"@[0]);
    assert("ch:motorway"@[0] != "it:motorway"@[0]);
    assert("ch:rural"@[3] != "ch:trunk"@[3]);
    assert("ch:rural"@[3] != "ch:urban"@[3]);
    assert("ch:rural"@[1] != "cz:rural"@[1]);
    assert("ch:rural"@[1] != "cz:trunk"@[1]);
    assert("ch:rural"@[1] != "cz:urban"@[1]);
    assert("ch:rural"@[0] != "de:rural"@[0]);
    assert("ch:rural"@[0] != "de:urban"@[0]);
    assert("ch:rural"@[0] != "dk:rural"@[0]);
    assert("ch:rural"@[0] != "dk:urban"@[0]);
    assert("ch:rural"@[0] != "fr:rural"@[0]);
    assert("ch:rural"@[0] != "fr:urban"@[0]);
    assert("ch:rural"@[0] != "it:rural"@[0]);
    assert("ch:rural"@[0] != "it:trunk"@[0]);
    assert("ch:rural"@[0] != "it:urban"@[0]);
    assert("ch:trunk"@[3] != "ch:urban"@[3]);
    assert("ch:trunk"@[1] != "cz:rural"@[1]);
    assert("ch:trunk"@[1] != "cz:trunk"@[1]);
    assert("ch:trunk"@[1] != "cz:urban"@[1]);
    assert("ch:trunk"@[0] != "de:rural"@[0]);
    assert("ch:trunk"@[0] != "de:urban"@[0]);
    assert("ch:trunk"@[0] != "dk:rural"@[0]);
    assert("ch:trunk"@[0] != "dk:urban"@[0]);
    assert("ch:trunk"@[0] != "fr:rural"@[0]);
    assert("ch:trunk"@[0] != "fr:urban"@[0]);
    assert("ch:trunk"@[0] != "it:rural"@[0]);
    assert("ch:trunk"@[0] != "it:trunk"@[0]);
    assert("ch:trunk"@[0] != "it:urban"@[0]);
    assert("ch:urban"@[1] != "cz:rural"@[1]);
    assert("ch:urban"@[1] != "cz:trunk"@[1]);
    assert("ch:urban"@[1] != "cz:urban"@[1]);
    assert("ch:urban"@[0] != "de:rural"@[0]);
    assert("ch:urban"@[0] != "de:urban"@[0]);
    assert("ch:urban"@[0] != "dk:rural"@[0]);
    assert("ch:urban"@[0] != "dk:urban"@[0]);
    assert("ch:urban"@[0] != "fr:rural"@[0]);
    assert("ch:urban"@[0] != "fr:urban"@[0]);
    assert("ch:urban"@[0] != "it:rural"@[0]);
    assert("ch:urban"@[0] != "it:trunk"@[0]);
    assert("ch:urban"@[0] != "it:urban"@[0]);
    assert("cz:living_street"@[0] != "de:living_street"@[0]);
    assert("cz:motorway"@[0] != "de:motorway"@[0]);
    assert("cz:motorway"@[0] != "dk:motorway"@[0]);
    assert("cz:motorway"@[0] != "fr:motorway"@[0]);
    assert("cz:motorway"@[0] != "it:motorway"@[0]);
    assert("cz:rural"@[3] != "cz:trunk"@[3]);
    assert("cz:rural"@[3] != "cz:urban"@[3]);
    assert("cz:rural"@[0] != "de:rural"@[0]);
    assert("cz:rural"@[0] != "de:urban"@[0]);
    assert("cz:rural"@[0] != "dk:rural"@[0]);
    assert("cz:rural"@[0] != "dk:urban"@[0]);
    assert("cz:rural"@[0] != "fr:rural"@[0]);
    assert("cz:rural"@[0] != "fr:urban"@[0]);
    assert("cz:rural"@[0] != "it:rural"@[0]);
    assert("cz:rural"@[0] != "it:trunk"@[0]);
    assert("cz:rural"@[0] != "it:urban"@[0]);
    assert("cz:trunk"@[3] != "cz:urban"@[3]);
    assert("cz:trunk"@[0] != "de:rural"@[0]);
    assert("cz:trunk"@[0] != "de:urban"@[0]);
    assert("cz:trunk"@[0] != "dk:rural"@[0]);
    assert("cz:trunk"@[0] != "dk:urban"@[0]);
    assert("cz:trunk"@[0] != "fr:rural"@[0]);
    assert("cz:trunk"@[0] != "fr:urban"@[0]);
    assert("cz:trunk"@[0] != "it:rural"@[0]);
    assert("cz:trunk"@[0] != "it:trunk"@[0]);
    assert("cz:trunk"@[0] != "it:urban"@[0]);
    assert("cz:urban"@[0] != "de:rural"@[0]);
    assert("cz:urban"@[0] != "de:urban"@[0]);
    assert("cz:urban"@[0] != "dk:rural"@[0]);
    assert("cz:urban"@[0] != "dk:urban"@[0]);
    assert("cz:urban"@[0] != "fr:rural"@[0]);
    assert("cz:urban"@[0] != "fr:urban"@[0]);
    assert("cz:urban"@[0] != "it:rural"@[0]);
    assert("cz:urban"@[0] != "it:trunk"@[0]);
    assert("cz:urban"@[0] != "it:urban"@[0]);
    assert("de:motorway"@[1] != "dk:motorway"@[1]);
    assert("de:motorway"@[0] != "fr:motorway"@[0]);
    assert("de:motorway"@[0] != "it:motorway"@[0]);
    assert("de:rural"@[3] != "de:urban"@[3]);
    assert("de:rural"@[1] != "dk:rural"@[1]);
    assert("de:rural"@[1] != "dk:urban"@[1]);
    assert("de:rural"@[0] != "fr:rural"@[0]);
    assert("de:rural"@[0] != "fr:urban"@[0]);
    assert("de:rural"@[0] != "it:rural"@[0]);
    assert("de:rural"@[0] != "it:trunk"@[0]);
    assert("de:rural"@[0] != "it:urban"@[0]);
    assert("de:urban"@[1] != "dk:rural"@[1]);
    assert("de:urban"@[1] != "dk:urban"@[1]);
    assert("de:urban"@[0] != "fr:rural"@[0]);
    assert("de:urban"@[0] != "fr:urban"@[0]);
    assert("de:urban"@[0] != "it:rural"@[0]);
    assert("de:urban"@[0] != "it:trunk"@[0]);
    assert("de:urban"@[0] != "it:urban"@[0]);
    assert("dk:motorway"@[0] != "fr:motorway"@[0]);
    assert("dk:motorway"@[0] != "it:motorway"@[0]);
    assert("dk:rural"@[3] != "dk:urban"@[3]);
    assert("dk:rural"@[0] != "fr:rural"@[0]);
    assert("dk:rural"@[0] != "fr:urban"@[0]);
    assert("dk:rural"@[0] != "it:rural"@[0]);
    assert("dk:rural"@[0] != "it:trunk"@[0]);
    assert("dk:rural"@[0] != "it:urban"@[0]);
    assert("dk:urban"@[0] != "fr:rural"@[0]);
    assert("dk:urban"@[0] != "fr:urban"@[0]);
    assert("dk:urban"@[0] != "it:rural"@[0]);
    assert("dk:urban"@[0] != "it:trunk"@[0]);
    assert("dk:urban"@[0] != "it:urban"@[0]);
    assert("fr:motorway"@[0] != "it:motorway"@[0]);
    assert("fr:rural"@[3] != "fr:urban"@[3]);
    assert("fr:rural"@[0] != "it:rural"@[0]);
    assert("fr:rural"@[0] != "it:trunk"@[0]);
    assert("fr:rural"@[0] != "it:urban"@[0]);
    assert("fr:urban"@[0] != "it:rural"@[0]);
    assert("fr:urban"@[0] != "it:trunk"@[0]);
    assert("fr:urban"@[0] != "it:urban"@[0]);
    assert("it:rural"@[3] != "it:trunk"@[3]);
    assert("it:rural"@[3] != "it:urban"@[3]);
    assert("it:trunk"@[3] != "it:urban"@[3]);
    assert(named_speed("walk"@) == Some(MaxSpeedView::Limited("5"@, SpeedUnit::KilometersPerHour)));
    assert(named_speed("none"@) == Some(MaxSpeedView::Unlimited));
    assert(named_speed(""@) == Some(MaxSpeedView::Unknown));
    assert(named_speed("at:bicycle_road"@) == Some(MaxSpeedView::Limited("30"@, SpeedUnit::KilometersPerHour)));
    assert(named_speed("at:motorway"@) == Some(MaxSpeedView::Limited("130"@, SpeedUnit::KilometersPerHour)));
    assert(named_speed("at:rural"@) == Some(MaxSpeedView::Limited("100"@, SpeedUnit::KilometersPerHour)));
    assert(named_speed("at:trunk"@) == Some(MaxSpeedView::Limited("100"@, SpeedUnit::KilometersPerHour)));
    assert(named_speed("at:urban"@) == Some(MaxSpeedView::Limited("50"@, SpeedUnit::KilometersPerHour)));
    assert(named_speed("be-bru:rural"@) == Some(MaxSpeedView::Limited("70"@, SpeedUnit::KilometersPerHour)));
    assert(named_speed("be-bru:urban"@) == Some(MaxSpeedView::Limited("30"@, SpeedUnit::KilometersPerHour)));
    assert(named_speed("be:cyclestreet"@) == Some(MaxSpeedView::Limited("30"@, SpeedUnit::KilometersPerHour)));
    assert(named_speed("be:living_street"@) == Some(MaxSpeedView::Limited("20"@, SpeedUnit::KilometersPerHour)));
    assert(named_speed("be:motorway"@) == Some(MaxSpeedView::Limited("120"@, SpeedUnit::KilometersPerHour)));
    assert(named_speed("be:trunk"@) == Some(MaxSpeedView::Limited("120"@, SpeedUnit::KilometersPerHour)));
    assert(named_speed("be-vlg:rural"@) == Some(MaxSpeedView::Limited("70"@, SpeedUnit::KilometersPerHour)));
    assert(named_speed("be-vlg:urban"@) == Some(MaxSpeedView::Limited("50"@, SpeedUnit::KilometersPerHour)));
    assert(named_speed("be-wal:rural"@) == Some(MaxSpeedView::Limited("90"@, SpeedUnit::KilometersPerHour)));
    assert(named_speed("be-wal:urban"@) == Some(MaxSpeedView::Limited("50"@, SpeedUnit::KilometersPerHour)));
    assert(named_speed("be:zone30"@) == Some(MaxSpeedView::Limited("30"@, SpeedUnit::KilometersPerHour)));
    assert(named_speed("ch:motorway"@) == Some(MaxSpeedView::Limited("120"@, SpeedUnit::KilometersPerHour)));
    assert(named_speed("ch:rural"@) == Some(MaxSpeedView::Limited("80"@, SpeedUnit::KilometersPerHour)));
    assert(named_speed("ch:trunk"@) == Some(MaxSpeedView::Limited("100"@, SpeedUnit::KilometersPerHour)));
    assert(named_speed("ch:urban"@) == Some(MaxSpeedView::Limited("50"@, SpeedUnit::KilometersPerHour)));
    assert(named_speed("cz:living_street"@) == Some(MaxSpeedView::Limited("20"@, SpeedUnit::KilometersPerHour)));
    assert(named_speed("cz:motorway"@) == Some(MaxSpeedView::Limited("130"@, SpeedUnit::KilometersPerHour)));
    assert(named_speed("cz:pedestrian_zone"@) == Some(MaxSpeedView::Limited("20"@, SpeedUnit::KilometersPerHour)));
    assert(named_speed("cz:rural"@) == Some(MaxSpeedView::Limited("90"@, SpeedUnit::KilometersPerHour)));
    assert(named_speed("cz:trunk"@) == Some(MaxSpeedView::Limited("110"@, SpeedUnit::KilometersPerHour)));
    assert(named_speed("cz:urban_motorway"@) == Some(MaxSpeedView::Limited("80"@, SpeedUnit::KilometersPerHour)));
    assert(named_speed("cz:urban"@) == Some(MaxSpeedView::Limited("50"@, SpeedUnit::KilometersPerHour)));
    assert(named_speed("cz:urban_trunk"@) == Some(MaxSpeedView::Limited("80"@, SpeedUnit::KilometersPerHour)));
    assert(named_speed("de:bicycle_road"@) == Some(MaxSpeedView::Limited("30"@, SpeedUnit::KilometersPerHour)));
    assert(named_speed("de:living_street"@) == Some(MaxSpeedView::Limited("7"@, SpeedUnit::KilometersPerHour)));
    assert(named_speed("de:motorway"@) == Some(MaxSpeedView::Limited("130"@, SpeedUnit::KilometersPerHour)));
    assert(named_speed("de:rural"@) == Some(MaxSpeedView::Limited("100"@, SpeedUnit::KilometersPerHour)));
    assert(named_speed("de:urban"@) == Some(MaxSpeedView::Limited("50"@, SpeedUnit::KilometersPerHour)));
    assert(named_speed("dk:motorway"@) == Some(MaxSpeedView::Limited("130"@, SpeedUnit::KilometersPerHour)));
    assert(named_speed("dk:rural"@) == Some(MaxSpeedView::Limited("80"@, SpeedUnit::KilometersPerHour)));
    assert(named_speed("dk:urban"@) == Some(MaxSpeedView::Limited("50"@, SpeedUnit::KilometersPerHour)));
    assert(named_speed("fr:motorway"@) == Some(MaxSpeedView::Limited("130"@, SpeedUnit::KilometersPerHour)));
    assert(named_speed("fr:rural"@) == Some(MaxSpeedView::Limited("80"@, SpeedUnit::KilometersPerHour)));
    assert(named_speed("fr:urban"@) == Some(MaxSpeedView::Limited("50"@, SpeedUnit::KilometersPerHour)));
    assert(named_speed("fr:zone30"@) == Some(MaxSpeedView::Limited("30"@, SpeedUnit::KilometersPerHour)));
    assert(named_speed("it:motorway"@) == Some(MaxSpeedView::Limited("130"@, SpeedUnit::KilometersPerHour)));
    assert(named_speed("it:rural"@) == Some(MaxSpeedView::Limited("90"@, SpeedUnit::KilometersPerHour)));
    assert(named_speed("it:trunk"@) == Some(MaxSpeedView::Limited("110"@, SpeedUnit::KilometersPerHour)));
    assert(named_speed("it:urban"@) == Some(MaxSpeedView::Limited("50"@, SpeedUnit::KilometersPerHour)));
}

/// The limit of a named speed zone, for a lower-case trimmed value.
fn named_speed_exec(s: &str) -> (r: Option<MaxSpeed>)
    ensures
        match r {
            Some(m) => named_speed(s@) == Some(maxspeed_view(m)),
            None => named_speed(s@) is None,
        },
{
    if str_eq(s, "none") {
        Some(MaxSpeed::Unlimited)
    } else if str_eq(s, "") {
        Some(MaxSpeed::Unknown)
    } else if str_eq(s, "walk") {
        Some(MaxSpeed::Limited(String::from_str("5"), SpeedUnit::KilometersPerHour))
    } else if str_eq(s, "at:bicycle_road") || str_eq(s, "be-bru:urban") || str_eq(s, "be:cyclestreet") || str_eq(s, "be:zone30") || str_eq(s, "de:bicycle_road") || str_eq(s, "fr:zone30") {
        Some(MaxSpeed::Limited(String::from_str("30"), SpeedUnit::KilometersPerHour))
    } else if str_eq(s, "at:motorway") || str_eq(s, "cz:motorway") || str_eq(s, "de:motorway") || str_eq(s, "dk:motorway") || str_eq(s, "fr:motorway") || str_eq(s, "it:motorway") {
        Some(MaxSpeed::Limited(String::from_str("130"), SpeedUnit::KilometersPerHour))
    } else if str_eq(s, "at:rural") || str_eq(s, "at:trunk") || str_eq(s, "ch:trunk") || str_eq(s, "de:rural") {
        Some(MaxSpeed::Limited(String::from_str("100"), SpeedUnit::KilometersPerHour))
    } else if str_eq(s, "at:urban") || str_eq(s, "be-vlg:urban") || str_eq(s, "be-wal:urban") || str_eq(s, "ch:urban") || str_eq(s, "cz:urban") || str_eq(s, "de:urban") || str_eq(s, "dk:urban") || str_eq(s, "fr:urban") || str_eq(s, "it:urban") {
        Some(MaxSpeed::Limited(String::from_str("50"), SpeedUnit::KilometersPerHour))
    } else if str_eq(s, "be-bru:rural") || str_eq(s, "be-vlg:rural") {
        Some(MaxSpeed::Limited(String::from_str("70"), SpeedUnit::KilometersPerHour))
    } else if str_eq(s, "be:living_street") || str_eq(s, "cz:living_street") || str_eq(s, "cz:pedestrian_zone") {
        Some(MaxSpeed::Limited(String::from_str("20"), SpeedUnit::KilometersPerHour))
    } else if str_eq(s, "be:motorway") || str_eq(s, "be:trunk") || str_eq(s, "ch:motorway") {
        Some(MaxSpeed::Limited(String::from_str("120"), SpeedUnit::KilometersPerHour))
    } else if str_eq(s, "be-wal:rural") || str_eq(s, "cz:rural") || str_eq(s, "it:rural") {
        Some(MaxSpeed::Limited(String::from_str("90"), SpeedUnit::KilometersPerHour))
    } else if str_eq(s, "ch:rural") || str_eq(s, "cz:urban_motorway") || str_eq(s, "cz:urban_trunk") || str_eq(s, "dk:rural") || str_eq(s, "fr:rural") {
        Some(MaxSpeed::Limited(String::from_str("80"), SpeedUnit::KilometersPerHour))
    } else if str_eq(s, "cz:trunk") || str_eq(s, "it:trunk") {
        Some(MaxSpeed::Limited(String::from_str("110"), SpeedUnit::KilometersPerHour))
    } else if str_eq(s, "de:living_street") {
        Some(MaxSpeed::Limited(String::from_str("7"), SpeedUnit::KilometersPerHour))
    } else {
        None
    }}

/// A letter of the zone prefix of a speed (`DE:` and the like).
pub open spec fn is_prefix_letter(c: char) -> bool {
    ('a' <= c && c <= 'z') || ('A' <= c && c <= 'Z') || c == '-'
}

/// A character of a speed unit.
pub open spec fn is_unit_char(c: char) -> bool {
    ('a' <= c && c <= 'z') || ('A' <= c && c <= 'Z') || c == '/'
}

/// A decimal digit.
pub open spec fn is_decimal_digit(c: char) -> bool {
    '0' <= c && c <= '9'
}

/// The end of the run of prefix letters of `s` starting at `i`.
pub open spec fn letter_run_end(s: Seq<char>, i: int) -> int
    decreases s.len() - i,
{
    if 0 <= i < s.len() && is_prefix_letter(s[i]) {
        letter_run_end(s, i + 1)
    } else {
        i
    }
}

/// The end of the run of digits of `s` starting at `i`.
pub open spec fn digit_run_end(s: Seq<char>, i: int) -> int
    decreases s.len() - i,
{
    if 0 <= i < s.len() && is_decimal_digit(s[i]) {
        digit_run_end(s, i + 1)
    } else {
        i
    }
}

/// The end of the run of white space of `s` starting at `i`.
pub open spec fn space_run_end(s: Seq<char>, i: int) -> int
    decreases s.len() - i,
{
    if 0 <= i < s.len() && is_white_space(s[i]) {
        space_run_end(s, i + 1)
    } else {
        i
    }
}

/// The end of the run of unit characters of `s` starting at `i`.
pub open spec fn unit_run_end(s: Seq<char>, i: int) -> int
    decreases s.len() - i,
{
    if 0 <= i < s.len() && is_unit_char(s[i]) {
        unit_run_end(s, i + 1)
    } else {
        i
    }
}

/// Where the number of a speed starts: after an optional prefix of letters
/// and `:`, itself optionally followed by `zone` and an optional `:`. The
/// number starts with a nonzero digit.
pub open spec fn speed_value_start(s: Seq<char>) -> Option<int> {
    let r = letter_run_end(s, 0);
    if r > 0 && r < s.len() && s[r] == ':' {
        let q = r + 1;
        let v = if q + 4 <= s.len() && s.subrange(q, q + 4) == seq!['z', 'o', 'n', 'e'] {
            if q + 4 < s.len() && s[q + 4] == ':' {
                q + 5
            } else {
                q + 4
            }
        } else {
            q
        };
        if v < s.len() && '1' <= s[v] && s[v] <= '9' {
            Some(v)
        } else {
            None
        }
    } else if s.len() > 0 && '1' <= s[0] && s[0] <= '9' {
        Some(0)
    } else {
        None
    }
}

/// The unit a unit name stands for; unknown names are kilometers per hour.
pub open spec fn unit_of(u: Seq<char>) -> SpeedUnit {
    if u == "kmh"@ || u == "kph"@ || u == "km/h"@ || u == "kmph"@ {
        SpeedUnit::KilometersPerHour
    } else if u == "mph"@ || u == "m/h"@ {
        SpeedUnit::MilesPerHour
    } else if u == "knots"@ || u == "knot"@ || u == "kn"@ {
        SpeedUnit::Knots
    } else if u == "ms"@ || u == "m/s"@ {
        SpeedUnit::MetersPerSecond
    } else {
        SpeedUnit::KilometersPerHour
    }
}

/// The units a speed may be given in: `kmh`, `kph`, `km/h` and `kmph` are
/// kilometers per hour, `mph` and `m/h` miles per hour, `knots`, `knot` and
/// `kn` knots, `ms` and `m/s` meters per second; any other unit name is read
/// as kilometers per hour.
pub proof fn lemma_speed_units()
    ensures
        unit_of("kmh"@) == SpeedUnit::KilometersPerHour,
        unit_of("kph"@) == SpeedUnit::KilometersPerHour,
        unit_of("km/h"@) == SpeedUnit::KilometersPerHour,
        unit_of("kmph"@) == SpeedUnit::KilometersPerHour,
        unit_of("mph"@) == SpeedUnit::MilesPerHour,
        unit_of("m/h"@) == SpeedUnit::MilesPerHour,
        unit_of("knots"@) == SpeedUnit::Knots,
        unit_of("knot"@) == SpeedUnit::Knots,
        unit_of("kn"@) == SpeedUnit::Knots,
        unit_of("ms"@) == SpeedUnit::MetersPerSecond,
        unit_of("m/s"@) == SpeedUnit::MetersPerSecond,
        forall|u: Seq<char>| !(u == "kmh"@ || u == "kph"@ || u == "km/h"@ || u == "kmph"@ || u == "mph"@ || u == "m/h"@ || u == "knots"@ || u == "knot"@ || u == "kn"@ || u == "ms"@ || u == "m/s"@) ==> #[trigger] unit_of(u) == SpeedUnit::KilometersPerHour,
{
    reveal_strlit("kmh");
    reveal_strlit("kph");
    reveal_strlit("km/h");
    reveal_strlit("kmph");
    reveal_strlit("mph");
    reveal_strlit("m/h");
    reveal_strlit("knots");
    reveal_strlit("knot");
    reveal_strlit("kn");
    reveal_strlit("ms");
    reveal_strlit("m/s");
    assert("kmh"@.len() == 3);
    assert("kph"@.len() == 3);
    assert("km/h"@.len() == 4);
    assert("kmph"@.len() == 4);
    assert("mph"@.len() == 3);
    assert("m/h"@.len() == 3);
    assert("knots"@.len() == 5);
    assert("knot"@.len() == 4);
    assert("kn"@.len() == 2);
    assert("ms"@.len() == 2);
    assert("m/s"@.len() == 3);
    assert("kmh"@[1] != "kph"@[1]);
    assert("kmh"@[0] != "mph"@[0]);
    assert("kmh"@[0] != "m/h"@[0]);
    assert("kmh"@[0] != "m/s"@[0]);
    assert("kph"@[0] != "mph"@[0]);
    assert("kph"@[0] != "m/h"@[0]);
    assert("kph"@[0] != "m/s"@[0]);
    assert("km/h"@[2] != "kmph"@[2]);
    assert("km/h"@[1] != "knot"@[1]);
    assert("kmph"@[1] != "knot"@[1]);
    assert("mph"@[1] != "m/h"@[1]);
    assert("mph"@[1] != "m/s"@[1]);
    assert("m/h"@[2] != "m/s"@[2]);
    assert("kn"@[0] != "ms"@[0]);
}

/// The speed a value like `DE:zone:30`, `50 mph` or `120` gives: the number
/// and the unit written after it (white space between them allowed),
/// kilometers per hour when none is written; unknown when there is no number.
pub open spec fn speed_from_pattern(s: Seq<char>) -> MaxSpeedView {
    match speed_value_start(s) {
        Some(v) => {
            let d = digit_run_end(s, v);
            let w = space_run_end(s, d);
            let u = unit_run_end(s, w);
            MaxSpeedView::Limited(
                s.subrange(v, d),
                if u > w {
                    unit_of(s.subrange(w, u))
                } else {
                    SpeedUnit::KilometersPerHour
                },
            )
        },
        None => MaxSpeedView::Unknown,
    }
}

/// A unit name that stands for another unit than kilometers per hour.
pub open spec fn other_unit_name(u: Seq<char>) -> bool {
    u == "mph"@ || u == "m/h"@ || u == "knots"@ || u == "knot"@ || u == "kn"@ || u == "ms"@ || u == "m/s"@
}

/// The digits from `i` to the end of their run are decimal digits.
proof fn lemma_digit_run(s: Seq<char>, i: int)
    requires
        0 <= i <= s.len(),
    ensures
        i <= digit_run_end(s, i) <= s.len(),
        forall|k: int| i <= k < digit_run_end(s, i) ==> is_decimal_digit(#[trigger] s[k]),
    decreases s.len() - i,
{
    if i < s.len() && is_decimal_digit(s[i]) {
        lemma_digit_run(s, i + 1);
    }
}

/// How a `maxspeed` value is read: a named zone (lower-cased and trimmed)
/// gives its limit, and an empty value is unknown. Any other value is
/// unknown unless it is a number that starts with a nonzero digit, after an
/// optional prefix of letters and `:` (optionally followed by `zone` and an
/// optional `:`); such a number is the limit, in the unit named after it,
/// and in kilometers per hour where no unit or an unrecognised one follows.
pub proof fn lemma_maxspeed_pattern(s: Seq<char>)
    ensures
        named_speed(str_trim(str_lowercase(s))) matches Some(m) ==> parse_maxspeed(s) == m,
        str_trim(str_lowercase(s)) == ""@ ==> parse_maxspeed(s) == MaxSpeedView::Unknown,
        named_speed(str_trim(str_lowercase(s))) is None && speed_value_start(s) is None
            ==> parse_maxspeed(s) == MaxSpeedView::Unknown,
        named_speed(str_trim(str_lowercase(s))) is None && speed_value_start(s) is Some ==> ({
            let v = speed_value_start(s)->0;
            let d = digit_run_end(s, v);
            let w = space_run_end(s, d);
            let unit_name = s.subrange(w, unit_run_end(s, w));
            &&& parse_maxspeed(s) matches MaxSpeedView::Limited(digits, unit) && {
                &&& digits == s.subrange(v, d)
                &&& digits.len() > 0
                &&& '1' <= digits[0] <= '9'
                &&& forall|k: int| 0 <= k < digits.len() ==> is_decimal_digit(#[trigger] digits[k])
                &&& !other_unit_name(unit_name) ==> unit == SpeedUnit::KilometersPerHour
            }
        }),
{
    reveal_strlit("none");
    reveal_strlit("");
    let t = str_trim(str_lowercase(s));
    if t == ""@ {
        assert(t.len() == 0);
        assert("none"@.len() == 4);
        assert(named_speed(t) == Some(MaxSpeedView::Unknown));
    }
    if named_speed(str_trim(str_lowercase(s))) is None {
        if speed_value_start(s) is Some {
            let v = speed_value_start(s)->0;
            lemma_digit_run(s, v);
            let d = digit_run_end(s, v);
            assert(is_decimal_digit(s[v]));
            assert(d > v) by {
                assert(digit_run_end(s, v) == digit_run_end(s, v + 1));
                lemma_digit_run(s, v + 1);
            }
            let digits = s.subrange(v, d);
            assert forall|k: int| 0 <= k < digits.len() implies is_decimal_digit(#[trigger] digits[k]) by {
                assert(digits[k] == s[v + k]);
            }
        }
    }
}

/// The speed limit of a `maxspeed` value: a named zone (compared in lower
/// case and trimmed) or a number with its unit.
pub open spec fn parse_maxspeed(s: Seq<char>) -> MaxSpeedView {
    parse_maxspeed_lowered(s, str_lowercase(s))
}

/// The speed limit of a `maxspeed` value `s` whose lower-case form is
/// `lowered`: the named zone `lowered` (trimmed) stands for, or else the
/// number of `s` with its unit.
pub open spec fn parse_maxspeed_lowered(s: Seq<char>, lowered: Seq<char>) -> MaxSpeedView {
    match named_speed(str_trim(lowered)) {
        Some(m) => m,
        None => speed_from_pattern(s),
    }
}

/// The end of the run of prefix letters starting at `i`.
fn scan_letters(s: &Vec<char>, i: usize) -> (r: usize)
    requires
        i <= s@.len(),
    ensures
        r == letter_run_end(s@, i as int),
        i <= r <= s@.len(),
{
    let mut j = i;
    while j < s.len() && (('a' <= s[j] && s[j] <= 'z') || ('A' <= s[j] && s[j] <= 'Z') || s[j] == '-')
        invariant
            i <= j <= s@.len(),
            letter_run_end(s@, j as int) == letter_run_end(s@, i as int),
        decreases s@.len() - j,
    {
        j = j + 1;
    }
    j
}

/// The end of the run of digits starting at `i`.
fn scan_digits(s: &Vec<char>, i: usize) -> (r: usize)
    requires
        i <= s@.len(),
    ensures
        r == digit_run_end(s@, i as int),
        i <= r <= s@.len(),
{
    let mut j = i;
    while j < s.len() && ('0' <= s[j] && s[j] <= '9')
        invariant
            i <= j <= s@.len(),
            digit_run_end(s@, j as int) == digit_run_end(s@, i as int),
        decreases s@.len() - j,
    {
        j = j + 1;
    }
    j
}

/// Whether `c` is white space.
fn is_white_space_exec(c: char) -> (r: bool)
    ensures
        r == is_white_space(c),
{
    ('\u{9}' <= c && c <= '\u{d}') || c == ' ' || c == '\u{85}' || c == '\u{a0}' || c == '\u{1680}' || ('\u{2000}' <= c
        && c <= '\u{200a}') || c == '\u{2028}' || c == '\u{2029}' || c == '\u{202f}' || c == '\u{205f}' || c == '\u{3000}'
}

/// The end of the run of white space starting at `i`.
pub(crate) fn scan_spaces(s: &Vec<char>, i: usize) -> (r: usize)
    requires
        i <= s@.len(),
    ensures
        r == space_run_end(s@, i as int),
        i <= r <= s@.len(),
{
    let mut j = i;
    while j < s.len() && is_white_space_exec(s[j])
        invariant
            i <= j <= s@.len(),
            space_run_end(s@, j as int) == space_run_end(s@, i as int),
        decreases s@.len() - j,
    {
        j = j + 1;
    }
    j
}

/// The end of the run of unit characters starting at `i`.
fn scan_unit(s: &Vec<char>, i: usize) -> (r: usize)
    requires
        i <= s@.len(),
    ensures
        r == unit_run_end(s@, i as int),
        i <= r <= s@.len(),
{
    let mut j = i;
    while j < s.len() && (('a' <= s[j] && s[j] <= 'z') || ('A' <= s[j] && s[j] <= 'Z') || s[j] == '/')
        invariant
            i <= j <= s@.len(),
            unit_run_end(s@, j as int) == unit_run_end(s@, i as int),
        decreases s@.len() - j,
    {
        j = j + 1;
    }
    j
}

/// The unit a unit name stands for.
fn unit_of_exec(u: &str) -> (r: SpeedUnit)
    ensures
        r == unit_of(u@),
{
    if str_eq(u, "kmh") || str_eq(u, "kph") || str_eq(u, "km/h") || str_eq(u, "kmph") {
        SpeedUnit::KilometersPerHour
    } else if str_eq(u, "mph") || str_eq(u, "m/h") {
        SpeedUnit::MilesPerHour
    } else if str_eq(u, "knots") || str_eq(u, "knot") || str_eq(u, "kn") {
        SpeedUnit::Knots
    } else if str_eq(u, "ms") || str_eq(u, "m/s") {
        SpeedUnit::MetersPerSecond
    } else {
        SpeedUnit::KilometersPerHour
    }
}

/// Where the number of a speed starts (see [`speed_value_start`]).
fn find_value_start(s: &Vec<char>) -> (r: Option<usize>)
    ensures
        match r {
            Some(v) => speed_value_start(s@) == Some(v as int),
            None => speed_value_start(s@) is None,
        },
{
    let n = s.len();
    let r = scan_letters(s, 0);
    if r > 0 && r < n && s[r] == ':' {
        let q = r + 1;
        let has_zone = n - q >= 4 && s[q] == 'z' && s[q + 1] == 'o' && s[q + 2] == 'n' && s[q + 3] == 'e';
        proof {
            if q + 4 <= n {
                let sub = s@.subrange(q as int, q + 4);
                if has_zone {
                    assert(sub =~= seq!['z', 'o', 'n', 'e']);
                } else {
                    if sub == seq!['z', 'o', 'n', 'e'] {
                        assert(sub[0] == s@[q as int] && sub[1] == s@[q + 1] && sub[2] == s@[q + 2] && sub[3] == s@[q + 3]);
                    }
                }
            }
        }
        let v = if has_zone {
            if n - q > 4 && s[q + 4] == ':' {
                q + 5
            } else {
                q + 4
            }
        } else {
            q
        };
        if v < n && '1' <= s[v] && s[v] <= '9' {
            Some(v)
        } else {
            None
        }
    } else if n > 0 && '1' <= s[0] && s[0] <= '9' {
        Some(0)
    } else {
        None
    }
}

impl MaxSpeed {
    /// The speed limit of an OSM `maxspeed` value (see [`parse_maxspeed`]).
    pub fn from_str(s: &str) -> (r: MaxSpeed)
        ensures
            maxspeed_view(r) == parse_maxspeed(s@),
            is_ascii_text(s@) ==> maxspeed_view(r) == parse_maxspeed_lowered(s@, ascii_lowercase(s@)),
    {
        let lowered = to_lowercase(s);
        MaxSpeed::from_str_lowered(s, lowered.as_str())
    }

    /// The speed limit of an OSM `maxspeed` value `s`, given its lower-case
    /// form `lowered` (see [`parse_maxspeed_lowered`]).
    pub fn from_str_lowered(s: &str, lowered: &str) -> (r: MaxSpeed)
        ensures
            maxspeed_view(r) == parse_maxspeed_lowered(s@, lowered@),
    {
        let normalized = trim(lowered);
        match named_speed_exec(normalized) {
            Some(m) => m,
            None => {
                let chars = chars_of(s);
                match find_value_start(&chars) {
                    Some(v) => {
                        let d = scan_digits(&chars, v);
                        let w = scan_spaces(&chars, d);
                        let u = scan_unit(&chars, w);
                        let digits = s.substring_char(v, d);
                        let unit = if u > w {
                            unit_of_exec(s.substring_char(w, u))
                        } else {
                            SpeedUnit::KilometersPerHour
                        };
                        MaxSpeed::Limited(String::from_str(digits), unit)
                    },
                    None => MaxSpeed::Unknown,
                }
            },
        }
    }
}

/// A limit in kilometers per hour.
fn kmh(digits: &str) -> (r: MaxSpeed)
    ensures
        maxspeed_view(r) == MaxSpeedView::Limited(digits@, SpeedUnit::KilometersPerHour),
{
    MaxSpeed::Limited(String::from_str(digits), SpeedUnit::KilometersPerHour)
}

/// The speed limit usual for a class of roads (the `highway` value in
/// lower case); unknown for other classes. Paths for pedestrians are
/// limited to the walking speed, 5 km/h.
pub open spec fn class_speed(highway_class: Seq<char>) -> MaxSpeedView {
    let c = highway_class;
    if c == "motorway"@ || c == "motorway_link"@ || c == "primary"@ || c == "primary_link"@ {
        MaxSpeedView::Limited("120"@, SpeedUnit::KilometersPerHour)
    } else if c == "rural"@ || c == "tertiary"@ || c == "tertiary_link"@ {
        MaxSpeedView::Limited("80"@, SpeedUnit::KilometersPerHour)
    } else if c == "trunk"@ || c == "trunk_link"@ || c == "secondary"@ || c == "secondary_link"@ {
        MaxSpeedView::Limited("100"@, SpeedUnit::KilometersPerHour)
    } else if c == "urban"@ || c == "road"@ || c == "unclassified"@ {
        MaxSpeedView::Limited("50"@, SpeedUnit::KilometersPerHour)
    } else if c == "pedestrian"@ || c == "footway"@ || c == "path"@ {
        MaxSpeedView::Limited("5"@, SpeedUnit::KilometersPerHour)
    } else if c == "living_street"@ {
        MaxSpeedView::Limited("7"@, SpeedUnit::KilometersPerHour)
    } else if c == "bicycle_road"@ || c == "service"@ || c == "residential"@ || c == "track"@ {
        MaxSpeedView::Limited("30"@, SpeedUnit::KilometersPerHour)
    } else {
        MaxSpeedView::Unknown
    }
}

/// The speed limit a tag gives, unknown without the tag.
pub open spec fn tag_speed(tags: Seq<(Seq<char>, Seq<char>)>, key: Seq<char>) -> MaxSpeedView {
    match tag_value(tags, key) {
        Some(v) => parse_maxspeed(v),
        None => MaxSpeedView::Unknown,
    }
}

/// The speed limit of a way: its `maxspeed` tag, else its `zone:maxspeed`
/// tag, else the usual limit of its class of roads.
pub open spec fn way_speed(tags: Seq<(Seq<char>, Seq<char>)>, highway_class: Seq<char>) -> MaxSpeedView {
    if !(tag_speed(tags, "maxspeed"@) is Unknown) {
        tag_speed(tags, "maxspeed"@)
    } else if !(tag_speed(tags, "zone:maxspeed"@) is Unknown) {
        tag_speed(tags, "zone:maxspeed"@)
    } else {
        class_speed(highway_class)
    }
}

/// The usual limits of the classes of roads: a way without a `maxspeed` or
/// `zone:maxspeed` tag is limited to 120 km/h on motorways and primary
/// roads, 80 km/h on rural and tertiary roads, 100 km/h on trunk and
/// secondary roads, 50 km/h on urban, unclassified and plain roads, the
/// walking speed of 5 km/h on pedestrian ways, footways and paths, 7 km/h on
/// living streets, and 30 km/h on bicycle roads, service and residential
/// roads and tracks; only these classes have a usual limit.
#[verifier::rlimit(40)]
pub proof fn lemma_class_speeds(tags: Seq<(Seq<char>, Seq<char>)>)
    ensures
        (tag_value(tags, "maxspeed"@) is None && tag_value(tags, "zone:maxspeed"@) is None) ==> way_speed(tags, "motorway"@) == MaxSpeedView::Limited("120"@, SpeedUnit::KilometersPerHour),
        (tag_value(tags, "maxspeed"@) is None && tag_value(tags, "zone:maxspeed"@) is None) ==> way_speed(tags, "motorway_link"@) == MaxSpeedView::Limited("120"@, SpeedUnit::KilometersPerHour),
        (tag_value(tags, "maxspeed"@) is None && tag_value(tags, "zone:maxspeed"@) is None) ==> way_speed(tags, "primary"@) == MaxSpeedView::Limited("120"@, SpeedUnit::KilometersPerHour),
        (tag_value(tags, "maxspeed"@) is None && tag_value(tags, "zone:maxspeed"@) is None) ==> way_speed(tags, "primary_link"@) == MaxSpeedView::Limited("120"@, SpeedUnit::KilometersPerHour),
        (tag_value(tags, "maxspeed"@) is None && tag_value(tags, "zone:maxspeed"@) is None) ==> way_speed(tags, "rural"@) == MaxSpeedView::Limited("80"@, SpeedUnit::KilometersPerHour),
        (tag_value(tags, "maxspeed"@) is None && tag_value(tags, "zone:maxspeed"@) is None) ==> way_speed(tags, "tertiary"@) == MaxSpeedView::Limited("80"@, SpeedUnit::KilometersPerHour),
        (tag_value(tags, "maxspeed"@) is None && tag_value(tags, "zone:maxspeed"@) is None) ==> way_speed(tags, "tertiary_link"@) == MaxSpeedView::Limited("80"@, SpeedUnit::KilometersPerHour),
        (tag_value(tags, "maxspeed"@) is None && tag_value(tags, "zone:maxspeed"@) is None) ==> way_speed(tags, "trunk"@) == MaxSpeedView::Limited("100"@, SpeedUnit::KilometersPerHour),
        (tag_value(tags, "maxspeed"@) is None && tag_value(tags, "zone:maxspeed"@) is None) ==> way_speed(tags, "trunk_link"@) == MaxSpeedView::Limited("100"@, SpeedUnit::KilometersPerHour),
        (tag_value(tags, "maxspeed"@) is None && tag_value(tags, "zone:maxspeed"@) is None) ==> way_speed(tags, "secondary"@) == MaxSpeedView::Limited("100"@, SpeedUnit::KilometersPerHour),
        (tag_value(tags, "maxspeed"@) is None && tag_value(tags, "zone:maxspeed"@) is None) ==> way_speed(tags, "secondary_link"@) == MaxSpeedView::Limited("100"@, SpeedUnit::KilometersPerHour),
        (tag_value(tags, "maxspeed"@) is None && tag_value(tags, "zone:maxspeed"@) is None) ==> way_speed(tags, "urban"@) == MaxSpeedView::Limited("50"@, SpeedUnit::KilometersPerHour),
        (tag_value(tags, "maxspeed"@) is None && tag_value(tags, "zone:maxspeed"@) is None) ==> way_speed(tags, "road"@) == MaxSpeedView::Limited("50"@, SpeedUnit::KilometersPerHour),
        (tag_value(tags, "maxspeed"@) is None && tag_value(tags, "zone:maxspeed"@) is None) ==> way_speed(tags, "unclassified"@) == MaxSpeedView::Limited("50"@, SpeedUnit::KilometersPerHour),
        (tag_value(tags, "maxspeed"@) is None && tag_value(tags, "zone:maxspeed"@) is None) ==> way_speed(tags, "pedestrian"@) == MaxSpeedView::Limited("5"@, SpeedUnit::KilometersPerHour),
        (tag_value(tags, "maxspeed"@) is None && tag_value(tags, "zone:maxspeed"@) is None) ==> way_speed(tags, "footway"@) == MaxSpeedView::Limited("5"@, SpeedUnit::KilometersPerHour),
        (tag_value(tags, "maxspeed"@) is None && tag_value(tags, "zone:maxspeed"@) is None) ==> way_speed(tags, "path"@) == MaxSpeedView::Limited("5"@, SpeedUnit::KilometersPerHour),
        (tag_value(tags, "maxspeed"@) is None && tag_value(tags, "zone:maxspeed"@) is None) ==> way_speed(tags, "living_street"@) == MaxSpeedView::Limited("7"@, SpeedUnit::KilometersPerHour),
        (tag_value(tags, "maxspeed"@) is None && tag_value(tags, "zone:maxspeed"@) is None) ==> way_speed(tags, "bicycle_road"@) == MaxSpeedView::Limited("30"@, SpeedUnit::KilometersPerHour),
        (tag_value(tags, "maxspeed"@) is None && tag_value(tags, "zone:maxspeed"@) is None) ==> way_speed(tags, "service"@) == MaxSpeedView::Limited("30"@, SpeedUnit::KilometersPerHour),
        (tag_value(tags, "maxspeed"@) is None && tag_value(tags, "zone:maxspeed"@) is None) ==> way_speed(tags, "residential"@) == MaxSpeedView::Limited("30"@, SpeedUnit::KilometersPerHour),
        (tag_value(tags, "maxspeed"@) is None && tag_value(tags, "zone:maxspeed"@) is None) ==> way_speed(tags, "track"@) == MaxSpeedView::Limited("30"@, SpeedUnit::KilometersPerHour),
        forall|c: Seq<char>| !(#[trigger] class_speed(c) is Unknown) ==> (c == "motorway"@ || c == "motorway_link"@ || c == "primary"@ || c == "primary_link"@ || c == "rural"@ || c == "tertiary"@ || c == "tertiary_link"@ || c == "trunk"@ || c == "trunk_link"@ || c == "secondary"@ || c == "secondary_link"@ || c == "urban"@ || c == "road"@ || c == "unclassified"@ || c == "pedestrian"@ || c == "footway"@ || c == "path"@ || c == "living_street"@ || c == "bicycle_road"@ || c == "service"@ || c == "residential"@ || c == "track"@),
{
    reveal_strlit("maxspeed");
    reveal_strlit("zone:maxspeed");
    reveal_strlit("motorway");
    reveal_strlit("motorway_link");
    reveal_strlit("primary");
    reveal_strlit("primary_link");
    reveal_strlit("rural");
    reveal_strlit("tertiary");
    reveal_strlit("tertiary_link");
    reveal_strlit("trunk");
    reveal_strlit("trunk_link");
    reveal_strlit("secondary");
    reveal_strlit("secondary_link");
    reveal_strlit("urban");
    reveal_strlit("road");
    reveal_strlit("unclassified");
    reveal_strlit("pedestrian");
    reveal_strlit("footway");
    reveal_strlit("path");
    reveal_strlit("living_street");
    reveal_strlit("bicycle_road");
    reveal_strlit("service");
    reveal_strlit("residential");
    reveal_strlit("track");
    reveal_strlit("100");
    reveal_strlit("120");
    reveal_strlit("30");
    reveal_strlit("5");
    reveal_strlit("50");
    reveal_strlit("7");
    reveal_strlit("80");
    assert("tertiary"@[0] != "motorway"@[0]);
    assert("tertiary_link"@[0] != "motorway_link"@[0]);
    assert("trunk"@[0] != "rural"@[0]);
    assert("urban"@[0] != "rural"@[0]);
    assert("urban"@[0] != "trunk"@[0]);
    assert("unclassified"@[0] != "primary_link"@[0]);
    assert("pedestrian"@[0] != "trunk_link"@[0]);
    assert("footway"@[0] != "primary"@[0]);
    assert("path"@[0] != "road"@[0]);
    assert("living_street"@[0] != "motorway_link"@[0]);
    assert("living_street"@[0] != "tertiary_link"@[0]);
    assert("bicycle_road"@[0] != "primary_link"@[0]);
    assert("bicycle_road"@[0] != "unclassified"@[0]);
    assert("service"@[0] != "primary"@[0]);
    assert("service"@[0] != "footway"@[0]);
    assert("track"@[0] != "rural"@[0]);
    assert("track"@[2] != "trunk"@[2]);
    assert("track"@[0] != "urban"@[0]);
    assert("motorway"@.len() == 8);
    assert("motorway_link"@.len() == 13);
    assert("primary"@.len() == 7);
    assert("primary_link"@.len() == 12);
    assert("rural"@.len() == 5);
    assert("tertiary"@.len() == 8);
    assert("tertiary_link"@.len() == 13);
    assert("trunk"@.len() == 5);
    assert("trunk_link"@.len() == 10);
    assert("secondary"@.len() == 9);
    assert("secondary_link"@.len() == 14);
    assert("urban"@.len() == 5);
    assert("road"@.len() == 4);
    assert("unclassified"@.len() == 12);
    assert("pedestrian"@.len() == 10);
    assert("footway"@.len() == 7);
    assert("path"@.len() == 4);
    assert("living_street"@.len() == 13);
    assert("bicycle_road"@.len() == 12);
    assert("service"@.len() == 7);
    assert("residential"@.len() == 11);
    assert("track"@.len() == 5);
    assert(class_speed("motorway"@) == MaxSpeedView::Limited("120"@, SpeedUnit::KilometersPerHour));
    assert(class_speed("motorway_link"@) == MaxSpeedView::Limited("120"@, SpeedUnit::KilometersPerHour));
    assert(class_speed("primary"@) == MaxSpeedView::Limited("120"@, SpeedUnit::KilometersPerHour));
    assert(class_speed("primary_link"@) == MaxSpeedView::Limited("120"@, SpeedUnit::KilometersPerHour));
    assert(class_speed("rural"@) == MaxSpeedView::Limited("80"@, SpeedUnit::KilometersPerHour));
    assert(class_speed("tertiary"@) == MaxSpeedView::Limited("80"@, SpeedUnit::KilometersPerHour));
    assert(class_speed("tertiary_link"@) == MaxSpeedView::Limited("80"@, SpeedUnit::KilometersPerHour));
    assert(class_speed("trunk"@) == MaxSpeedView::Limited("100"@, SpeedUnit::KilometersPerHour));
    assert(class_speed("trunk_link"@) == MaxSpeedView::Limited("100"@, SpeedUnit::KilometersPerHour));
    assert(class_speed("secondary"@) == MaxSpeedView::Limited("100"@, SpeedUnit::KilometersPerHour));
    assert(class_speed("secondary_link"@) == MaxSpeedView::Limited("100"@, SpeedUnit::KilometersPerHour));
    assert(class_speed("urban"@) == MaxSpeedView::Limited("50"@, SpeedUnit::KilometersPerHour));
    assert(class_speed("road"@) == MaxSpeedView::Limited("50"@, SpeedUnit::KilometersPerHour));
    assert(class_speed("unclassified"@) == MaxSpeedView::Limited("50"@, SpeedUnit::KilometersPerHour));
    assert(class_speed("pedestrian"@) == MaxSpeedView::Limited("5"@, SpeedUnit::KilometersPerHour));
    assert(class_speed("footway"@) == MaxSpeedView::Limited("5"@, SpeedUnit::KilometersPerHour));
    assert(class_speed("path"@) == MaxSpeedView::Limited("5"@, SpeedUnit::KilometersPerHour));
    assert(class_speed("living_street"@) == MaxSpeedView::Limited("7"@, SpeedUnit::KilometersPerHour));
    assert(class_speed("bicycle_road"@) == MaxSpeedView::Limited("30"@, SpeedUnit::KilometersPerHour));
    assert(class_speed("service"@) == MaxSpeedView::Limited("30"@, SpeedUnit::KilometersPerHour));
    assert(class_speed("residential"@) == MaxSpeedView::Limited("30"@, SpeedUnit::KilometersPerHour));
    assert(class_speed("track"@) == MaxSpeedView::Limited("30"@, SpeedUnit::KilometersPerHour));
    if tag_value(tags, "maxspeed"@) is None && tag_value(tags, "zone:maxspeed"@) is None {
        assert(forall|c: Seq<char>| #[trigger] way_speed(tags, c) == class_speed(c));
    }
}

/// The speed limit of the tag `key`, unknown without it.
fn tag_speed_exec(tags: &Vec<(String, String)>, key: &str) -> (r: MaxSpeed)
    ensures
        maxspeed_view(r) == tag_speed(tags_view(tags@), key@),
{
    match get_tag(tags, key) {
        Some(value) => MaxSpeed::from_str(value.as_str()),
        None => MaxSpeed::Unknown,
    }
}

/// The speed limit of a way (see [`way_speed`]); `highway_class` is the
/// `highway` value in lower case.
pub fn infer_maxspeed(tags: &Vec<(String, String)>, highway_class: &str) -> (r: MaxSpeed)
    ensures
        maxspeed_view(r) == way_speed(tags_view(tags@), highway_class@),
{
    proof {
        reveal_strlit("maxspeed");
        reveal_strlit("zone:maxspeed");
    }
    let by_tag = tag_speed_exec(tags, "maxspeed");
    if !matches!(by_tag, MaxSpeed::Unknown) {
        return by_tag;
    }
    let by_zone = tag_speed_exec(tags, "zone:maxspeed");
    if !matches!(by_zone, MaxSpeed::Unknown) {
        return by_zone;
    }
    let c = highway_class;
    if str_eq(c, "motorway") || str_eq(c, "motorway_link") || str_eq(c, "primary") || str_eq(c, "primary_link") {
        kmh("120")
    } else if str_eq(c, "rural") || str_eq(c, "tertiary") || str_eq(c, "tertiary_link") {
        kmh("80")
    } else if str_eq(c, "trunk") || str_eq(c, "trunk_link") || str_eq(c, "secondary") || str_eq(c, "secondary_link") {
        kmh("100")
    } else if str_eq(c, "urban") || str_eq(c, "road") || str_eq(c, "unclassified") {
        kmh("50")
    } else if str_eq(c, "pedestrian") || str_eq(c, "footway") || str_eq(c, "path") {
        kmh("5")
    } else if str_eq(c, "living_street") {
        kmh("7")
    } else if str_eq(c, "bicycle_road") || str_eq(c, "service") || str_eq(c, "residential") || str_eq(c, "track") {
        kmh("30")
    } else {
        MaxSpeed::Unknown
    }
}

} // verus!
