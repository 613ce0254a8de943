//! Which OpenStreetMap ways are used for routing cars and pedestrians, and
//! how they are rated.
//!
//! The ratings are kept as small integers; the travel time of an edge is
//! computed from them and the edge's length by the caller.
use vstd::prelude::*;
use crate::error::Error;
use crate::routing::text::{str_lowercase, to_lowercase, str_eq};
use crate::routing::tags::{tags_view, tag_value, get_tag, infer_sidewalk, sidewalk_of};
use crate::routing::maxspeed::{MaxSpeed, MaxSpeedView, SpeedUnit, maxspeed_view, way_speed, infer_maxspeed};

verus! {

/// The rating of a way for cars: the speed limit, the share of it that is
/// expected to be driven (in percent), the preference of the class of road
/// (lower is preferred) and whether it can be driven in both directions.
#[derive(Clone, PartialEq, Eq, Debug)]
pub struct CarWayProperties {
    pub max_speed: MaxSpeed,
    pub speed_reduction_percent: u8,
    pub edge_preference: u8,
    pub is_bidirectional: bool,
}

/// Rates ways for cars.
pub struct CarAnalyzer {}

/// The preference and expected share of the speed limit of a class of
/// roads for cars; `None` for classes cars do not use.
pub open spec fn car_class(c: Seq<char>) -> Option<(u8, u8)> {
    if c == "motorway"@ || c == "motorway_link"@ || c == "trunk"@ || c == "trunk_link"@ || c == "primary"@ || c
        == "primary_link"@ {
        Some((3, 100))
    } else if c == "secondary"@ || c == "secondary_link"@ {
        Some((4, 90))
    } else if c == "tertiary"@ || c == "tertiary_link"@ {
        Some((5, 80))
    } else if c == "unclassified"@ || c == "residential"@ || c == "living_street"@ || c == "service"@ || c
        == "rural"@ {
        Some((8, 95))
    } else if c == "road"@ {
        Some((9, 90))
    } else if c == "pedestrian"@ || c == "footway"@ {
        Some((50, 100))
    } else {
        None
    }
}

/// The road classes cars use, with their preference (lower is preferred)
/// and the share of the speed limit cars are expected to reach, in percent:
/// motorways, trunk and primary roads (3, 100), secondary roads (4, 90),
/// tertiary roads (5, 80), unclassified, residential, living-street, service
/// and rural roads (8, 95), plain roads (9, 90), and pedestrian ways and
/// footways (50, 100). Ways of any other class are not used by cars.
#[verifier::rlimit(40)]
pub proof fn lemma_car_classes()
    ensures
        car_class("motorway"@) == Some((3u8, 100u8)),
        car_class("motorway_link"@) == Some((3u8, 100u8)),
        car_class("trunk"@) == Some((3u8, 100u8)),
        car_class("trunk_link"@) == Some((3u8, 100u8)),
        car_class("primary"@) == Some((3u8, 100u8)),
        car_class("primary_link"@) == Some((3u8, 100u8)),
        car_class("secondary"@) == Some((4u8, 90u8)),
        car_class("secondary_link"@) == Some((4u8, 90u8)),
        car_class("tertiary"@) == Some((5u8, 80u8)),
        car_class("tertiary_link"@) == Some((5u8, 80u8)),
        car_class("unclassified"@) == Some((8u8, 95u8)),
        car_class("residential"@) == Some((8u8, 95u8)),
        car_class("living_street"@) == Some((8u8, 95u8)),
        car_class("service"@) == Some((8u8, 95u8)),
        car_class("rural"@) == Some((8u8, 95u8)),
        car_class("road"@) == Some((9u8, 90u8)),
        car_class("pedestrian"@) == Some((50u8, 100u8)),
        car_class("footway"@) == Some((50u8, 100u8)),
        forall|c: Seq<char>| #[trigger] car_class(c) is Some ==> (c == "motorway"@ || c == "motorway_link"@ || c == "trunk"@ || c == "trunk_link"@ || c == "primary"@ || c == "primary_link"@ || c == "secondary"@ || c == "secondary_link"@ || c == "tertiary"@ || c == "tertiary_link"@ || c == "unclassified"@ || c == "residential"@ || c == "living_street"@ || c == "service"@ || c == "rural"@ || c == "road"@ || c == "pedestrian"@ || c == "footway"@),
{
    reveal_strlit("motorway");
    reveal_strlit("motorway_link");
    reveal_strlit("trunk");
    reveal_strlit("trunk_link");
    reveal_strlit("primary");
    reveal_strlit("primary_link");
    reveal_strlit("secondary");
    reveal_strlit("secondary_link");
    reveal_strlit("tertiary");
    reveal_strlit("tertiary_link");
    reveal_strlit("unclassified");
    reveal_strlit("residential");
    reveal_strlit("living_street");
    reveal_strlit("service");
    reveal_strlit("rural");
    reveal_strlit("road");
    reveal_strlit("pedestrian");
    reveal_strlit("footway");
    assert("motorway"@.len() == 8);
    assert("motorway_link"@.len() == 13);
    assert("trunk"@.len() == 5);
    assert("trunk_link"@.len() == 10);
    assert("primary"@.len() == 7);
    assert("primary_link"@.len() == 12);
    assert("secondary"@.len() == 9);
    assert("secondary_link"@.len() == 14);
    assert("tertiary"@.len() == 8);
    assert("tertiary_link"@.len() == 13);
    assert("unclassified"@.len() == 12);
    assert("residential"@.len() == 11);
    assert("living_street"@.len() == 13);
    assert("service"@.len() == 7);
    assert("rural"@.len() == 5);
    assert("road"@.len() == 4);
    assert("pedestrian"@.len() == 10);
    assert("footway"@.len() == 7);
    assert("tertiary"@[0] != "motorway"@[0]);
    assert("tertiary_link"@[0] != "motorway_link"@[0]);
    assert("unclassified"@[0] != "primary_link"@[0]);
    assert("living_street"@[0] != "motorway_link"@[0]);
    assert("living_street"@[0] != "tertiary_link"@[0]);
    assert("service"@[0] != "primary"@[0]);
    assert("rural"@[0] != "trunk"@[0]);
    assert("pedestrian"@[0] != "trunk_link"@[0]);
    assert("footway"@[0] != "primary"@[0]);
    assert("footway"@[0] != "service"@[0]);
    assert(car_class("motorway"@) == Some((3u8, 100u8)));
    assert(car_class("motorway_link"@) == Some((3u8, 100u8)));
    assert(car_class("trunk"@) == Some((3u8, 100u8)));
    assert(car_class("trunk_link"@) == Some((3u8, 100u8)));
    assert(car_class("primary"@) == Some((3u8, 100u8)));
    assert(car_class("primary_link"@) == Some((3u8, 100u8)));
    assert(car_class("secondary"@) == Some((4u8, 90u8)));
    assert(car_class("secondary_link"@) == Some((4u8, 90u8)));
    assert(car_class("tertiary"@) == Some((5u8, 80u8)));
    assert(car_class("tertiary_link"@) == Some((5u8, 80u8)));
    assert(car_class("unclassified"@) == Some((8u8, 95u8)));
    assert(car_class("residential"@) == Some((8u8, 95u8)));
    assert(car_class("living_street"@) == Some((8u8, 95u8)));
    assert(car_class("service"@) == Some((8u8, 95u8)));
    assert(car_class("rural"@) == Some((8u8, 95u8)));
    assert(car_class("road"@) == Some((9u8, 90u8)));
    assert(car_class("pedestrian"@) == Some((50u8, 100u8)));
    assert(car_class("footway"@) == Some((50u8, 100u8)));
}

/// The speed limit used for cars: unlimited roads count as 130 km/h, roads
/// of unknown limit as 40 km/h.
pub open spec fn car_speed(m: MaxSpeedView) -> MaxSpeedView {
    match m {
        MaxSpeedView::Limited(d, u) => MaxSpeedView::Limited(d, u),
        MaxSpeedView::Unlimited => MaxSpeedView::Limited("130"@, SpeedUnit::KilometersPerHour),
        MaxSpeedView::Unknown => MaxSpeedView::Limited("40"@, SpeedUnit::KilometersPerHour),
    }
}

/// Whether a way may be driven in both directions: unless its `oneway`
/// tag is `yes` (in any case).
pub open spec fn is_bidirectional_way(tags: Seq<(Seq<char>, Seq<char>)>) -> bool {
    match tag_value(tags, "oneway"@) {
        Some(v) => str_lowercase(v) != "yes"@,
        None => true,
    }
}

/// The speed limit cars are assumed to drive at: the limit of the way where
/// it has one, 130 km/h where it has none, and 40 km/h where it is unknown.
pub proof fn lemma_car_speed(digits: Seq<char>, unit: SpeedUnit)
    ensures
        car_speed(MaxSpeedView::Limited(digits, unit)) == MaxSpeedView::Limited(digits, unit),
        car_speed(MaxSpeedView::Unlimited) == MaxSpeedView::Limited("130"@, SpeedUnit::KilometersPerHour),
        car_speed(MaxSpeedView::Unknown) == MaxSpeedView::Limited("40"@, SpeedUnit::KilometersPerHour),
{
    reveal_strlit("130");
    reveal_strlit("40");
}

/// A way may be driven in both directions unless its `oneway` tag is `yes`
/// (in any case): without the tag it may, with `yes` it may not, and with
/// any other value it may.
pub proof fn lemma_oneway(tags: Seq<(Seq<char>, Seq<char>)>)
    ensures
        tag_value(tags, "oneway"@) is None ==> is_bidirectional_way(tags),
        tag_value(tags, "oneway"@) matches Some(v) ==> (is_bidirectional_way(tags) <==> str_lowercase(v) != "yes"@),
{
}

impl CarAnalyzer {
    /// The rating of a way for cars, from its `highway`, `oneway`,
    /// `maxspeed` and `zone:maxspeed` tags; `None` for ways cars do not use.
    pub fn analyze_way_tags(&self, tags: &Vec<(String, String)>) -> (r: Result<Option<CarWayProperties>, Error>)
        ensures
            match tag_value(tags_view(tags@), "highway"@) {
                Some(h) => match car_class(str_lowercase(h)) {
                    Some((preference, percent)) => r matches Ok(Some(p)) && p.edge_preference == preference
                        && p.speed_reduction_percent == percent && p.is_bidirectional == is_bidirectional_way(tags_view(tags@))
                        && maxspeed_view(p.max_speed) == car_speed(way_speed(tags_view(tags@), str_lowercase(h))),
                    None => r == Ok::<Option<CarWayProperties>, Error>(None),
                },
                None => r == Ok::<Option<CarWayProperties>, Error>(None),
            },
    {
        proof {
            reveal_strlit("highway");
            reveal_strlit("oneway");
        }
        let highway_value = match get_tag(tags, "highway") {
            Some(v) => v,
            None => return Ok(None),
        };
        let highway_class = to_lowercase(highway_value.as_str());
        let c = highway_class.as_str();
        let (edge_preference, speed_reduction_percent): (u8, u8) = if str_eq(c, "motorway") || str_eq(c, "motorway_link")
            || str_eq(c, "trunk") || str_eq(c, "trunk_link") || str_eq(c, "primary") || str_eq(c, "primary_link") {
            (3, 100)
        } else if str_eq(c, "secondary") || str_eq(c, "secondary_link") {
            (4, 90)
        } else if str_eq(c, "tertiary") || str_eq(c, "tertiary_link") {
            (5, 80)
        } else if str_eq(c, "unclassified") || str_eq(c, "residential") || str_eq(c, "living_street") || str_eq(
            c,
            "service",
        ) || str_eq(c, "rural") {
            (8, 95)
        } else if str_eq(c, "road") {
            (9, 90)
        } else if str_eq(c, "pedestrian") || str_eq(c, "footway") {
            (50, 100)
        } else {
            return Ok(None);
        };
        let is_bidirectional = match get_tag(tags, "oneway") {
            Some(v) => {
                let lowered = to_lowercase(v.as_str());
                !str_eq(lowered.as_str(), "yes")
            },
            None => true,
        };
        let max_speed = match infer_maxspeed(tags, c) {
            MaxSpeed::Limited(d, u) => MaxSpeed::Limited(d, u),
            MaxSpeed::Unlimited => MaxSpeed::Limited(<String as vstd::string::StringExecFns>::from_str("130"), SpeedUnit::KilometersPerHour),
            MaxSpeed::Unknown => MaxSpeed::Limited(<String as vstd::string::StringExecFns>::from_str("40"), SpeedUnit::KilometersPerHour),
        };
        Ok(Some(CarWayProperties { max_speed, speed_reduction_percent, edge_preference, is_bidirectional }))
    }
}

/// The rating of a way for pedestrians: the preference of the way (lower is
/// preferred).
#[derive(Clone, Copy, PartialEq, Eq, Structural, Debug)]
pub struct FootwayProperties {
    pub edge_preference: u8,
}

/// Rates ways for pedestrians.
pub struct FootwayAnalyzer {}

/// The preference of a way for pedestrians by its class of road and whether
/// it has a sidewalk; `None` for ways pedestrians do not use.
pub open spec fn footway_class(c: Seq<char>, has_sidewalk: bool) -> Option<u8> {
    if c == "motorway"@ || c == "motorway_link"@ || c == "trunk"@ || c == "trunk_link"@ || c == "primary"@ || c
        == "primary_link"@ {
        if has_sidewalk {
            Some(10)
        } else {
            None
        }
    } else if c == "secondary"@ || c == "secondary_link"@ || c == "tertiary"@ || c == "tertiary_link"@ {
        if has_sidewalk {
            Some(6)
        } else {
            None
        }
    } else if c == "road"@ {
        if has_sidewalk {
            Some(4)
        } else {
            None
        }
    } else if c == "unclassified"@ || c == "residential"@ || c == "living_street"@ || c == "service"@ || c
        == "rural"@ {
        if has_sidewalk {
            Some(1)
        } else {
            Some(2)
        }
    } else if c == "pedestrian"@ || c == "footway"@ || c == "track"@ || c == "path"@ || c == "steps"@ {
        Some(1)
    } else {
        None
    }
}

/// The road classes pedestrians use, with their preference (lower is
/// preferred): motorways, trunk and primary roads (10), secondary and
/// tertiary roads (6) and plain roads (4) only where they have a sidewalk;
/// unclassified, residential, living-street, service and rural roads (1
/// with a sidewalk, 2 without); and pedestrian ways, footways, tracks, paths
/// and steps (1). Ways of any other class are not used by pedestrians.
#[verifier::rlimit(40)]
pub proof fn lemma_footway_classes()
    ensures
        footway_class("motorway"@, true) == Some(10u8),
        footway_class("motorway"@, false) is None,
        footway_class("motorway_link"@, true) == Some(10u8),
        footway_class("motorway_link"@, false) is None,
        footway_class("trunk"@, true) == Some(10u8),
        footway_class("trunk"@, false) is None,
        footway_class("trunk_link"@, true) == Some(10u8),
        footway_class("trunk_link"@, false) is None,
        footway_class("primary"@, true) == Some(10u8),
        footway_class("primary"@, false) is None,
        footway_class("primary_link"@, true) == Some(10u8),
        footway_class("primary_link"@, false) is None,
        footway_class("secondary"@, true) == Some(6u8),
        footway_class("secondary"@, false) is None,
        footway_class("secondary_link"@, true) == Some(6u8),
        footway_class("secondary_link"@, false) is None,
        footway_class("tertiary"@, true) == Some(6u8),
        footway_class("tertiary"@, false) is None,
        footway_class("tertiary_link"@, true) == Some(6u8),
        footway_class("tertiary_link"@, false) is None,
        footway_class("road"@, true) == Some(4u8),
        footway_class("road"@, false) is None,
        footway_class("unclassified"@, true) == Some(1u8),
        footway_class("unclassified"@, false) == Some(2u8),
        footway_class("residential"@, true) == Some(1u8),
        footway_class("residential"@, false) == Some(2u8),
        footway_class("living_street"@, true) == Some(1u8),
        footway_class("living_street"@, false) == Some(2u8),
        footway_class("service"@, true) == Some(1u8),
        footway_class("service"@, false) == Some(2u8),
        footway_class("rural"@, true) == Some(1u8),
        footway_class("rural"@, false) == Some(2u8),
        footway_class("pedestrian"@, true) == Some(1u8),
        footway_class("pedestrian"@, false) == Some(1u8),
        footway_class("footway"@, true) == Some(1u8),
        footway_class("footway"@, false) == Some(1u8),
        footway_class("track"@, true) == Some(1u8),
        footway_class("track"@, false) == Some(1u8),
        footway_class("path"@, true) == Some(1u8),
        footway_class("path"@, false) == Some(1u8),
        footway_class("steps"@, true) == Some(1u8),
        footway_class("steps"@, false) == Some(1u8),
        forall|c: Seq<char>, s: bool| #[trigger] footway_class(c, s) is Some ==> (c == "motorway"@ || c == "motorway_link"@ || c == "trunk"@ || c == "trunk_link"@ || c == "primary"@ || c == "primary_link"@ || c == "secondary"@ || c == "secondary_link"@ || c == "tertiary"@ || c == "tertiary_link"@ || c == "road"@ || c == "unclassified"@ || c == "residential"@ || c == "living_street"@ || c == "service"@ || c == "rural"@ || c == "pedestrian"@ || c == "footway"@ || c == "track"@ || c == "path"@ || c == "steps"@),
{
    reveal_strlit("motorway");
    reveal_strlit("motorway_link");
    reveal_strlit("trunk");
    reveal_strlit("trunk_link");
    reveal_strlit("primary");
    reveal_strlit("primary_link");
    reveal_strlit("secondary");
    reveal_strlit("secondary_link");
    reveal_strlit("tertiary");
    reveal_strlit("tertiary_link");
    reveal_strlit("road");
    reveal_strlit("unclassified");
    reveal_strlit("residential");
    reveal_strlit("living_street");
    reveal_strlit("service");
    reveal_strlit("rural");
    reveal_strlit("pedestrian");
    reveal_strlit("footway");
    reveal_strlit("track");
    reveal_strlit("path");
    reveal_strlit("steps");
    assert("motorway"@.len() == 8);
    assert("motorway_link"@.len() == 13);
    assert("trunk"@.len() == 5);
    assert("trunk_link"@.len() == 10);
    assert("primary"@.len() == 7);
    assert("primary_link"@.len() == 12);
    assert("secondary"@.len() == 9);
    assert("secondary_link"@.len() == 14);
    assert("tertiary"@.len() == 8);
    assert("tertiary_link"@.len() == 13);
    assert("road"@.len() == 4);
    assert("unclassified"@.len() == 12);
    assert("residential"@.len() == 11);
    assert("living_street"@.len() == 13);
    assert("service"@.len() == 7);
    assert("rural"@.len() == 5);
    assert("pedestrian"@.len() == 10);
    assert("footway"@.len() == 7);
    assert("track"@.len() == 5);
    assert("path"@.len() == 4);
    assert("steps"@.len() == 5);
    assert("tertiary"@[0] != "motorway"@[0]);
    assert("tertiary_link"@[0] != "motorway_link"@[0]);
    assert("unclassified"@[0] != "primary_link"@[0]);
    assert("living_street"@[0] != "motorway_link"@[0]);
    assert("living_street"@[0] != "tertiary_link"@[0]);
    assert("service"@[0] != "primary"@[0]);
    assert("rural"@[0] != "trunk"@[0]);
    assert("pedestrian"@[0] != "trunk_link"@[0]);
    assert("footway"@[0] != "primary"@[0]);
    assert("footway"@[0] != "service"@[0]);
    assert("track"@[2] != "trunk"@[2]);
    assert("track"@[0] != "rural"@[0]);
    assert("path"@[0] != "road"@[0]);
    assert("steps"@[0] != "trunk"@[0]);
    assert("steps"@[0] != "rural"@[0]);
    assert("steps"@[0] != "track"@[0]);
    assert(footway_class("motorway"@, true) == Some(10u8));
    assert(footway_class("motorway"@, false) is None);
    assert(footway_class("motorway_link"@, true) == Some(10u8));
    assert(footway_class("motorway_link"@, false) is None);
    assert(footway_class("trunk"@, true) == Some(10u8));
    assert(footway_class("trunk"@, false) is None);
    assert(footway_class("trunk_link"@, true) == Some(10u8));
    assert(footway_class("trunk_link"@, false) is None);
    assert(footway_class("primary"@, true) == Some(10u8));
    assert(footway_class("primary"@, false) is None);
    assert(footway_class("primary_link"@, true) == Some(10u8));
    assert(footway_class("primary_link"@, false) is None);
    assert(footway_class("secondary"@, true) == Some(6u8));
    assert(footway_class("secondary"@, false) is None);
    assert(footway_class("secondary_link"@, true) == Some(6u8));
    assert(footway_class("secondary_link"@, false) is None);
    assert(footway_class("tertiary"@, true) == Some(6u8));
    assert(footway_class("tertiary"@, false) is None);
    assert(footway_class("tertiary_link"@, true) == Some(6u8));
    assert(footway_class("tertiary_link"@, false) is None);
    assert(footway_class("road"@, true) == Some(4u8));
    assert(footway_class("road"@, false) is None);
    assert(footway_class("unclassified"@, true) == Some(1u8));
    assert(footway_class("unclassified"@, false) == Some(2u8));
    assert(footway_class("residential"@, true) == Some(1u8));
    assert(footway_class("residential"@, false) == Some(2u8));
    assert(footway_class("living_street"@, true) == Some(1u8));
    assert(footway_class("living_street"@, false) == Some(2u8));
    assert(footway_class("service"@, true) == Some(1u8));
    assert(footway_class("service"@, false) == Some(2u8));
    assert(footway_class("rural"@, true) == Some(1u8));
    assert(footway_class("rural"@, false) == Some(2u8));
    assert(footway_class("pedestrian"@, true) == Some(1u8));
    assert(footway_class("pedestrian"@, false) == Some(1u8));
    assert(footway_class("footway"@, true) == Some(1u8));
    assert(footway_class("footway"@, false) == Some(1u8));
    assert(footway_class("track"@, true) == Some(1u8));
    assert(footway_class("track"@, false) == Some(1u8));
    assert(footway_class("path"@, true) == Some(1u8));
    assert(footway_class("path"@, false) == Some(1u8));
    assert(footway_class("steps"@, true) == Some(1u8));
    assert(footway_class("steps"@, false) == Some(1u8));
}

/// The preference of a way for pedestrians: by its `highway` tag, unless its
/// `footway` tag makes it a sidewalk or a crossing.
pub open spec fn footway_preference(tags: Seq<(Seq<char>, Seq<char>)>) -> Option<u8> {
    let sw = sidewalk_of(tags);
    let by_highway = match tag_value(tags, "highway"@) {
        Some(h) => footway_class(str_lowercase(h), sw.on_left_side || sw.on_right_side),
        None => None,
    };
    match tag_value(tags, "footway"@) {
        Some(f) => if str_lowercase(f) == "sidewalk"@ || str_lowercase(f) == "crossing"@ {
            Some(1)
        } else {
            by_highway
        },
        None => by_highway,
    }
}

/// A way whose `footway` tag is `sidewalk` or `crossing` (in any case) is
/// used by pedestrians with the best preference, 1, whatever its `highway`
/// tag; a way with neither such a `footway` tag nor a `highway` tag is not
/// used by pedestrians.
pub proof fn lemma_footway_tag(tags: Seq<(Seq<char>, Seq<char>)>)
    ensures
        tag_value(tags, "footway"@) matches Some(f) && (str_lowercase(f) == "sidewalk"@ || str_lowercase(f) == "crossing"@)
            ==> footway_preference(tags) == Some(1u8),
        tag_value(tags, "highway"@) is None && !(tag_value(tags, "footway"@) matches Some(f) && (str_lowercase(f) == "sidewalk"@
            || str_lowercase(f) == "crossing"@)) ==> footway_preference(tags) is None,
{
}

impl FootwayAnalyzer {
    /// The rating of a way for pedestrians (see [`footway_preference`]);
    /// `None` for ways pedestrians do not use.
    pub fn analyze_way_tags(&self, tags: &Vec<(String, String)>) -> (r: Result<Option<FootwayProperties>, Error>)
        ensures
            match footway_preference(tags_view(tags@)) {
                Some(p) => r == Ok::<Option<FootwayProperties>, Error>(Some(FootwayProperties { edge_preference: p })),
                None => r == Ok::<Option<FootwayProperties>, Error>(None),
            },
    {
        proof {
            reveal_strlit("highway");
            reveal_strlit("footway");
        }
        let mut edge_preference: Option<u8> = None;
        match get_tag(tags, "highway") {
            Some(highway_value) => {
                let lowered = to_lowercase(highway_value.as_str());
                let c = lowered.as_str();
                let has_sidewalk = infer_sidewalk(tags).is_some();
                edge_preference = if str_eq(c, "motorway") || str_eq(c, "motorway_link") || str_eq(c, "trunk") || str_eq(
                    c,
                    "trunk_link",
                ) || str_eq(c, "primary") || str_eq(c, "primary_link") {
                    if has_sidewalk {
                        Some(10)
                    } else {
                        None
                    }
                } else if str_eq(c, "secondary") || str_eq(c, "secondary_link") || str_eq(c, "tertiary") || str_eq(
                    c,
                    "tertiary_link",
                ) {
                    if has_sidewalk {
                        Some(6)
                    } else {
                        None
                    }
                } else if str_eq(c, "road") {
                    if has_sidewalk {
                        Some(4)
                    } else {
                        None
                    }
                } else if str_eq(c, "unclassified") || str_eq(c, "residential") || str_eq(c, "living_street") || str_eq(
                    c,
                    "service",
                ) || str_eq(c, "rural") {
                    if has_sidewalk {
                        Some(1)
                    } else {
                        Some(2)
                    }
                } else if str_eq(c, "pedestrian") || str_eq(c, "footway") || str_eq(c, "track") || str_eq(c, "path")
                    || str_eq(c, "steps") {
                    Some(1)
                } else {
                    None
                };
            },
            None => {},
        }
        match get_tag(tags, "footway") {
            Some(footway_value) => {
                let lowered = to_lowercase(footway_value.as_str());
                if str_eq(lowered.as_str(), "sidewalk") || str_eq(lowered.as_str(), "crossing") {
                    edge_preference = Some(1);
                }
            },
            None => {},
        }
        match edge_preference {
            Some(p) => Ok(Some(FootwayProperties { edge_preference: p })),
            None => Ok(None),
        }
    }
}

} // verus!
