//! OpenStreetMap tags: lookups, boolean values and sidewalks.
//!
//! Tags are given as `(key, value)` pairs in the order the OSM reader lists
//! them.
use vstd::prelude::*;
use crate::routing::text::{str_lowercase, str_trim, to_lowercase, trim, str_eq, is_ascii_text, ascii_lowercase};

verus! {

/// The characters of the keys and values of tags.
pub open spec fn tags_view(tags: Seq<(String, String)>) -> Seq<(Seq<char>, Seq<char>)> {
    tags.map_values(|t: (String, String)| (t.0@, t.1@))
}

/// The value of the first tag with the key `key`.
pub open spec fn tag_value(tags: Seq<(Seq<char>, Seq<char>)>, key: Seq<char>) -> Option<Seq<char>>
    decreases tags.len(),
{
    if tags.len() == 0 {
        None
    } else if tags[0].0 == key {
        Some(tags[0].1)
    } else {
        tag_value(tags.drop_first(), key)
    }
}

/// The value of the first tag with the key `key`.
pub fn get_tag<'a>(tags: &'a Vec<(String, String)>, key: &str) -> (r: Option<&'a String>)
    ensures
        match r {
            Some(v) => tag_value(tags_view(tags@), key@) == Some(v@),
            None => tag_value(tags_view(tags@), key@) is None,
        },
{
    let ghost tv = tags_view(tags@);
    let n = tags.len();
    assert(tv.skip(0) == tv);
    for i in 0..n
        invariant
            n == tags@.len(),
            tv == tags_view(tags@),
            tag_value(tv.skip(i as int), key@) == tag_value(tv, key@),
    {
        assert(tv.skip(i as int).drop_first() == tv.skip(i + 1));
        assert(tv.skip(i as int)[0] == tv[i as int]);
        if str_eq(tags[i].0.as_str(), key) {
            return Some(&tags[i].1);
        }
    }
    assert(tv.skip(n as int).len() == 0);
    None
}

/// The boolean an OSM value stands for (the value should be in lower case).
pub open spec fn bool_of(s: Seq<char>) -> Option<bool> {
    if s == "y"@ || s == "yes"@ || s == "true"@ {
        Some(true)
    } else if s == "n"@ || s == "no"@ || s == "false"@ {
        Some(false)
    } else {
        None
    }
}

/// The boolean values of OpenStreetMap tags: `y`, `yes` and `true` are
/// true, `n`, `no` and `false` are false, and no other value is a boolean.
pub proof fn lemma_bool_values()
    ensures
        bool_of("y"@) == Some(true),
        bool_of("yes"@) == Some(true),
        bool_of("true"@) == Some(true),
        bool_of("n"@) == Some(false),
        bool_of("no"@) == Some(false),
        bool_of("false"@) == Some(false),
        forall|s: Seq<char>| #[trigger] bool_of(s) is Some ==> (s == "y"@ || s == "yes"@ || s == "true"@ || s == "n"@ || s == "no"@ || s == "false"@),
{
    reveal_strlit("y");
    reveal_strlit("yes");
    reveal_strlit("true");
    reveal_strlit("n");
    reveal_strlit("no");
    reveal_strlit("false");
    assert("y"@.len() == 1);
    assert("yes"@.len() == 3);
    assert("true"@.len() == 4);
    assert("n"@.len() == 1);
    assert("no"@.len() == 2);
    assert("false"@.len() == 5);
    assert("y"@[0] != "n"@[0]);
}

/// The boolean an OSM value stands for: `y`, `yes`, `true` and `n`, `no`,
/// `false`. The string should be in lower case.
pub fn str_to_bool(instr: &str) -> (r: Option<bool>)
    ensures
        r == bool_of(instr@),
{
    if str_eq(instr, "y") || str_eq(instr, "yes") || str_eq(instr, "true") {
        Some(true)
    } else if str_eq(instr, "n") || str_eq(instr, "no") || str_eq(instr, "false") {
        Some(false)
    } else {
        None
    }
}

/// The sidewalks of a way.
#[derive(Debug, Clone, Copy, PartialEq, Eq, Structural)]
pub struct SideWalk {
    pub on_left_side: bool,
    pub on_left_bicycles_allowed: bool,
    pub on_right_side: bool,
    pub on_right_bicycles_allowed: bool,
}

/// A way without sidewalks.
pub open spec fn no_sidewalk() -> SideWalk {
    SideWalk {
        on_left_side: false,
        on_left_bicycles_allowed: false,
        on_right_side: false,
        on_right_bicycles_allowed: false,
    }
}

impl Default for SideWalk {
    fn default() -> (r: Self)
        ensures
            r == no_sidewalk(),
    {
        SideWalk {
            on_left_side: false,
            on_left_bicycles_allowed: false,
            on_right_side: false,
            on_right_bicycles_allowed: false,
        }
    }
}

impl SideWalk {
    /// Whether there is a sidewalk on neither side.
    pub fn is_without_sidewalk(&self) -> (r: bool)
        ensures
            r == !(self.on_left_side || self.on_right_side),
    {
        !(self.on_left_side || self.on_right_side)
    }
}

/// The sidewalks after one tag, its key and value in lower case: `sidewalk`
/// adds sidewalks on the sides it names, `sidewalk:<side>:bicycle` sets
/// whether bicycles may use the sidewalks of that side.
pub open spec fn sidewalk_step(sw: SideWalk, key: Seq<char>, value: Seq<char>) -> SideWalk {
    let k = str_trim(key);
    if k == "sidewalk"@ {
        let v = str_trim(value);
        if v == "both"@ || v == "yes"@ {
            SideWalk { on_right_side: true, on_left_side: true, ..sw }
        } else if v == "left"@ {
            SideWalk { on_left_side: true, ..sw }
        } else if v == "right"@ {
            SideWalk { on_right_side: true, ..sw }
        } else {
            sw
        }
    } else if k == "sidewalk:both:bicycle"@ {
        let allowed = match bool_of(value) {
            Some(b) => b,
            None => false,
        };
        SideWalk { on_right_bicycles_allowed: allowed, on_left_bicycles_allowed: allowed, ..sw }
    } else if k == "sidewalk:left:bicycle"@ {
        SideWalk {
            on_left_bicycles_allowed: match bool_of(value) {
                Some(b) => b,
                None => false,
            },
            ..sw
        }
    } else if k == "sidewalk:right:bicycle"@ {
        SideWalk {
            on_right_bicycles_allowed: match bool_of(value) {
                Some(b) => b,
                None => false,
            },
            ..sw
        }
    } else {
        sw
    }
}

/// The sidewalks the tags describe, tag after tag.
pub open spec fn sidewalk_of(tags: Seq<(Seq<char>, Seq<char>)>) -> SideWalk
    decreases tags.len(),
{
    if tags.len() == 0 {
        no_sidewalk()
    } else {
        sidewalk_step(
            sidewalk_of(tags.drop_last()),
            str_lowercase(tags.last().0),
            str_lowercase(tags.last().1),
        )
    }
}

/// The sidewalks the tags describe, for tags of ASCII text: as
/// [`sidewalk_of`], with `A` to `Z` lowered to `a` to `z`.
pub open spec fn sidewalk_of_ascii(tags: Seq<(Seq<char>, Seq<char>)>) -> SideWalk
    decreases tags.len(),
{
    if tags.len() == 0 {
        no_sidewalk()
    } else {
        sidewalk_step(
            sidewalk_of_ascii(tags.drop_last()),
            ascii_lowercase(tags.last().0),
            ascii_lowercase(tags.last().1),
        )
    }
}

/// Every key and value of the tags is ASCII text.
pub open spec fn ascii_tags(tags: Seq<(Seq<char>, Seq<char>)>) -> bool {
    forall|i: int| 0 <= i < tags.len() ==> is_ascii_text((#[trigger] tags[i]).0) && is_ascii_text(tags[i].1)
}

/// What a bicycle tag of a sidewalk does, whatever tags came before it: a
/// `sidewalk:right:bicycle` tag sets whether bicycles may use the sidewalk
/// on the right (true for a true value, false otherwise) and leaves the left
/// one, `sidewalk:left:bicycle` does the same on the left, and
/// `sidewalk:both:bicycle` sets both sides; none of them adds or removes a
/// sidewalk.
pub proof fn lemma_sidewalk_bicycle_tags(tags: Seq<(Seq<char>, Seq<char>)>)
    requires
        tags.len() > 0,
    ensures
        ({
            let before = sidewalk_of(tags.drop_last());
            let after = sidewalk_of(tags);
            let key = str_trim(str_lowercase(tags.last().0));
            let allowed = bool_of(str_lowercase(tags.last().1)) == Some(true);
            &&& key == "sidewalk:right:bicycle"@ ==> after.on_right_bicycles_allowed == allowed
                && after.on_left_bicycles_allowed == before.on_left_bicycles_allowed
            &&& key == "sidewalk:left:bicycle"@ ==> after.on_left_bicycles_allowed == allowed
                && after.on_right_bicycles_allowed == before.on_right_bicycles_allowed
            &&& key == "sidewalk:both:bicycle"@ ==> after.on_left_bicycles_allowed == allowed
                && after.on_right_bicycles_allowed == allowed
            &&& key != "sidewalk"@ ==> after.on_left_side == before.on_left_side && after.on_right_side == before.on_right_side
        }),
{
    reveal_strlit("sidewalk");
    reveal_strlit("sidewalk:both:bicycle");
    reveal_strlit("sidewalk:left:bicycle");
    reveal_strlit("sidewalk:right:bicycle");
    assert("sidewalk"@.len() == 8);
    assert("sidewalk:both:bicycle"@.len() == 21);
    assert("sidewalk:left:bicycle"@.len() == 21);
    assert("sidewalk:right:bicycle"@.len() == 22);
    assert("sidewalk:both:bicycle"@[9] != "sidewalk:left:bicycle"@[9]);
}

/// The value of a `sidewalk` tag names the left side.
pub open spec fn names_left_side(value: Seq<char>) -> bool {
    let v = str_trim(value);
    v == "both"@ || v == "yes"@ || v == "left"@
}

/// The value of a `sidewalk` tag names the right side.
pub open spec fn names_right_side(value: Seq<char>) -> bool {
    let v = str_trim(value);
    v == "both"@ || v == "yes"@ || v == "right"@
}

/// Tag `i` of `tags` is a `sidewalk` tag (key and value in lower case).
pub open spec fn is_sidewalk_tag(tags: Seq<(Seq<char>, Seq<char>)>, i: int) -> bool {
    str_trim(str_lowercase(tags[i].0)) == "sidewalk"@
}

/// Only `sidewalk` tags set the sides of a way: there is a sidewalk on the
/// left exactly when some `sidewalk` tag has the value `both`, `yes` or
/// `left`, and on the right exactly when one has `both`, `yes` or `right`
/// (values in lower case and without surrounding white space), whatever
/// the other tags and the order of the tags.
pub proof fn lemma_sidewalk_sides(tags: Seq<(Seq<char>, Seq<char>)>)
    ensures
        sidewalk_of(tags).on_left_side <==> exists|i: int| 0 <= i < tags.len() && #[trigger] is_sidewalk_tag(tags, i)
            && names_left_side(str_lowercase(tags[i].1)),
        sidewalk_of(tags).on_right_side <==> exists|i: int| 0 <= i < tags.len() && #[trigger] is_sidewalk_tag(tags, i)
            && names_right_side(str_lowercase(tags[i].1)),
    decreases tags.len(),
{
    if tags.len() > 0 {
        let init = tags.drop_last();
        lemma_sidewalk_sides(init);
        let n = tags.len() - 1;
        assert(tags.last() == tags[n]);
        assert forall|i: int| 0 <= i < init.len() implies #[trigger] is_sidewalk_tag(init, i) == is_sidewalk_tag(tags, i)
            && init[i] == tags[i] by {}
        if exists|i: int| 0 <= i < tags.len() && #[trigger] is_sidewalk_tag(tags, i) && names_left_side(str_lowercase(tags[i].1)) {
            let i = choose|i: int| 0 <= i < tags.len() && #[trigger] is_sidewalk_tag(tags, i) && names_left_side(str_lowercase(tags[i].1));
            if i < n {
                assert(is_sidewalk_tag(init, i));
            }
        }
        if exists|i: int| 0 <= i < tags.len() && #[trigger] is_sidewalk_tag(tags, i) && names_right_side(str_lowercase(tags[i].1)) {
            let i = choose|i: int| 0 <= i < tags.len() && #[trigger] is_sidewalk_tag(tags, i) && names_right_side(str_lowercase(tags[i].1));
            if i < n {
                assert(is_sidewalk_tag(init, i));
            }
        }
        if sidewalk_of(init).on_left_side {
            let i = choose|i: int| 0 <= i < init.len() && #[trigger] is_sidewalk_tag(init, i) && names_left_side(str_lowercase(init[i].1));
            assert(is_sidewalk_tag(tags, i));
        }
        if sidewalk_of(init).on_right_side {
            let i = choose|i: int| 0 <= i < init.len() && #[trigger] is_sidewalk_tag(init, i) && names_right_side(str_lowercase(init[i].1));
            assert(is_sidewalk_tag(tags, i));
        }
        if is_sidewalk_tag(tags, n) && names_left_side(str_lowercase(tags[n].1)) {
            assert(sidewalk_of(tags).on_left_side);
        }
        if is_sidewalk_tag(tags, n) && names_right_side(str_lowercase(tags[n].1)) {
            reveal_strlit("left");
            reveal_strlit("right");
            assert("left"@ != "right"@) by {
                assert("left"@[0] != "right"@[0]);
            }
            assert(sidewalk_of(tags).on_right_side);
        }
    }
}

/// The sidewalks of a way, `None` when it has none on either side.
pub fn infer_sidewalk(tags: &Vec<(String, String)>) -> (r: Option<SideWalk>)
    ensures
        ({
            let sw = sidewalk_of(tags_view(tags@));
            if sw.on_left_side || sw.on_right_side {
                r == Some(sw)
            } else {
                r is None
            }
        }),
        ascii_tags(tags_view(tags@)) ==> sidewalk_of_ascii(tags_view(tags@)) == sidewalk_of(tags_view(tags@)),
{
    let ghost tv = tags_view(tags@);
    let mut sidewalk = SideWalk::default();
    let n = tags.len();
    for i in 0..n
        invariant
            n == tags@.len(),
            tv == tags_view(tags@),
            sidewalk == sidewalk_of(tv.take(i as int)),
            ascii_tags(tv.take(i as int)) ==> sidewalk_of_ascii(tv.take(i as int)) == sidewalk_of(tv.take(i as int)),
    {
        let tag_key = to_lowercase(tags[i].0.as_str());
        let tag_value = to_lowercase(tags[i].1.as_str());
        assert(tv.take(i + 1).drop_last() == tv.take(i as int));
        assert(tv.take(i + 1).last() == tv[i as int]);
        proof {
            if ascii_tags(tv.take(i + 1)) {
                assert(tv.take(i + 1)[i as int] == tv[i as int]);
                assert forall|k: int| 0 <= k < i implies is_ascii_text((#[trigger] tv.take(i as int)[k]).0) && is_ascii_text(tv.take(i as int)[k].1) by {
                    assert(tv.take(i + 1)[k] == tv.take(i as int)[k]);
                }
            }
        }
        let key = trim(tag_key.as_str());
        if str_eq(key, "sidewalk") {
            let value = trim(tag_value.as_str());
            if str_eq(value, "both") || str_eq(value, "yes") {
                sidewalk.on_right_side = true;
                sidewalk.on_left_side = true;
            } else if str_eq(value, "left") {
                sidewalk.on_left_side = true;
            } else if str_eq(value, "right") {
                sidewalk.on_right_side = true;
            }
        } else if str_eq(key, "sidewalk:both:bicycle") {
            sidewalk.on_right_bicycles_allowed = match str_to_bool(tag_value.as_str()) {
                Some(b) => b,
                None => false,
            };
            sidewalk.on_left_bicycles_allowed = sidewalk.on_right_bicycles_allowed;
        } else if str_eq(key, "sidewalk:left:bicycle") {
            sidewalk.on_left_bicycles_allowed = match str_to_bool(tag_value.as_str()) {
                Some(b) => b,
                None => false,
            };
        } else if str_eq(key, "sidewalk:right:bicycle") {
            sidewalk.on_right_bicycles_allowed = match str_to_bool(tag_value.as_str()) {
                Some(b) => b,
                None => false,
            };
        }
    }
    assert(tv.take(n as int) == tv);
    if sidewalk.is_without_sidewalk() {
        None
    } else {
        Some(sidewalk)
    }
}

} // verus!
