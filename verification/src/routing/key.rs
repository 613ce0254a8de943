//! Keys of the graphs in the object store: `<name>_<resolution>.ipc`.
use vstd::prelude::*;
use vstd::string::StringExecFns;
use crate::h3::MAX_RESOLUTION;
use crate::routing::error::Error;
use crate::routing::text::{chars_of, digit_char, digit_value, digits_value, decimal, append_decimal};

verus! {

/// A graph stored under the key `<name>_<resolution>.ipc`.
#[derive(Hash, Debug, PartialEq, Eq)]
pub struct GraphKey {
    pub(crate) name: String,
    pub(crate) h3_resolution: u8,
}

impl GraphKey {
    /// The name of the graph.
    pub closed spec fn name_view(&self) -> Seq<char> {
        self.name@
    }

    /// The resolution of the graph.
    pub closed spec fn resolution_view(&self) -> u8 {
        self.h3_resolution
    }

    /// The resolution is an H3 resolution.
    #[verifier::type_invariant]
    closed spec fn inv(&self) -> bool {
        self.h3_resolution <= MAX_RESOLUTION
    }

    /// The key of the graph `name` at `h3_resolution`; `None` when the
    /// resolution is above 15.
    pub fn new(name: String, h3_resolution: u8) -> (r: Option<GraphKey>)
        ensures
            r is Some <==> h3_resolution <= MAX_RESOLUTION,
            r matches Some(k) ==> k.name_view() == name@ && k.resolution_view() == h3_resolution,
    {
        if h3_resolution <= MAX_RESOLUTION {
            Some(GraphKey { name, h3_resolution })
        } else {
            None
        }
    }

    /// The name of the graph.
    pub fn name(&self) -> (r: &String)
        ensures
            r@ == self.name_view(),
    {
        &self.name
    }

    /// A copy of the key.
    pub fn clone(&self) -> (r: GraphKey)
        ensures
            r.name_view() == self.name_view(),
            r.resolution_view() == self.resolution_view(),
    {
        proof {
            use_type_invariant(self);
        }
        GraphKey { name: self.name.clone(), h3_resolution: self.h3_resolution }
    }

    /// The resolution of the graph, at most 15.
    pub fn h3_resolution(&self) -> (r: u8)
        ensures
            r == self.resolution_view(),
            r <= MAX_RESOLUTION,
    {
        proof {
            use_type_invariant(self);
        }
        self.h3_resolution
    }
}

/// Why a graph handle names no graph.
#[derive(Debug, Clone, Copy, PartialEq, Eq, Structural)]
pub enum GraphHandleError {
    /// No handle was given.
    NotSet,
    /// The name is empty.
    EmptyName,
    /// The resolution is no H3 resolution.
    InvalidH3Resolution,
}

/// A character graph names may hold: ASCII letters and digits, `-` and `_`.
pub open spec fn is_name_char(c: char) -> bool {
    ('a' <= c && c <= 'z') || ('A' <= c && c <= 'Z') || ('0' <= c && c <= '9') || c == '-' || c == '_'
}

/// The start of the longest run of name characters of `s` ending at `end`.
pub open spec fn name_run_start(s: Seq<char>, end: int) -> int
    decreases end,
{
    if end <= 0 {
        0
    } else if is_name_char(s[end - 1]) {
        name_run_start(s, end - 1)
    } else {
        end
    }
}

/// Whether `c` is a decimal digit.
pub open spec fn is_digit(c: char) -> bool {
    '0' <= c && c <= '9'
}

/// The suffix of graph keys.
pub open spec fn key_suffix() -> Seq<char> {
    seq!['.', 'i', 'p', 'c']
}

/// Where the name of a key ends and its resolution digits start: the text
/// before the suffix ends with `_` and one digit, or `_` and two digits.
pub open spec fn key_digits_start(t: Seq<char>) -> Option<int> {
    let n = t.len() as int;
    if n >= 2 && t[n - 2] == '_' && is_digit(t[n - 1]) {
        Some(n - 1)
    } else if n >= 3 && t[n - 3] == '_' && is_digit(t[n - 2]) && is_digit(t[n - 1]) {
        Some(n - 2)
    } else {
        None
    }
}

/// The name and resolution a key text stands for: the text ends with the
/// suffix, before it `_` and one or two digits, and before these the longest
/// nonempty run of name characters is the name. The key is found anywhere
/// in the text, so characters before the name are ignored.
pub open spec fn parse_graph_key(s: Seq<char>) -> Option<(Seq<char>, nat)> {
    if s.len() >= 4 && s.subrange(s.len() - 4, s.len() as int) == key_suffix() {
        let t = s.subrange(0, s.len() - 4);
        match key_digits_start(t) {
            Some(d) => {
                let name_end = d - 1;
                let start = name_run_start(t, name_end);
                if start < name_end {
                    Some((t.subrange(start, name_end), digits_value(t.subrange(d, t.len() as int))))
                } else {
                    None
                }
            },
            None => None,
        }
    } else {
        None
    }
}

/// The key text of a name and resolution.
pub open spec fn graph_key_text(name: Seq<char>, h3_resolution: u8) -> Seq<char> {
    name + seq!['_'] + decimal(h3_resolution as nat) + key_suffix()
}

/// The start of the run of name characters of `s` ending at `end`.
fn find_name_run_start(s: &Vec<char>, end: usize) -> (r: usize)
    requires
        end <= s@.len(),
    ensures
        r == name_run_start(s@, end as int),
        r <= end,
{
    let mut i = end;
    while i > 0 && is_name_char_exec(s[i - 1])
        invariant
            i <= end,
            end <= s@.len(),
            name_run_start(s@, i as int) == name_run_start(s@, end as int),
        decreases i,
    {
        i = i - 1;
    }
    i
}

/// Whether `c` may stand in a graph name.
fn is_name_char_exec(c: char) -> (r: bool)
    ensures
        r == is_name_char(c),
{
    ('a' <= c && c <= 'z') || ('A' <= c && c <= 'Z') || ('0' <= c && c <= '9') || c == '-' || c == '_'
}

/// Whether `c` is a decimal digit.
fn is_digit_exec(c: char) -> (r: bool)
    ensures
        r == is_digit(c),
{
    '0' <= c && c <= '9'
}

/// The value of a decimal digit character.
fn digit_of(c: char) -> (r: u8)
    requires
        is_digit(c),
    ensures
        digit_value(c) == Some(r),
        r < 10,
{
    ((c as u32) - ('0' as u32)) as u8
}

impl GraphKey {
    /// The suffix of graph keys.
    pub fn file_suffix() -> (r: &'static str)
        ensures
            r@ == key_suffix(),
    {
        proof {
            reveal_strlit(".ipc");
        }
        ".ipc"
    }

    /// The graph key a text holds (see [`parse_graph_key`]); texts without
    /// one, and resolutions above 15, fail with `NotAGraphKey`.
    pub fn from_str(s: &str) -> (r: Result<GraphKey, Error>)
        ensures
            match parse_graph_key(s@) {
                Some((name, res)) => if res <= MAX_RESOLUTION {
                    r matches Ok(k) && k.name_view() == name && k.resolution_view() == res
                } else {
                    r == Err::<GraphKey, Error>(Error::NotAGraphKey)
                },
                None => r == Err::<GraphKey, Error>(Error::NotAGraphKey),
            },
    {
        let chars = chars_of(s);
        let n = chars.len();
        if n < 4 || chars[n - 4] != '.' || chars[n - 3] != 'i' || chars[n - 2] != 'p' || chars[n - 1] != 'c' {
            proof {
                if s@.len() >= 4 {
                    assert(s@.subrange(s@.len() - 4, s@.len() as int)[0] == s@[n - 4]);
                    assert(s@.subrange(s@.len() - 4, s@.len() as int)[1] == s@[n - 3]);
                    assert(s@.subrange(s@.len() - 4, s@.len() as int)[2] == s@[n - 2]);
                    assert(s@.subrange(s@.len() - 4, s@.len() as int)[3] == s@[n - 1]);
                }
            }
            return Err(Error::NotAGraphKey);
        }
        assert(s@.subrange(s@.len() - 4, s@.len() as int) =~= key_suffix());
        let tn = n - 4;
        let ghost t = s@.subrange(0, s@.len() - 4);
        assert(forall|i: int| 0 <= i < tn ==> #[trigger] t[i] == chars@[i]);
        let (digits_start, value) = if tn >= 2 && chars[tn - 2] == '_' && is_digit_exec(chars[tn - 1]) {
            let v = digit_of(chars[tn - 1]);
            proof {
                let ds = t.subrange(tn - 1, tn as int);
                assert(ds.drop_last() =~= Seq::<char>::empty());
                assert(digits_value(Seq::<char>::empty()) == 0);
                assert(ds.last() == chars@[tn - 1]);
                assert(digits_value(ds) == v);
            }
            (tn - 1, v)
        } else if tn >= 3 && chars[tn - 3] == '_' && is_digit_exec(chars[tn - 2]) && is_digit_exec(chars[tn - 1]) {
            let hi = digit_of(chars[tn - 2]);
            let lo = digit_of(chars[tn - 1]);
            proof {
                let ds = t.subrange(tn - 2, tn as int);
                assert(ds.drop_last().drop_last() =~= Seq::<char>::empty());
                assert(digits_value(Seq::<char>::empty()) == 0);
                assert(ds.drop_last().last() == chars@[tn - 2]);
                assert(ds.last() == chars@[tn - 1]);
                assert(digits_value(ds.drop_last()) == hi);
                assert(digits_value(ds) == hi * 10 + lo);
            }
            (tn - 2, hi * 10 + lo)
        } else {
            return Err(Error::NotAGraphKey);
        };
        let name_end = digits_start - 1;
        let start = find_name_run_start(&chars, name_end);
        proof {
            assert(name_run_start(chars@, name_end as int) == name_run_start(t, name_end as int)) by {
                lemma_name_run_start_prefix(chars@, t, name_end as int);
            }
        }
        if start == name_end {
            return Err(Error::NotAGraphKey);
        }
        if value > MAX_RESOLUTION {
            return Err(Error::NotAGraphKey);
        }
        let name = s.substring_char(start, name_end);
        assert(name@ == t.subrange(start as int, name_end as int));
        Ok(GraphKey { name: String::from_str(name), h3_resolution: value })
    }

    /// The key text of the graph: `<name>_<resolution>.ipc`.
    pub fn to_string(&self) -> (r: String)
        ensures
            r@ == graph_key_text(self.name_view(), self.resolution_view()),
    {
        let mut out = self.name.clone();
        proof {
            reveal_strlit("_");
        }
        out.append("_");
        append_decimal(&mut out, self.h3_resolution);
        out.append(GraphKey::file_suffix());
        out
    }

    /// The graph handle naming this graph: its name and resolution.
    pub fn to_handle(&self) -> (r: (String, u32))
        ensures
            r.0@ == self.name_view(),
            r.1 == self.resolution_view() as u32,
    {
        (self.name.clone(), self.h3_resolution as u32)
    }

    /// The graph key a graph handle names: the handle must be set, its name
    /// nonempty and its resolution at most 15; any larger resolution, 256 and
    /// above too, is refused as invalid.
    pub fn try_from_handle(handle: Option<(String, u32)>) -> (r: Result<GraphKey, GraphHandleError>)
        ensures
            match handle {
                None => r == Err::<GraphKey, GraphHandleError>(GraphHandleError::NotSet),
                Some((name, res)) => if name@.len() == 0 {
                    r == Err::<GraphKey, GraphHandleError>(GraphHandleError::EmptyName)
                } else if res > MAX_RESOLUTION {
                    r == Err::<GraphKey, GraphHandleError>(GraphHandleError::InvalidH3Resolution)
                } else {
                    r matches Ok(k) && k.name_view() == name@ && k.resolution_view() == res
                },
            },
    {
        match handle {
            None => Err(GraphHandleError::NotSet),
            Some((name, res)) => {
                if name.as_str().unicode_len() == 0 {
                    return Err(GraphHandleError::EmptyName);
                }
                if res > MAX_RESOLUTION as u32 {
                    return Err(GraphHandleError::InvalidH3Resolution);
                }
                Ok(GraphKey { name, h3_resolution: res as u8 })
            },
        }
    }
}

/// A run start of a text made of name characters only is its beginning.
proof fn lemma_name_run_start_all(s: Seq<char>, end: int)
    requires
        0 <= end <= s.len(),
        forall|i: int| 0 <= i < end ==> is_name_char(#[trigger] s[i]),
    ensures
        name_run_start(s, end) == 0,
    decreases end,
{
    if end > 0 {
        lemma_name_run_start_all(s, end - 1);
    }
}

/// A digit's character is a digit, and stands for the digit.
proof fn lemma_digit_char(d: u8)
    requires
        d < 10,
    ensures
        is_digit(digit_char(d)),
        digit_value(digit_char(d)) == Some(d),
{
}

/// Reading back the key text of a graph gives its name and resolution:
/// for a nonempty name of name characters and a resolution of at most 15,
/// [`parse_graph_key`] of [`graph_key_text`] is the name and the resolution.
pub proof fn lemma_graph_key_roundtrip(name: Seq<char>, h3_resolution: u8)
    requires
        name.len() > 0,
        forall|i: int| 0 <= i < name.len() ==> is_name_char(#[trigger] name[i]),
        h3_resolution <= MAX_RESOLUTION,
    ensures
        parse_graph_key(graph_key_text(name, h3_resolution)) == Some((name, h3_resolution as nat)),
{
    let res = h3_resolution;
    let digits = decimal(res as nat);
    let s = graph_key_text(name, res);
    let t = name + seq!['_'] + digits;
    assert(s == t + key_suffix());
    assert(s.subrange(s.len() - 4, s.len() as int) =~= key_suffix());
    assert(s.subrange(0, s.len() - 4) =~= t);
    let n = t.len() as int;
    let d: int;
    if res < 10 {
        lemma_digit_char(res);
        assert(digits == seq![digit_char(res)]);
        assert(t[n - 2] == '_');
        assert(t[n - 1] == digit_char(res));
        assert(key_digits_start(t) == Some(n - 1));
        d = n - 1;
        let ds = t.subrange(d, n);
        assert(ds =~= seq![digit_char(res)]);
        assert(ds.drop_last() =~= Seq::<char>::empty());
        assert(digits_value(Seq::<char>::empty()) == 0);
        assert(ds.last() == digit_char(res));
        assert(digits_value(ds) == res);
    } else {
        let hi = (res / 10) as u8;
        let lo = (res % 10) as u8;
        lemma_digit_char(hi);
        lemma_digit_char(lo);
        assert(decimal((res / 10) as nat) == seq![digit_char(hi)]);
        assert(digits == seq![digit_char(hi), digit_char(lo)]);
        assert(t[n - 3] == '_');
        assert(t[n - 2] == digit_char(hi));
        assert(t[n - 1] == digit_char(lo));
        assert(key_digits_start(t) == Some(n - 2));
        d = n - 2;
        let ds = t.subrange(d, n);
        assert(ds =~= seq![digit_char(hi), digit_char(lo)]);
        assert(ds.drop_last() =~= seq![digit_char(hi)]);
        let first = ds.drop_last();
        assert(first.drop_last() =~= Seq::<char>::empty());
        assert(digits_value(Seq::<char>::empty()) == 0);
        assert(first.last() == digit_char(hi));
        assert(ds.last() == digit_char(lo));
        assert(digits_value(first) == hi);
        assert(digits_value(ds) == hi * 10 + lo);
    }
    let name_end = d - 1;
    assert(name_end == name.len());
    assert forall|i: int| 0 <= i < name_end implies is_name_char(#[trigger] t[i]) by {
        assert(t[i] == name[i]);
    }
    lemma_name_run_start_all(t, name_end);
    assert(t.subrange(0, name_end) =~= name);
}

/// The run start only looks at the characters before `end`.
proof fn lemma_name_run_start_prefix(a: Seq<char>, b: Seq<char>, end: int)
    requires
        0 <= end <= a.len(),
        end <= b.len(),
        forall|i: int| 0 <= i < end ==> a[i] == b[i],
    ensures
        name_run_start(a, end) == name_run_start(b, end),
    decreases end,
{
    if end > 0 {
        lemma_name_run_start_prefix(a, b, end - 1);
    }
}

} // verus!
