//! Where graphs and dataset files are found in the object store.
use vstd::prelude::*;
use vstd::string::StringExecFns;
use std::collections::HashMap;
use crate::h3::{CellIndex, MAX_RESOLUTION, lower_hex, cells_view, index_values, sorted_dedup, strictly_increasing};
use crate::algorithm::resolution::{transform_cells, transform_resolution};
use crate::routing::error::Error;
use crate::routing::format::{FileFormat, format_of_extension, path_extension};
use crate::routing::key::{GraphKey, graph_key_text, parse_graph_key};
use crate::routing::text::{chars_of, decimal, append_decimal, str_lowercase, str_trim};
use crate::routing::maxspeed::{space_run_end, scan_spaces};

verus! {

/// Fetches graphs stored below a prefix.
pub struct GraphFetcher {
    pub prefix: String,
}

/// The prefix graph keys are listed under: the configured prefix and `/`,
/// or nothing for an empty prefix.
pub open spec fn fetcher_prefix(prefix: Seq<char>) -> Seq<char> {
    if prefix.len() == 0 {
        Seq::empty()
    } else {
        prefix + seq!['/']
    }
}

/// The graph key of a listed location, read from position `skip` on: the
/// key [`parse_graph_key`] finds there, if its resolution is at most 15.
pub open spec fn location_key(location: Seq<char>, skip: int) -> Option<(Seq<char>, nat)> {
    match parse_graph_key(location.skip(skip)) {
        Some((name, res)) => if res <= MAX_RESOLUTION {
            Some((name, res))
        } else {
            None
        },
        None => None,
    }
}

/// The graph keys of listed locations, in their order; locations holding
/// no key are left out.
pub open spec fn listed_keys(locations: Seq<Seq<char>>, skip: int) -> Seq<(Seq<char>, nat)>
    decreases locations.len(),
{
    if locations.len() == 0 {
        Seq::empty()
    } else {
        listed_keys(locations.drop_last(), skip) + match location_key(locations.last(), skip) {
            Some(k) => seq![k],
            None => Seq::empty(),
        }
    }
}

/// Where the key of a listed location is read from: the last character of
/// the listing prefix (its `/`), or the start for an empty prefix.
pub open spec fn listing_skip(prefix: Seq<char>) -> int {
    if fetcher_prefix(prefix).len() == 0 {
        0
    } else {
        fetcher_prefix(prefix).len() - 1
    }
}

/// The view of graph keys: their names and resolutions.
pub open spec fn keys_view(keys: Seq<GraphKey>) -> Seq<(Seq<char>, nat)> {
    keys.map_values(|k: GraphKey| (k.name_view(), k.resolution_view() as nat))
}

impl GraphFetcher {
    /// The prefix graph keys are listed under (see [`fetcher_prefix`]).
    pub fn prefix(&self) -> (r: String)
        ensures
            r@ == fetcher_prefix(self.prefix@),
    {
        if self.prefix.as_str().unicode_len() == 0 {
            String::new()
        } else {
            let mut p = self.prefix.clone();
            proof {
                reveal_strlit("/");
            }
            p.append("/");
            p
        }
    }

    /// The graph keys among the locations listed below the prefix (see
    /// [`listed_keys`]); each location starts with the listing prefix.
    pub fn keys_from_locations(&self, locations: &Vec<String>) -> (r: Vec<GraphKey>)
        requires
            forall|i: int| 0 <= i < locations@.len() ==> listing_skip(self.prefix@) <= (#[trigger] locations@[i])@.len(),
        ensures
            keys_view(r@) == listed_keys(locations@.map_values(|l: String| l@), listing_skip(self.prefix@)),
    {
        let p = self.prefix();
        let plen = p.as_str().unicode_len();
        let skip: usize = if plen == 0 { 0 } else { plen - 1 };
        let ghost locs = locations@.map_values(|l: String| l@);
        let mut out: Vec<GraphKey> = Vec::new();
        let n = locations.len();
        for i in 0..n
            invariant
                n == locations@.len(),
                skip == listing_skip(self.prefix@),
                locs == locations@.map_values(|l: String| l@),
                forall|j: int| 0 <= j < locations@.len() ==> skip <= (#[trigger] locations@[j])@.len(),
                keys_view(out@) == listed_keys(locs.take(i as int), skip as int),
        {
            let loc = locations[i].as_str();
            assert(locs[i as int] == loc@);
            let len = loc.unicode_len();
            let text = loc.substring_char(skip, len);
            assert(text@ == loc@.skip(skip as int));
            assert(locs.take(i + 1).drop_last() == locs.take(i as int));
            assert(locs.take(i + 1).last() == loc@);
            let ghost before = out@;
            match GraphKey::from_str(text) {
                Ok(k) => {
                    out.push(k);
                    assert(keys_view(out@) == keys_view(before).push((k.name_view(), k.resolution_view() as nat)));
                },
                Err(_) => {},
            }
        }
        assert(locs.take(n as int) == locs);
        out
    }

    /// The location of the graph `key`: the prefix followed by the key text.
    pub fn graph_location(&self, key: &GraphKey) -> (r: String)
        ensures
            r@ == fetcher_prefix(self.prefix@) + graph_key_text(key.name_view(), key.resolution_view()),
    {
        let mut p = self.prefix();
        let k = key.to_string();
        p.append(k.as_str());
        p
    }
}

/// A dataset of dataframes split into files by cells.
pub struct DataframeDataset {
    /// the key of the files, with the placeholders `{data_h3_resolution}`,
    /// `{file_h3_resolution}` and `{h3cell}`
    pub key_pattern: String,
    /// maps data resolutions to the file h3 resolutions
    pub resolutions: HashMap<u8, u8>,
    pub h3index_column_name: String,
}

/// The file resolution of a data resolution, if the map configures one.
pub open spec fn resolution_lookup(resolutions: Map<u8, u8>, data_h3_resolution: u8) -> Option<u8> {
    if resolutions.contains_key(data_h3_resolution) {
        Some(resolutions[data_h3_resolution])
    } else {
        None
    }
}

/// Where a placeholder `{ name }` starting at `i` ends: `{`, white space,
/// the name, white space and `}`.
pub open spec fn placeholder_end(s: Seq<char>, i: int, name: Seq<char>) -> Option<int> {
    if 0 <= i < s.len() && s[i] == '{' {
        let a = space_run_end(s, i + 1);
        if a + name.len() <= s.len() && s.subrange(a, a + name.len()) == name {
            let b = space_run_end(s, a + name.len());
            if b < s.len() && s[b] == '}' {
                Some(b + 1)
            } else {
                None
            }
        } else {
            None
        }
    } else {
        None
    }
}

/// `s` from `i` on with every placeholder `{ name }` replaced by `value`,
/// from left to right.
pub open spec fn replace_from(s: Seq<char>, i: int, name: Seq<char>, value: Seq<char>) -> Seq<char>
    decreases s.len() - i,
{
    if i < 0 || i >= s.len() {
        Seq::empty()
    } else {
        match placeholder_end(s, i, name) {
            Some(e) => if e > i {
                value + replace_from(s, e, name, value)
            } else {
                Seq::empty()
            },
            None => seq![s[i]] + replace_from(s, i + 1, name, value),
        }
    }
}

/// `s` with every placeholder `{ name }` replaced by `value`.
pub open spec fn replace_placeholder(s: Seq<char>, name: Seq<char>, value: Seq<char>) -> Seq<char> {
    replace_from(s, 0, name, value)
}

/// The path of the file of a dataset holding `cell` at the data resolution
/// `data_h3_resolution` whose files are of resolution `file_h3_resolution`.
pub open spec fn dataset_path(pattern: Seq<char>, cell: u64, data_h3_resolution: u8, file_h3_resolution: u8) -> Seq<char> {
    replace_placeholder(
        replace_placeholder(
            replace_placeholder(pattern, "data_h3_resolution"@, decimal(data_h3_resolution as nat)),
            "file_h3_resolution"@,
            decimal(file_h3_resolution as nat),
        ),
        "h3cell"@,
        lower_hex(cell as nat),
    )
}

/// Where a placeholder `{ name }` starting at `i` ends (see [`placeholder_end`]).
fn match_placeholder(s: &Vec<char>, i: usize, name: &Vec<char>) -> (r: Option<usize>)
    requires
        i < s@.len(),
    ensures
        match r {
            Some(e) => placeholder_end(s@, i as int, name@) == Some(e as int) && i < e <= s@.len(),
            None => placeholder_end(s@, i as int, name@) is None,
        },
{
    let n = s.len();
    if s[i] != '{' {
        return None;
    }
    let a = scan_spaces(s, i + 1);
    let nl = name.len();
    if n - a < nl {
        return None;
    }
    let mut j: usize = 0;
    while j < nl
        invariant
            j <= nl,
            nl == name@.len(),
            n == s@.len(),
            i < n,
            s@[i as int] == '{',
            a as int == space_run_end(s@, i + 1),
            a + nl <= s@.len(),
            forall|k: int| 0 <= k < j ==> s@[a + k] == name@[k],
        decreases nl - j,
    {
        if s[a + j] != name[j] {
            proof {
                let sub = s@.subrange(a as int, a + nl);
                assert(sub[j as int] != name@[j as int]);
                assert(sub != name@);
                assert(placeholder_end(s@, i as int, name@) is None);
            }
            return None;
        }
        j = j + 1;
    }
    assert(s@.subrange(a as int, a + nl) =~= name@);
    let b = scan_spaces(s, a + nl);
    if b < n && s[b] == '}' {
        Some(b + 1)
    } else {
        None
    }
}

/// `s` with every placeholder `{ name }` replaced by `value`.
pub fn replace_placeholder_exec(s: &str, name: &str, value: &str) -> (r: String)
    ensures
        r@ == replace_placeholder(s@, name@, value@),
{
    let chars = chars_of(s);
    let name_chars = chars_of(name);
    let n = chars.len();
    let mut out = String::new();
    let mut i: usize = 0;
    while i < n
        invariant
            n == s@.len(),
            chars@ == s@,
            name_chars@ == name@,
            i <= n,
            out@ + replace_from(s@, i as int, name@, value@) == replace_placeholder(s@, name@, value@),
        decreases n - i,
    {
        let ghost before = out@;
        match match_placeholder(&chars, i, &name_chars) {
            Some(e) => {
                out.append(value);
                assert(before + (value@ + replace_from(s@, e as int, name@, value@)) =~= out@ + replace_from(
                    s@,
                    e as int,
                    name@,
                    value@,
                ));
                i = e;
            },
            None => {
                let c = s.substring_char(i, i + 1);
                out.append(c);
                assert(c@ =~= seq![s@[i as int]]);
                assert(before + (seq![s@[i as int]] + replace_from(s@, i + 1, name@, value@)) =~= out@ + replace_from(
                    s@,
                    i + 1,
                    name@,
                    value@,
                ));
                i = i + 1;
            },
        }
    }
    assert(out@ =~= out@ + replace_from(s@, i as int, name@, value@));
    out
}

/// The decimal text of a resolution.
fn decimal_string(n: u8) -> (r: String)
    ensures
        r@ == decimal(n as nat),
{
    let mut s = String::new();
    append_decimal(&mut s, n);
    assert(s@ =~= decimal(n as nat));
    s
}

impl DataframeDataset {
    /// The format of the dataset's files, told by the key pattern.
    pub fn fileformat(&self) -> (r: Result<FileFormat, Error>)
        ensures
            match format_of_extension(path_extension(str_lowercase(str_trim(self.key_pattern@)))) {
                Some(f) => r == Ok::<FileFormat, Error>(f),
                None => r matches Err(Error::UnidentifiedFileFormat(s)) && s@ == self.key_pattern@,
            },
    {
        FileFormat::from_filename(self.key_pattern.as_str())
    }

    /// Checks that the format of the dataset's files is understood.
    pub fn validate(&self) -> (r: Result<(), Error>)
        ensures
            match format_of_extension(path_extension(str_lowercase(str_trim(self.key_pattern@)))) {
                Some(f) => r == Ok::<(), Error>(()),
                None => r matches Err(Error::UnidentifiedFileFormat(s)) && s@ == self.key_pattern@,
            },
    {
        match self.fileformat() {
            Ok(_) => Ok(()),
            Err(e) => Err(e),
        }
    }

    /// The resolution of the files holding data of `data_h3_resolution`;
    /// unconfigured resolutions fail with `UnsupportedH3Resolution`.
    pub fn file_h3_resolution(&self, data_h3_resolution: u8) -> (r: Result<u8, Error>)
        ensures
            match resolution_lookup(self.resolutions@, data_h3_resolution) {
                Some(f) => r == Ok::<u8, Error>(f),
                None => r == Err::<u8, Error>(Error::UnsupportedH3Resolution(data_h3_resolution)),
            },
    {
        broadcast use vstd::std_specs::hash::group_hash_axioms;
        match self.resolutions.get(&data_h3_resolution) {
            Some(f) => Ok(*f),
            None => Err(Error::UnsupportedH3Resolution(data_h3_resolution)),
        }
    }

    /// The path of the file holding `cell` (of the files' resolution) at
    /// `data_h3_resolution`: the placeholders of the key pattern replaced.
    /// Unconfigured resolutions fail with `UnsupportedH3Resolution`.
    pub fn build_dataset_path(&self, cell: CellIndex, data_h3_resolution: u8) -> (r: Result<String, Error>)
        ensures
            match resolution_lookup(self.resolutions@, data_h3_resolution) {
                Some(f) => r matches Ok(p) && p@ == dataset_path(self.key_pattern@, cell@, data_h3_resolution, f),
                None => r == Err::<String, Error>(Error::UnsupportedH3Resolution(data_h3_resolution)),
            },
    {
        proof {
            reveal_strlit("data_h3_resolution");
            reveal_strlit("file_h3_resolution");
            reveal_strlit("h3cell");
        }
        let data_res = decimal_string(data_h3_resolution);
        let with_data = replace_placeholder_exec(self.key_pattern.as_str(), "data_h3_resolution", data_res.as_str());
        let file_h3_resolution = match self.file_h3_resolution(data_h3_resolution) {
            Ok(f) => f,
            Err(e) => return Err(e),
        };
        let file_res = decimal_string(file_h3_resolution);
        let with_file = replace_placeholder_exec(with_data.as_str(), "file_h3_resolution", file_res.as_str());
        let cell_text = cell.to_string();
        Ok(replace_placeholder_exec(with_file.as_str(), "h3cell", cell_text.as_str()))
    }
}

/// `a` comes before `b` in lexicographic order of the characters.
pub open spec fn text_less(a: Seq<char>, b: Seq<char>) -> bool
    decreases a.len(),
{
    if b.len() == 0 {
        false
    } else if a.len() == 0 {
        true
    } else if a[0] != b[0] {
        a[0] < b[0]
    } else {
        text_less(a.drop_first(), b.drop_first())
    }
}

/// The lexicographic order is transitive.
proof fn lemma_text_less_transitive(a: Seq<char>, b: Seq<char>, c: Seq<char>)
    requires
        text_less(a, b),
        text_less(b, c),
    ensures
        text_less(a, c),
    decreases a.len(),
{
    if a.len() > 0 && b.len() > 0 && c.len() > 0 && a[0] == b[0] && b[0] == c[0] {
        lemma_text_less_transitive(a.drop_first(), b.drop_first(), c.drop_first());
    }
}

/// The lexicographic order is irreflexive and total on different texts.
proof fn lemma_text_less_total(a: Seq<char>, b: Seq<char>)
    ensures
        !text_less(a, a),
        a != b ==> text_less(a, b) || text_less(b, a),
        text_less(a, b) ==> !text_less(b, a),
    decreases a.len(),
{
    if a.len() > 0 && b.len() > 0 {
        lemma_text_less_total(a.drop_first(), b.drop_first());
        if a[0] == b[0] && a != b {
            assert(a == seq![a[0]] + a.drop_first());
            assert(b == seq![b[0]] + b.drop_first());
        }
    } else if a.len() > 0 {
    } else if b.len() > 0 {
    } else {
        assert(a =~= b);
    }
    if a.len() > 0 {
        lemma_text_less_total(a.drop_first(), a.drop_first());
    }
}

/// Whether `a` comes before `b` in lexicographic order of the characters.
fn text_less_exec(a: &Vec<char>, b: &Vec<char>) -> (r: bool)
    ensures
        r == text_less(a@, b@),
{
    let mut i: usize = 0;
    assert(a@.skip(0) == a@);
    assert(b@.skip(0) == b@);
    while i < a.len() && i < b.len() && a[i] == b[i]
        invariant
            i <= a@.len(),
            i <= b@.len(),
            text_less(a@.skip(i as int), b@.skip(i as int)) == text_less(a@, b@),
        decreases a@.len() - i,
    {
        assert(a@.skip(i as int).drop_first() == a@.skip(i + 1));
        assert(b@.skip(i as int).drop_first() == b@.skip(i + 1));
        i = i + 1;
    }
    if i == b.len() {
        assert(b@.skip(i as int).len() == 0);
        false
    } else if i == a.len() {
        assert(a@.skip(i as int).len() == 0);
        true
    } else {
        assert(a@.skip(i as int)[0] == a@[i as int]);
        assert(b@.skip(i as int)[0] == b@[i as int]);
        a[i] < b[i]
    }
}

/// The texts of a list of strings.
pub open spec fn texts_view(v: Seq<String>) -> Seq<Seq<char>> {
    v.map_values(|s: String| s@)
}

/// The texts are in strictly increasing lexicographic order.
pub open spec fn texts_increasing(t: Seq<Seq<char>>) -> bool {
    forall|i: int, j: int| 0 <= i < j < t.len() ==> text_less(t[i], t[j])
}

/// Inserts `s` into a list in strictly increasing order, unless it is there.
fn insert_text_sorted(list: &mut Vec<String>, keys: &mut Vec<Vec<char>>, s: String)
    requires
        texts_increasing(texts_view(old(list)@)),
        old(keys)@.len() == old(list)@.len(),
        forall|k: int| 0 <= k < old(keys)@.len() ==> (#[trigger] old(keys)@[k])@ == old(list)@[k]@,
    ensures
        texts_increasing(texts_view(final(list)@)),
        final(keys)@.len() == final(list)@.len(),
        forall|k: int| 0 <= k < final(keys)@.len() ==> (#[trigger] final(keys)@[k])@ == final(list)@[k]@,
        forall|x: Seq<char>| #[trigger] texts_view(final(list)@).contains(x) <==> (texts_view(old(list)@).contains(x) || x == s@),
{
    let ghost old_t = texts_view(list@);
    let sc = chars_of(s.as_str());
    let mut i: usize = 0;
    while i < list.len() && text_less_exec(&keys[i], &sc)
        invariant
            i <= list@.len(),
            keys@.len() == list@.len(),
            forall|k: int| 0 <= k < keys@.len() ==> (#[trigger] keys@[k])@ == list@[k]@,
            old_t == texts_view(list@),
            sc@ == s@,
            forall|j: int| 0 <= j < i ==> text_less(#[trigger] old_t[j], s@),
        decreases list@.len() - i,
    {
        i = i + 1;
    }
    let present = i < list.len() && !text_less_exec(&sc, &keys[i]);
    if present {
        proof {
            lemma_text_less_total(old_t[i as int], s@);
            assert(old_t[i as int] == s@);
            assert(old_t.contains(old_t[i as int]));
        }
    } else {
        proof {
            if i < list@.len() {
                lemma_text_less_total(old_t[i as int], s@);
            }
        }
        list.insert(i, s);
        keys.insert(i, sc);
        let ghost new_t = texts_view(list@);
        assert(new_t == old_t.insert(i as int, sc@));
        assert forall|a: int, b: int| 0 <= a < b < new_t.len() implies text_less(new_t[a], new_t[b]) by {
            if b < i {
            } else if b == i {
            } else if a < i {
                assert(new_t[b] == old_t[b - 1]);
                if b - 1 > i {
                    lemma_text_less_transitive(sc@, old_t[i as int], old_t[b - 1]);
                }
                lemma_text_less_transitive(new_t[a], sc@, new_t[b]);
            } else if a == i {
                assert(new_t[b] == old_t[b - 1]);
                if b - 1 > i {
                    lemma_text_less_transitive(sc@, old_t[i as int], old_t[b - 1]);
                }
            } else {
                assert(new_t[a] == old_t[a - 1]);
                assert(new_t[b] == old_t[b - 1]);
            }
        }
        assert forall|k: int| 0 <= k < keys@.len() implies (#[trigger] keys@[k])@ == list@[k]@ by {
            if k < i {
            } else if k == i {
            } else {
            }
        }
        assert forall|x: Seq<char>| #[trigger] new_t.contains(x) <==> (old_t.contains(x) || x == sc@) by {
            {
                if new_t.contains(x) {
                    let j = choose|j: int| 0 <= j < new_t.len() && new_t[j] == x;
                    if j < i {
                        assert(old_t[j] == x);
                    } else if j > i {
                        assert(old_t[j - 1] == x);
                    }
                }
                if old_t.contains(x) {
                    let j = choose|j: int| 0 <= j < old_t.len() && old_t[j] == x;
                    if j < i {
                        assert(new_t[j] == x);
                    } else {
                        assert(new_t[j + 1] == x);
                    }
                }
                if x == sc@ {
                    assert(new_t[i as int] == x);
                }
            }
        }
    }
}

/// `paths` are exactly the paths of the files of `cells`.
pub open spec fn paths_of_cells(paths: Seq<Seq<char>>, cells: Seq<u64>, pattern: Seq<char>, data_h3_resolution: u8, file_h3_resolution: u8) -> bool {
    &&& forall|x: Seq<char>| #[trigger] paths.contains(x) ==> exists|c: u64| #[trigger] cells.contains(c)
        && is_dataset_path(x, pattern, c, data_h3_resolution, file_h3_resolution)
    &&& forall|c: u64| #[trigger] cells.contains(c) ==> paths.contains(dataset_path(pattern, c, data_h3_resolution, file_h3_resolution))
}

/// `x` is the path of the file of `cell`.
pub open spec fn is_dataset_path(x: Seq<char>, pattern: Seq<char>, cell: u64, data_h3_resolution: u8, file_h3_resolution: u8) -> bool {
    x == dataset_path(pattern, cell, data_h3_resolution, file_h3_resolution)
}

/// The paths of the files of `dataset` holding `cells` at
/// `data_h3_resolution`, each once and in increasing order, with the format
/// of the files. No cells need no files (`None`). An unidentified file
/// format and an unconfigured resolution fail; a configured file resolution
/// above 15 has no files.
pub fn dataset_files(dataset: &DataframeDataset, cells: &Vec<CellIndex>, data_h3_resolution: u8) -> (r: Result<
    Option<(FileFormat, Vec<String>)>,
    Error,
>)
    ensures
        cells@.len() == 0 ==> r == Ok::<Option<(FileFormat, Vec<String>)>, Error>(None),
        cells@.len() > 0 ==> match format_of_extension(path_extension(str_lowercase(str_trim(dataset.key_pattern@)))) {
            None => r matches Err(Error::UnidentifiedFileFormat(s)) && s@ == dataset.key_pattern@,
            Some(f) => match resolution_lookup(dataset.resolutions@, data_h3_resolution) {
                None => r == Err::<Option<(FileFormat, Vec<String>)>, Error>(Error::UnsupportedH3Resolution(data_h3_resolution)),
                Some(fr) => {
                    &&& fr <= MAX_RESOLUTION ==> (r matches Ok(Some((format, paths))) && format == f && texts_increasing(
                        texts_view(paths@),
                    ) && forall|x: Seq<char>| #[trigger] texts_view(paths@).contains(x) <==> exists|c: u64| #[trigger] transform_cells(
                        cells_view(cells@),
                        fr,
                    ).contains(c) && is_dataset_path(x, dataset.key_pattern@, c, data_h3_resolution, fr))
                    &&& fr > MAX_RESOLUTION ==> (r matches Ok(Some((format, paths))) && format == f && paths@.len() == 0)
                },
            },
        },
{
    if cells.len() == 0 {
        return Ok(None);
    }
    let format = match dataset.fileformat() {
        Ok(f) => f,
        Err(e) => return Err(e),
    };
    let file_h3_resolution = match dataset.file_h3_resolution(data_h3_resolution) {
        Ok(f) => f,
        Err(e) => return Err(e),
    };
    if file_h3_resolution > MAX_RESOLUTION {
        // files of an invalid resolution hold no cells
        return Ok(Some((format, Vec::new())));
    }
    let file_cells = transform_resolution(cells, file_h3_resolution);
    let ghost fc = cells_view(file_cells@);
    let ghost pattern = dataset.key_pattern@;
    let mut paths: Vec<String> = Vec::new();
    let mut keys: Vec<Vec<char>> = Vec::new();
    let n = file_cells.len();
    assert(fc.take(0).len() == 0);
    assert(texts_view(paths@).len() == 0);
    for i in 0..n
        invariant
            n == file_cells@.len(),
            fc == cells_view(file_cells@),
            pattern == dataset.key_pattern@,
            resolution_lookup(dataset.resolutions@, data_h3_resolution) == Some(file_h3_resolution),
            texts_increasing(texts_view(paths@)),
            keys@.len() == paths@.len(),
            forall|k: int| 0 <= k < keys@.len() ==> (#[trigger] keys@[k])@ == paths@[k]@,
            paths_of_cells(texts_view(paths@), fc.take(i as int), pattern, data_h3_resolution, file_h3_resolution),
    {
        let path = match dataset.build_dataset_path(file_cells[i], data_h3_resolution) {
            Ok(p) => p,
            Err(e) => return Err(e),
        };
        let ghost before = texts_view(paths@);
        let ghost c_i = file_cells@[i as int]@;
        let ghost path_text = path@;
        assert(path_text == dataset_path(pattern, c_i, data_h3_resolution, file_h3_resolution));
        insert_text_sorted(&mut paths, &mut keys, path);
        let ghost prev = fc.take(i as int);
        let ghost next = fc.take(i + 1);
        assert(next == prev.push(c_i));
        assert(paths_of_cells(before, prev, pattern, data_h3_resolution, file_h3_resolution));
        assert forall|x: Seq<char>| #[trigger] texts_view(paths@).contains(x) implies exists|c: u64| #[trigger] next.contains(c)
            && is_dataset_path(x, pattern, c, data_h3_resolution, file_h3_resolution) by {
            if x == path_text {
                assert(next[i as int] == c_i);
                assert(next.contains(c_i));
            } else {
                assert(before.contains(x));
                let c = choose|c: u64| #[trigger] prev.contains(c) && is_dataset_path(x, pattern, c, data_h3_resolution, file_h3_resolution);
                let j = choose|j: int| 0 <= j < prev.len() && prev[j] == c;
                assert(next[j] == c);
                assert(next.contains(c));
            }
        }
        assert forall|c: u64| #[trigger] next.contains(c) implies texts_view(paths@).contains(
            dataset_path(pattern, c, data_h3_resolution, file_h3_resolution),
        ) by {
            if c != c_i {
                let j = choose|j: int| 0 <= j < next.len() && next[j] == c;
                assert(prev[j] == c);
                assert(prev.contains(c));
                assert(before.contains(dataset_path(pattern, c, data_h3_resolution, file_h3_resolution)));
            }
        }
    }
    assert(fc.take(n as int) == fc);
    assert forall|x: Seq<char>| #[trigger] texts_view(paths@).contains(x) <==> exists|c: u64| #[trigger] transform_cells(
        cells_view(cells@),
        file_h3_resolution,
    ).contains(c) && is_dataset_path(x, pattern, c, data_h3_resolution, file_h3_resolution) by {
        if exists|c: u64| #[trigger] fc.contains(c) && is_dataset_path(x, pattern, c, data_h3_resolution, file_h3_resolution) {
            let c = choose|c: u64| #[trigger] fc.contains(c) && is_dataset_path(x, pattern, c, data_h3_resolution, file_h3_resolution);
            assert(texts_view(paths@).contains(dataset_path(pattern, c, data_h3_resolution, file_h3_resolution)));
        }
    }
    Ok(Some((format, paths)))
}

/// The file format of a dataset is understood.
pub open spec fn dataset_format_known(dataset: DataframeDataset) -> bool {
    format_of_extension(path_extension(str_lowercase(str_trim(dataset.key_pattern@)))) is Some
}

/// Checks that the file format of every dataset is understood; the first
/// dataset whose format is not fails with `UnidentifiedFileFormat`.
pub fn validate_datasets(datasets: &Vec<DataframeDataset>) -> (r: Result<(), Error>)
    ensures
        (forall|i: int| 0 <= i < datasets@.len() ==> dataset_format_known(#[trigger] datasets@[i])) ==> r == Ok::<(), Error>(()),
        forall|j: int| 0 <= j < datasets@.len() && !dataset_format_known(#[trigger] datasets@[j]) && (forall|i: int| 0 <= i < j ==> dataset_format_known(
            #[trigger] datasets@[i],
        )) ==> (r matches Err(Error::UnidentifiedFileFormat(s)) && s@ == datasets@[j].key_pattern@),
{
    let n = datasets.len();
    for i in 0..n
        invariant
            n == datasets@.len(),
            forall|k: int| 0 <= k < i ==> dataset_format_known(#[trigger] datasets@[k]),
    {
        match datasets[i].validate() {
            Ok(()) => {},
            Err(e) => {
                proof {
                    assert forall|j: int| 0 <= j < datasets@.len() && !dataset_format_known(#[trigger] datasets@[j])
                        && (forall|k: int| 0 <= k < j ==> dataset_format_known(#[trigger] datasets@[k])) implies j == i by {
                        if j < i {
                            assert(dataset_format_known(datasets@[j]));
                        } else if j > i {
                            assert(dataset_format_known(datasets@[i as int]));
                        }
                    }
                }
                return Err(e);
            },
        }
    }
    Ok(())
}

/// The cells at `h3_resolution` standing for `cells`, each once and in
/// increasing order.
pub fn change_cell_resolution_dedup(cells: &Vec<CellIndex>, h3_resolution: u8) -> (r: Vec<CellIndex>)
    requires
        h3_resolution <= MAX_RESOLUTION,
    ensures
        strictly_increasing(cells_view(r@)),
        forall|x: u64| cells_view(r@).contains(x) <==> transform_cells(cells_view(cells@), h3_resolution).contains(x),
{
    let out = transform_resolution(cells, h3_resolution);
    let r = sorted_dedup(&out);
    assert(index_values(out@) == cells_view(out@));
    assert(index_values(r@) == cells_view(r@));
    r
}

} // verus!
