//! File formats of datasets, told by the file name.
use vstd::prelude::*;
use vstd::string::StringExecFns;
use crate::routing::error::Error;
use crate::routing::text::{str_lowercase, str_trim, to_lowercase, trim, str_eq, is_ascii_text, ascii_lowercase};

verus! {

/// The formats datasets can be stored in.
#[derive(PartialEq, Eq, Debug, Clone, Copy, Structural)]
pub enum FileFormat {
    ArrowIPC,
    Parquet,
}

/// The extension of a path, as `std::path::Path::extension` gives it: the
/// part of the file name after its last dot, if any.
pub uninterp spec fn path_extension(path: Seq<char>) -> Option<Seq<char>>;

/// The position of the last `c` in `s`, if there is one.
pub open spec fn last_index_of(s: Seq<char>, c: char) -> Option<int>
    decreases s.len(),
{
    if s.len() == 0 {
        None
    } else if s.last() == c {
        Some(s.len() - 1)
    } else {
        last_index_of(s.drop_last(), c)
    }
}

/// The file name of a plain path: one without a backslash or `:`, not ending in
/// `/`, whose last `/`-separated part is neither `.` nor `..`; that part is
/// the file name. `None` for other paths.
pub open spec fn plain_file_name(path: Seq<char>) -> Option<Seq<char>> {
    if path.len() > 0 && path.last() != '/' && !path.contains('\\') && !path.contains(':') {
        let name = match last_index_of(path, '/') {
            Some(i) => path.subrange(i + 1, path.len() as int),
            None => path,
        };
        if name != "."@ && name != ".."@ {
            Some(name)
        } else {
            None
        }
    } else {
        None
    }
}

/// The extension of a file name: the part after its last dot; `None` when
/// it has no dot, or its only dot is the first character.
pub open spec fn extension_of_name(name: Seq<char>) -> Option<Seq<char>> {
    match last_index_of(name, '.') {
        Some(d) => if d == 0 {
            None
        } else {
            Some(name.subrange(d + 1, name.len() as int))
        },
        None => None,
    }
}

/// The format a file extension stands for.
pub open spec fn format_of_extension(extension: Option<Seq<char>>) -> Option<FileFormat> {
    match extension {
        Some(e) => if e == "arrow"@ {
            Some(FileFormat::ArrowIPC)
        } else if e == "parquet"@ || e == "pq"@ {
            Some(FileFormat::Parquet)
        } else {
            None
        },
        None => None,
    }
}

/// The file extensions of dataset formats: `arrow` is Arrow IPC, `parquet`
/// and `pq` are Parquet; no other extension, and no extension at all, names
/// a format.
pub proof fn lemma_format_extensions()
    ensures
        format_of_extension(Some("arrow"@)) == Some(FileFormat::ArrowIPC),
        format_of_extension(Some("parquet"@)) == Some(FileFormat::Parquet),
        format_of_extension(Some("pq"@)) == Some(FileFormat::Parquet),
        format_of_extension(None) is None,
        forall|e: Seq<char>| #[trigger] format_of_extension(Some(e)) is Some ==> (e == "arrow"@ || e == "parquet"@ || e == "pq"@),
{
    reveal_strlit("arrow");
    reveal_strlit("parquet");
    reveal_strlit("pq");
    assert("arrow"@.len() == 5);
    assert("parquet"@.len() == 7);
    assert("pq"@.len() == 2);
}

/// The characters of an optional string.
pub open spec fn opt_chars(s: Option<String>) -> Option<Seq<char>> {
    match s {
        Some(s) => Some(s@),
        None => None,
    }
}

/// Calls `std::path::Path::extension` and converts the extension to a `String`.
///
/// Claims that the result is the named extension of `path`. As `path` is
/// valid UTF-8, so is its extension. For a plain path (see
/// [`plain_file_name`]) it also claims what the documentation of
/// `extension` and `file_name` states: the file name is the last part of the
/// path, and the extension is the part of it after its last dot, none when
/// it has no dot or begins with its only dot. Other paths (with a backslash
/// or `:`, whose reading differs between platforms, or ending in `/`, `.` or
/// `..`) are left to the name.
#[verifier::external_body]
fn file_extension(path: &str) -> (r: Option<String>)
    ensures
        opt_chars(r) == path_extension(path@),
        plain_file_name(path@) matches Some(name) ==> opt_chars(r) == extension_of_name(name),
{
    std::path::Path::new(path).extension().and_then(|os| os.to_str()).map(|s| s.to_string())
}

impl FileFormat {
    /// The format of a file given the extension of its normalized name:
    /// `arrow` is Arrow IPC, `parquet` and `pq` are Parquet. Other
    /// extensions, or none, fail with `UnidentifiedFileFormat(filename)`.
    pub fn from_extension(extension: Option<String>, filename: &str) -> (r: Result<FileFormat, Error>)
        ensures
            match format_of_extension(opt_chars(extension)) {
                Some(f) => r == Ok::<FileFormat, Error>(f),
                None => r matches Err(Error::UnidentifiedFileFormat(s)) && s@ == filename@,
            },
    {
        match extension {
            Some(e) => {
                if str_eq(e.as_str(), "arrow") {
                    Ok(FileFormat::ArrowIPC)
                } else if str_eq(e.as_str(), "parquet") || str_eq(e.as_str(), "pq") {
                    Ok(FileFormat::Parquet)
                } else {
                    Err(Error::UnidentifiedFileFormat(String::from_str(filename)))
                }
            },
            None => Err(Error::UnidentifiedFileFormat(String::from_str(filename))),
        }
    }

    /// The format of a file given its name: the extension of the trimmed,
    /// lower-cased name decides (see [`FileFormat::from_extension`]).
    pub fn from_filename(filename: &str) -> (r: Result<FileFormat, Error>)
        ensures
            match format_of_extension(path_extension(str_lowercase(str_trim(filename@)))) {
                Some(f) => r == Ok::<FileFormat, Error>(f),
                None => r matches Err(Error::UnidentifiedFileFormat(s)) && s@ == filename@,
            },
            is_ascii_text(str_trim(filename@)) ==> (plain_file_name(ascii_lowercase(str_trim(filename@))) matches Some(name) ==>
                match format_of_extension(extension_of_name(name)) {
                    Some(f) => r == Ok::<FileFormat, Error>(f),
                    None => r matches Err(Error::UnidentifiedFileFormat(s)) && s@ == filename@,
                }),
    {
        let normalized_filename = to_lowercase(trim(filename));
        let extension = file_extension(normalized_filename.as_str());
        FileFormat::from_extension(extension, filename)
    }
}

} // verus!
