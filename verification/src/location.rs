//! Locations as URLs: the handlers that take or return a location string.
//!
//! URL parsing and the moves between a `file:` URL and a filesystem path come
//! from the `url` crate, behind trusted wrappers whose results are named:
//! each is a function of its text alone on a given build, so the handlers'
//! contracts can tie what comes out to what went in. What a path means and
//! which directory the search returns is decided by the verified code around
//! the wrappers.

use vstd::prelude::*;
use vstd::string::StringExecFns;
use crate::finder::FsSnapshot;
use crate::finder::contains_marker;
use crate::finder::find_marked_dir;
use crate::finder::find_spec;
use crate::path::abs_string_of;
use crate::path::is_canonical_abs;
use crate::path::lemma_abs_string_injective;
use crate::path::normalize_abs;
use crate::path::normalize_path_text;
use crate::path::parse_abs_path;
use crate::path::path_to_string;
use crate::path::segs_wf;
use crate::path::views_of;

verus! {

/// Whether `url::Url::parse` accepts the string as an absolute URL: a pure
/// function of the text.
pub uninterp spec fn url_parse_ok(s: Seq<char>) -> bool;

/// The filesystem path named by a location text: the text parsed as an
/// absolute URL, converted to a path, when both steps go through.
pub uninterp spec fn file_path_of(s: Seq<char>) -> Option<Seq<char>>;

/// The `file:` URL of an absolute filesystem path, as its text; absent when
/// the path is not absolute.
pub uninterp spec fn file_url_of(p: Seq<char>) -> Option<Seq<char>>;

/// As `file_url_of`, in directory form: a trailing separator so the URL can
/// serve as a base.
pub uninterp spec fn dir_url_of(p: Seq<char>) -> Option<Seq<char>>;

/// Relies on url::Url::parse and url::Url::to_file_path: the filesystem path
/// a location text names. Parsing reads the text alone; the conversion reads
/// the parsed URL alone, so on a given build the path is a function of the
/// text, named by `file_path_of`.
#[verifier::external_body]
fn resolve_location_path(s: &str) -> (r: Option<String>)
    ensures
        !url_parse_ok(s@) ==> r is None,
        r is Some <==> file_path_of(s@) is Some,
        r matches Some(p) ==> file_path_of(s@) == Some(p@),
{
    let u = match url::Url::parse(s) {
        Ok(u) => u,
        Err(_) => return None,
    };
    match u.to_file_path() {
        Ok(p) => p.into_os_string().into_string().ok(),
        Err(()) => None,
    }
}

/// Relies on url::Url::from_file_path: the `file:` URL of an absolute
/// filesystem path, as its text, named by `file_url_of`; absent when the
/// path is not absolute.
#[verifier::external_body]
fn url_string_from_file_path(path: &str) -> (r: Option<String>)
    ensures
        r is Some <==> file_url_of(path@) is Some,
        r matches Some(u) ==> file_url_of(path@) == Some(u@),
{
    match url::Url::from_file_path(path) {
        Ok(u) => Some(String::from(u)),
        Err(()) => None,
    }
}

/// Relies on url::Url::from_directory_path: as from_file_path, with a
/// trailing separator; the text is named by `dir_url_of`.
#[verifier::external_body]
fn url_string_from_directory_path(path: &str) -> (r: Option<String>)
    ensures
        r is Some <==> dir_url_of(path@) is Some,
        r matches Some(u) ==> dir_url_of(path@) == Some(u@),
{
    match url::Url::from_directory_path(path) {
        Ok(u) => Some(String::from(u)),
        Err(()) => None,
    }
}

/// The URL the search answers with, given the start's path text: when the
/// text is a canonical absolute path, the nearest marked ancestor by
/// `find_spec`, printed and turned back into a `file:` URL; otherwise
/// nothing. The path's segments are determined by the text
/// (`lemma_abs_string_injective`).
pub open spec fn found_dir_url(
    path_text: Seq<char>,
    files: Seq<Seq<Seq<char>>>,
    names: Seq<Seq<char>>,
) -> Option<Seq<char>> {
    if is_canonical_abs(path_text) {
        let start = choose|start: Seq<Seq<char>>|
            segs_wf(start) && abs_string_of(start) == path_text;
        match find_spec(files, start, names) {
            Some(d) => file_url_of(abs_string_of(d)),
            None => None,
        }
    } else {
        None
    }
}

/// The nearest directory, from the start location upward, that holds one of
/// the candidate file names, as a `file:` URL; the filesystem is supplied as
/// a snapshot of the file paths that exist. A start location that does not
/// parse, or that names no filesystem path, yields no result rather than an
/// error; a located start has its path text brought to canonical form, is
/// searched by `find_spec`, and the found directory's URL is owed.
pub fn find_parent_dir_containing(
    start_url: &str,
    target_files: &Vec<String>,
    fs: &FsSnapshot,
) -> (r: Option<String>)
    ensures
        !url_parse_ok(start_url@) ==> r is None,
        (match r {
            Some(u) => Some(u@),
            None => None::<Seq<char>>,
        }) == (match file_path_of(start_url@) {
            Some(p) => found_dir_url(normalize_abs(p), fs@, views_of(target_files@)),
            None => None::<Seq<char>>,
        }),
        r is Some ==> exists|d: Seq<Seq<char>>|
            #[trigger] contains_marker(fs@, d, views_of(target_files@)),
{
    let p = match resolve_location_path(start_url) {
        Some(p) => p,
        None => {
            return None;
        },
    };
    let canon = normalize_path_text(p.as_str());
    let start = match parse_abs_path(canon.as_str()) {
        Some(s) => s,
        None => {
            return None;
        },
    };
    proof {
        let chosen = choose|c: Seq<Seq<char>>| segs_wf(c) && abs_string_of(c) == canon@;
        assert(segs_wf(start@) && abs_string_of(start@) == canon@);
        lemma_abs_string_injective(chosen, start@);
        assert(chosen == start@);
    }
    let d = match find_marked_dir(fs, &start, target_files) {
        Some(d) => d,
        None => {
            return None;
        },
    };
    let ds = path_to_string(&d);
    url_string_from_file_path(ds.as_str())
}

/// The working directory to report: the queried one where the query
/// succeeded, the current-directory placeholder otherwise.
pub fn working_directory_or_fallback(cwd: Option<String>) -> (r: String)
    ensures
        r@ == match cwd {
            Some(p) => p@,
            None => "."@,
        },
{
    match cwd {
        Some(p) => p,
        None => String::from_str("."),
    }
}

/// The working directory as a directory URL: the queried directory's URL, or
/// the placeholder's where the query failed. A result must come back for the
/// process to go on: the caller treats an absent one as an unrecoverable
/// environment and aborts, as nothing useful can be reported then.
pub fn initial_working_directory(cwd: Option<String>) -> (r: Option<String>)
    ensures
        (match r {
            Some(u) => Some(u@),
            None => None::<Seq<char>>,
        }) == dir_url_of(
            match cwd {
                Some(p) => p@,
                None => "."@,
            },
        ),
{
    let p = working_directory_or_fallback(cwd);
    url_string_from_directory_path(p.as_str())
}

} // verus!
