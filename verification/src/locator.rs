//! Resolving a track's file-scheme location URI to a filesystem path.
//!
//! The URI grammar and the path conversion belong to the `url` crate; its
//! results are named by uninterpreted spec functions, and the engine's
//! contracts are exact over those names.

use vstd::prelude::*;

verus! {

/// The scheme of `s` read as an absolute URL, `None` when `s` is not one.
pub uninterp spec fn uri_scheme_of(s: Seq<char>) -> Option<Seq<char>>;

/// The filesystem path that `s` read as an absolute URL converts to, `None`
/// when parsing or the conversion fails.
pub uninterp spec fn file_path_of(s: Seq<char>) -> Option<Seq<char>>;

/// Relies on url::Url::parse and url::Url::scheme: the parse result of a URI
/// text, and with it the scheme, depends on the text alone; `None` exactly
/// when the text is not a valid absolute URL.
#[verifier::external_body]
fn uri_scheme(uri: &str) -> (r: Option<String>)
    ensures
        r is Some <==> uri_scheme_of(uri@) is Some,
        r is Some ==> r.unwrap()@ == uri_scheme_of(uri@).unwrap(),
{
    match url::Url::parse(uri) {
        Ok(u) => Some(u.scheme().to_string()),
        Err(_) => None,
    }
}

/// Relies on url::Url::parse and url::Url::to_file_path: the path a URI text
/// converts to depends on the text alone; `None` exactly when the text is not
/// a valid absolute URL, the conversion fails (host neither empty nor
/// localhost, or an invalid decoded path), or the path is not valid UTF-8.
#[verifier::external_body]
fn uri_file_path(uri: &str) -> (r: Option<String>)
    ensures
        r is Some <==> file_path_of(uri@) is Some,
        r is Some ==> r.unwrap()@ == file_path_of(uri@).unwrap(),
{
    match url::Url::parse(uri) {
        Ok(u) => match u.to_file_path() {
            Ok(p) => match p.to_str() {
                Some(s) => Some(s.to_string()),
                None => None,
            },
            Err(()) => None,
        },
        Err(_) => None,
    }
}

/// The resolved path of a track location: the converted filesystem path when
/// the location is a file-scheme URI, `None` otherwise.
pub open spec fn resolved_of(uri: Seq<char>) -> Option<Seq<char>> {
    if uri_scheme_of(uri) == Some("file"@) {
        file_path_of(uri)
    } else {
        None
    }
}

/// Resolves a location URI to a filesystem path. A text that is not an
/// absolute URL, a scheme other than `file`, and a failed conversion all
/// yield `None`: such a location is not checkable, never an error.
pub fn resolve_location(uri: &str) -> (r: Option<String>)
    ensures
        r is Some <==> resolved_of(uri@) is Some,
        r is Some ==> r.unwrap()@ == resolved_of(uri@).unwrap(),
{
    match uri_scheme(uri) {
        Some(sch) => {
            let file_scheme = "file".to_owned();
            if sch.eq(&file_scheme) {
                proof {
                    assert(uri_scheme_of(uri@) == Some("file"@));
                }
                uri_file_path(uri)
            } else {
                proof {
                    assert(uri_scheme_of(uri@) != Some("file"@));
                }
                None
            }
        },
        None => None,
    }
}

} // verus!
