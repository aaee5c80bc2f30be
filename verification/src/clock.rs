use vstd::prelude::*;

verus! {

// ---------------------------------------------------------------------------
// The library's seams to the outside crates that its logic computes with:
// fresh identifiers, the wall clock, media-type parsing and URL parsing.
// Each is a thin wrapper whose contract states what the outside source
// shows, and no more.
// ---------------------------------------------------------------------------

/// Whether a string parses as a well-formed media type, as the `mime`
/// crate's grammar decides it. The answer depends on the characters alone.
pub uninterp spec fn mime_is_well_formed(s: Seq<char>) -> bool;

/// Relies on `mime`'s `FromStr` impl for `Mime`, whose parser is a pure
/// function of its input string.
#[verifier::external_body]
pub fn parse_mime_type(s: &str) -> (r: bool)
    ensures
        r == mime_is_well_formed(s@),
{
    s.parse::<mime::Mime>().is_ok()
}

/// The path component of an absolute URL, as the `url` crate parses it;
/// `None` when the string is not an absolute URL. The answer depends on the
/// characters alone.
pub uninterp spec fn url_path_of(s: Seq<char>) -> Option<Seq<char>>;

/// Relies on `url::Url::parse` (a pure function of its input, with the
/// default options) and `url::Url::path`, which returns the parsed path
/// component.
#[verifier::external_body]
pub fn parse_url_path(s: &str) -> (r: Option<String>)
    ensures
        match r {
            Some(p) => url_path_of(s@) == Some(p@),
            None => url_path_of(s@) == None::<Seq<char>>,
        },
{
    match url::Url::parse(s) {
        Ok(u) => Some(u.path().to_string()),
        Err(_) => None,
    }
}

/// Relies on `uuid::Uuid::new_v4` and its `Display` impl: a fresh random
/// version-4 identifier, rendered in the hyphenated form of 36 characters.
/// Nothing is assumed about which identifier comes back.
#[verifier::external_body]
pub fn new_token() -> (r: String)
    ensures
        r@.len() == 36,
{
    uuid::Uuid::new_v4().to_string()
}

/// Relies on `chrono::Utc::now` and `DateTime::timestamp_millis`: the wall
/// clock in milliseconds since the Unix epoch. Nothing is assumed about its
/// value.
#[verifier::external_body]
pub fn now_millis() -> i64 {
    chrono::Utc::now().timestamp_millis()
}

} // verus!
