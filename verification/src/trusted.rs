//! Bindings to the outside crates that the library leans on: the TOML
//! decoder, the UUID and timestamp parsers and printers, and the markdown
//! renderer.  Each executable item here is `external_body`: its contract is
//! trusted, its body only makes the outside call and converts values.
use vstd::prelude::*;

use crate::frontmatter::Timestamp;

verus! {

// ---------------------------------------------------------------------------
// TOML decoding (crate `toml`)
// ---------------------------------------------------------------------------
#[verifier::external_type_specification]
#[verifier::external_body]
pub struct ExTomlValue(toml::Value);

#[verifier::external_type_specification]
#[verifier::external_body]
pub struct ExTomlDeError(toml::de::Error);

/// What `toml::from_str::<toml::Value>` yields on a document: `None` stands
/// for a parse error.  The result depends on the text alone.
pub uninterp spec fn toml_parsed(s: Seq<char>) -> Option<toml::Value>;

/// What `toml::Value::get` yields for a string key.  The value is a tree;
/// this names the subtree under the key, `None` when the value is not a
/// table or lacks the key.
pub uninterp spec fn toml_index(v: toml::Value, key: Seq<char>) -> Option<toml::Value>;

/// What `toml::Value::as_str` yields: the characters of a string value,
/// `None` for every other kind of value.
pub uninterp spec fn toml_str_of(v: toml::Value) -> Option<Seq<char>>;

/// What `toml::Value::as_bool` yields: the boolean value, `None` for every
/// other kind of value.
pub uninterp spec fn toml_bool_of(v: toml::Value) -> Option<bool>;

/// Relies on `toml::from_str::<toml::Value>`: parses a TOML document,
/// deterministically in the text.
#[verifier::external_body]
pub(crate) fn toml_from_str(s: &str) -> (r: Result<toml::Value, toml::de::Error>)
    ensures
        r is Ok <==> toml_parsed(s@) is Some,
        r matches Ok(v) ==> toml_parsed(s@) == Some(v),
{
    toml::from_str::<toml::Value>(s)
}

/// Relies on `toml::Value::get` with a string index: looks the key up when
/// the value is a table, deterministically in the value and the key.
#[verifier::external_body]
pub(crate) fn toml_get(v: &toml::Value, key: &str) -> (r: Option<toml::Value>)
    ensures
        r == toml_index(*v, key@),
{
    v.get(key).cloned()
}

/// Relies on `toml::Value::as_str`: the string payload of a string value.
#[verifier::external_body]
pub(crate) fn toml_as_str(v: &toml::Value) -> (r: Option<String>)
    ensures
        r matches Some(s) ==> toml_str_of(*v) == Some(s@),
        r is None ==> toml_str_of(*v) is None,
{
    v.as_str().map(|s| s.to_owned())
}

/// Relies on `toml::Value::as_bool`: the payload of a boolean value.
#[verifier::external_body]
pub(crate) fn toml_as_bool(v: &toml::Value) -> (r: Option<bool>)
    ensures
        r == toml_bool_of(*v),
{
    v.as_bool()
}

/// Relies on `toml::de::Error`'s `Display` (through `ToString`) for the
/// human-readable reason of a decode failure.
#[verifier::external_body]
pub(crate) fn toml_error_message(e: &toml::de::Error) -> (r: String) {
    e.to_string()
}

// ---------------------------------------------------------------------------
// Identifiers (crate `uuid`)
// ---------------------------------------------------------------------------
/// What `uuid::Uuid::parse_str` yields, as the 128-bit value of the UUID:
/// `None` stands for a rejected string.
pub uninterp spec fn uuid_of(s: Seq<char>) -> Option<u128>;

/// What a UUID given by its 128-bit value looks like under `uuid`'s
/// `Display`: lowercase hyphenated form.
pub uninterp spec fn uuid_str_of(id: u128) -> Seq<char>;

/// Relies on `uuid::Uuid::parse_str` and `Uuid::as_u128`: parses the textual
/// forms the crate accepts, deterministically in the text.
#[verifier::external_body]
pub(crate) fn parse_uuid(s: &str) -> (r: Option<u128>)
    ensures
        r == uuid_of(s@),
{
    uuid::Uuid::parse_str(s).ok().map(|u| u.as_u128())
}

/// Relies on `uuid::Uuid::from_u128` and the crate's `Display`: the
/// hyphenated form of the identifier.
#[verifier::external_body]
pub(crate) fn format_uuid(id: u128) -> (r: String)
    ensures
        r@ == uuid_str_of(id),
{
    uuid::Uuid::from_u128(id).to_string()
}

/// Relies on `uuid::Uuid::new_v4`: a randomly drawn identifier, of which
/// nothing is promised.
#[verifier::external_body]
pub(crate) fn new_uuid_v4() -> u128 {
    uuid::Uuid::new_v4().as_u128()
}

// ---------------------------------------------------------------------------
// Timestamps (crate `chrono`)
// ---------------------------------------------------------------------------
/// What `chrono::DateTime::parse_from_rfc3339` yields, as Unix seconds and
/// subsecond nanoseconds: `None` stands for a rejected string.
pub uninterp spec fn rfc3339_of(s: Seq<char>) -> Option<(i64, u32)>;

/// What a timestamp looks like under `chrono`'s default `Display` for
/// `DateTime<Utc>`.
pub uninterp spec fn datetime_str_of(secs: i64, nanos: u32) -> Seq<char>;

/// Relies on `chrono::DateTime::parse_from_rfc3339`, `DateTime::timestamp`
/// and `DateTime::timestamp_subsec_nanos`: parses an RFC 3339 timestamp,
/// deterministically in the text.
#[verifier::external_body]
pub(crate) fn parse_rfc3339(s: &str) -> (r: Option<Timestamp>)
    ensures
        r matches Some(t) ==> rfc3339_of(s@) == Some((t.secs, t.nanos)),
        r is None ==> rfc3339_of(s@) is None,
{
    match chrono::DateTime::parse_from_rfc3339(s) {
        Ok(dt) => Some(Timestamp { secs: dt.timestamp(), nanos: dt.timestamp_subsec_nanos() }),
        Err(_) => None,
    }
}

/// Relies on `chrono::Utc::now`: the clock's reading, of which nothing is
/// promised.
#[verifier::external_body]
pub(crate) fn now_timestamp() -> Timestamp {
    let dt = chrono::Utc::now();
    Timestamp { secs: dt.timestamp(), nanos: dt.timestamp_subsec_nanos() }
}

/// Relies on `chrono::DateTime::<Utc>::from_timestamp` and the crate's
/// default `Display`: the textual form of the instant, deterministic in the
/// two numbers; an instant out of `chrono`'s range prints as the empty
/// string.
#[verifier::external_body]
pub(crate) fn format_timestamp(t: &Timestamp) -> (r: String)
    ensures
        r@ == datetime_str_of(t.secs, t.nanos),
{
    match chrono::DateTime::<chrono::Utc>::from_timestamp(t.secs, t.nanos) {
        Some(dt) => dt.to_string(),
        None => String::new(),
    }
}

// ---------------------------------------------------------------------------
// Markdown rendering (crate `comrak`)
// ---------------------------------------------------------------------------
/// What `comrak::markdown_to_html` yields under the default options: a pure
/// function of the markdown text.
pub uninterp spec fn html_of(md: Seq<char>) -> Seq<char>;

/// Relies on `comrak::markdown_to_html` with `comrak::Options::default()`:
/// renders markdown to HTML, deterministically in the text.
#[verifier::external_body]
pub(crate) fn markdown_html(md: &str) -> (r: String)
    ensures
        r@ == html_of(md@),
{
    comrak::markdown_to_html(md, &comrak::Options::default())
}

} // verus!
