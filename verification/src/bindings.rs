//! The calls this library makes into other crates and into parts of std that
//! carry no specification. Each contract below is taken on trust: it states
//! what the called function's source or documentation shows, and every proof
//! that uses it rests on it.

use base64ct::Encoding;
use std::fmt::Write;
use vstd::prelude::*;

verus! {

/// `serde_json::Error`, which is carried through and never looked into.
#[verifier::external_type_specification]
#[verifier::external_body]
pub struct ExJsonError(serde_json::Error);

/// The text that `String::from_utf8_lossy` decodes `bytes` to.
pub uninterp spec fn lossy_text(bytes: Seq<u8>) -> Seq<char>;

/// The JSON string literal that `serde_json::to_string` writes for `text`,
/// quotes included.
pub uninterp spec fn json_string_text(text: Seq<char>) -> Seq<char>;

/// The padded standard Base64 text that `base64ct::Base64` encodes `bytes` to.
pub uninterp spec fn base64_text(bytes: Seq<u8>) -> Seq<char>;

/// What `cookie::Cookie::parse` reads in `raw`, a `Set-Cookie` value: the
/// cookie's name, its value, and the text the cookie is rendered to. `None`
/// where `raw` holds no cookie or the cookie cannot be rendered.
pub uninterp spec fn cookie_parts(raw: Seq<char>) -> Option<(Seq<char>, Seq<char>, Seq<char>)>;

/// The normal form that `Url::parse` gives `raw`, or `None` where it rejects
/// `raw`.
pub uninterp spec fn url_text(raw: Seq<char>) -> Option<Seq<char>>;

/// Where the value of a cookie ends in the cookie's text: after the name,
/// an equals sign and the value.
pub open spec fn value_end(name: Seq<char>, value: Seq<char>) -> int {
    (name.len() + 1 + value.len()) as int
}

/// The length of the padded Base64 text of `n` bytes: four characters for
/// every three bytes begun.
pub open spec fn base64_len(n: nat) -> nat {
    4 * ((n + 2) / 3)
}

/// Calls `String::from_utf8_lossy`, which decodes UTF-8 and puts the
/// replacement character in place of what is not UTF-8. The result depends on
/// the bytes alone; the contract gives it its name and claims no more.
#[verifier::external_body]
pub(crate) fn utf8_lossy(bytes: &[u8]) -> (text: String)
    ensures
        text@ == lossy_text(bytes@),
{
    String::from_utf8_lossy(bytes).into_owned()
}

/// Calls `serde_json::to_string` on a string slice. The contract claims that
/// the call succeeds: it writes into memory, and for a string slice
/// serde_json has no failure other than a failed write. The literal depends on
/// the text alone.
#[verifier::external_body]
pub(crate) fn json_string(text: &str) -> (out: Result<String, serde_json::Error>)
    ensures
        out is Ok,
        out matches Ok(literal) ==> literal@ == json_string_text(text@),
{
    serde_json::to_string(text)
}

/// Calls `base64ct::Base64::encode_string`, which panics where four times the
/// input's length does not fit in `usize`; `requires` leaves that out. The
/// contract names the text and states its length as the crate computes it.
#[verifier::external_body]
pub(crate) fn base64_encode(bytes: &[u8]) -> (text: String)
    requires
        bytes@.len() * 4 <= usize::MAX,
    ensures
        text@ == base64_text(bytes@),
        text@.len() == base64_len(bytes@.len()),
{
    base64ct::Base64::encode_string(bytes)
}

/// Calls `cookie::Cookie::parse` and hands the cookie back as plain values:
/// its name, its value and its rendering by `Display`. The parts depend on
/// `raw` alone. The contract also states how the crate renders a cookie: the
/// name, an equals sign, the value, and then the attributes.
#[verifier::external_body]
pub(crate) fn cookie_parse(raw: &str) -> (out: Option<(String, String, String)>)
    ensures
        out.is_some() == cookie_parts(raw@).is_some(),
        out matches Some(parts) ==> (parts.0@, parts.1@, parts.2@) == cookie_parts(raw@).unwrap(),
        out matches Some(parts) ==> parts.0@ + seq!['='] + parts.1@ == parts.2@.subrange(
            0,
            value_end(parts.0@, parts.1@),
        ) && value_end(parts.0@, parts.1@) <= parts.2@.len(),
{
    let cookie = cookie::Cookie::parse(raw.to_owned()).ok()?;
    let mut text = String::new();
    write!(text, "{}", cookie).ok()?;
    Some((cookie.name().to_owned(), cookie.value().to_owned(), text))
}

/// Calls `reqwest::Url::parse` and hands the URL back as the text it holds.
/// The result depends on `raw` alone; the contract gives it its name and
/// claims no more.
#[verifier::external_body]
pub(crate) fn url_parse(raw: &str) -> (out: Option<String>)
    ensures
        out.is_some() == url_text(raw@).is_some(),
        out matches Some(text) ==> text@ == url_text(raw@).unwrap(),
{
    reqwest::Url::parse(raw).ok().map(String::from)
}

} // verus!
