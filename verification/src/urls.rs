//! What the workflows read of URLs, computed by the `url` crate.
use vstd::prelude::*;

verus! {

/// The parts of a parsed URL that the library reads.
#[derive(Debug, Clone)]
pub struct UrlParts {
    pub scheme: String,
    pub host: Option<String>,
    pub port: Option<u16>,
    pub path: String,
    pub query: Option<String>,
}

/// `Url::parse(s)`, when it succeeds, seen as its scheme, host, explicit
/// port, path and query.
pub uninterp spec fn url_parts_of(s: Seq<char>) -> Option<(Seq<char>, Option<Seq<char>>, Option<u16>, Seq<char>, Option<Seq<char>>)>;

/// The message of the `ParseError` that `Url::parse(s)` fails with.
pub uninterp spec fn url_parse_error(s: Seq<char>) -> Seq<char>;

/// `url`, parsed, with `name=value` appended to its query and serialized.
pub uninterp spec fn url_with_query_pair(url: Seq<char>, name: Seq<char>, value: Seq<char>) -> Seq<char>;

/// The upper-case hexadecimal digit of `v` (below 16), as a byte.
pub open spec fn upper_hex_digit(v: u8) -> u8 {
    if v < 10 {
        (48 + v) as u8
    } else {
        (55 + v) as u8
    }
}

/// A byte that the form serializer keeps as it is: ASCII letters and
/// digits, `*`, `-`, `.` and `_`.
pub open spec fn form_byte_unchanged(b: u8) -> bool {
    ||| b == 42 || b == 45 || b == 46 || b == 95
    ||| 48 <= b <= 57
    ||| 65 <= b <= 90
    ||| 97 <= b <= 122
}

/// What the form serializer writes for one byte: the byte itself, `+` for
/// a space, else `%` and two upper-case hexadecimal digits.
pub open spec fn form_byte(b: u8) -> Seq<u8> {
    if form_byte_unchanged(b) {
        seq![b]
    } else if b == 32 {
        seq![43u8]
    } else {
        seq![37u8, upper_hex_digit(b / 16), upper_hex_digit(b % 16)]
    }
}

/// The `application/x-www-form-urlencoded` byte serialization of `bytes`.
pub open spec fn form_serialized(bytes: Seq<u8>) -> Seq<u8>
    decreases bytes.len(),
{
    if bytes.len() == 0 {
        Seq::empty()
    } else {
        form_byte(bytes[0]) + form_serialized(bytes.drop_first())
    }
}

/// The `application/x-www-form-urlencoded` serialization of one pair: the
/// UTF-8 bytes of the name and of the value, each serialized, joined by `=`.
pub open spec fn form_pair(name: Seq<char>, value: Seq<char>) -> Seq<u8> {
    form_serialized(vstd::utf8::encode_utf8(name)) + seq![61u8] + form_serialized(
        vstd::utf8::encode_utf8(value),
    )
}

pub open spec fn opt_text(o: Option<String>) -> Option<Seq<char>> {
    match o {
        Some(s) => Some(s@),
        None => None,
    }
}

pub open spec fn parts_view(u: UrlParts) -> (Seq<char>, Option<Seq<char>>, Option<u16>, Seq<char>, Option<Seq<char>>) {
    (u.scheme@, opt_text(u.host), u.port, u.path@, opt_text(u.query))
}

/// The port a scheme uses when the URL names none (`url`'s `default_port`).
pub open spec fn default_port(scheme: Seq<char>) -> Option<u16> {
    if scheme == "http"@ || scheme == "ws"@ {
        Some(80)
    } else if scheme == "https"@ || scheme == "wss"@ {
        Some(443)
    } else if scheme == "ftp"@ {
        Some(21)
    } else {
        None
    }
}

/// `Url::parse`, read through `scheme`, `host_str`, `port`, `path` and
/// `query`.  What it accepts and how it normalises is named, not stated;
/// a failure carries the `ParseError` message.
#[verifier::external_body]
pub fn parse_url(s: &str) -> (r: Result<UrlParts, String>)
    ensures
        match r {
            Ok(u) => url_parts_of(s@) == Some(parts_view(u)),
            Err(e) => url_parts_of(s@) is None && e@ == url_parse_error(s@),
        },
{
    match url::Url::parse(s) {
        Ok(u) => Ok(UrlParts {
            scheme: u.scheme().to_owned(),
            host: u.host_str().map(|h| h.to_owned()),
            port: u.port(),
            path: u.path().to_owned(),
            query: u.query().map(|q| q.to_owned()),
        }),
        Err(e) => Err(e.to_string()),
    }
}

/// `Url::parse(url)`, then `query_pairs_mut().append_pair(name, value)`,
/// then the URL serialized.  The serialization is named, not stated.
#[verifier::external_body]
pub fn url_append_query_pair(url: &str, name: &str, value: &str) -> (r: Result<String, String>)
    ensures
        match r {
            Ok(u) => url_parts_of(url@) is Some && u@ == url_with_query_pair(url@, name@, value@),
            Err(e) => url_parts_of(url@) is None && e@ == url_parse_error(url@),
        },
{
    let mut parsed = url::Url::parse(url).map_err(|e| e.to_string())?;
    parsed.query_pairs_mut().append_pair(name, value);
    Ok(parsed.into())
}

/// `form_urlencoded::Serializer` with one `append_pair(name, value)`, as
/// bytes: the pair serialized as `form_pair` states it.
#[verifier::external_body]
pub fn form_encode_pair(name: &str, value: &str) -> (r: Vec<u8>)
    ensures
        r@ == form_pair(name@, value@),
{
    url::form_urlencoded::Serializer::new(String::new()).append_pair(name, value).finish().into_bytes()
}

} // verus!
