//! Argument checks and request-text conversions of the tool server.
use base64::Engine;
use crate::css_escape::concat_chars;
use crate::inputs::{
    ProxyHistoryInput, ProxyInterceptRuleBooleanOperatorInput, ProxyInterceptRuleInput,
    ProxyInterceptRuleMatchTypeInput, ProxyInterceptRuleRelationshipInput, ProxyRuleActionInput,
    ProxyRulePhaseInput,
};
use crate::payload::{decimal, decimal_chars};
use crate::proto::{PageRequest, ProxyHistoryRequest, ProxyInterceptRule};
use crate::text::{chars_of, string_from_chars};
use vstd::prelude::*;

verus! {

pub const DEFAULT_MAX_BODY_LENGTH: usize = 4096;
pub const MAX_PAGE_SIZE: u32 = 500;
pub const MAX_KOTLIN_INDEX: u32 = 2147483647;

fn text_of(lit: &str) -> (r: String)
    ensures
        r@ == lit@,
{
    lit.to_owned()
}

// ---------------------------------------------------------------------------
// Argument checks
// ---------------------------------------------------------------------------

/// An index the Kotlin side can hold (at most `i32::MAX`).
pub fn validated_index(index: u32) -> (r: Result<u32, &'static str>)
    ensures
        index <= MAX_KOTLIN_INDEX ==> r == Ok::<u32, &'static str>(index),
        index > MAX_KOTLIN_INDEX ==> (r matches Err(e) && e@ == "index must be at most 2147483647"@),
{
    if index > MAX_KOTLIN_INDEX {
        Err("index must be at most 2147483647")
    } else {
        Ok(index)
    }
}

/// A page size for graph queries: 100 by default, else 1 to 500.
pub fn validated_graph_limit(limit: Option<u32>) -> (r: Result<u32, &'static str>)
    ensures
        ({
            let l = match limit {
                Some(l) => l,
                None => 100,
            };
            &&& 1 <= l <= MAX_PAGE_SIZE ==> r == Ok::<u32, &'static str>(l)
            &&& !(1 <= l <= MAX_PAGE_SIZE) ==> (r matches Err(e) && e@
                == "limit must be between 1 and 500"@)
        }),
{
    let l = match limit {
        Some(l) => l,
        None => 100,
    };
    if 1 <= l && l <= MAX_PAGE_SIZE {
        Ok(l)
    } else {
        Err("limit must be between 1 and 500")
    }
}

/// An indexing mode other than `off` needs the site graph enabled.
pub fn validate_sitegraph_mode(sitegraph_enabled: bool, mode: &str) -> (r: Result<(), String>)
    ensures
        (sitegraph_enabled || mode@ == "off"@) ==> r is Ok,
        !(sitegraph_enabled || mode@ == "off"@) ==> (r matches Err(e) && e@
            == "sitegraph must be enabled before selecting an indexing mode"@),
{
    if sitegraph_enabled || crate::text::chars_eq(chars_of(mode).as_slice(), chars_of("off").as_slice()) {
        Ok(())
    } else {
        Err(text_of("sitegraph must be enabled before selecting an indexing mode"))
    }
}

/// The dotted name of a decoder operation given in its legacy form.
pub open spec fn decoder_operation(op: Seq<char>) -> Seq<char> {
    if op == "base64_encode"@ {
        "base64.encode"@
    } else if op == "base64_decode"@ {
        "base64.decode"@
    } else if op == "base64url_encode"@ {
        "base64url.encode"@
    } else if op == "base64url_decode"@ {
        "base64url.decode"@
    } else if op == "hex_encode"@ {
        "hex.encode"@
    } else if op == "hex_decode"@ {
        "hex.decode"@
    } else if op == "url_encode"@ {
        "url.encode"@
    } else if op == "url_decode"@ {
        "url.decode"@
    } else {
        op
    }
}

fn is_lit(s: &str, lit: &str) -> (r: bool)
    ensures
        r == (s@ == lit@),
{
    crate::text::chars_eq(chars_of(s).as_slice(), chars_of(lit).as_slice())
}

pub fn normalize_decoder_operation(operation: &str) -> (r: &str)
    ensures
        r@ == decoder_operation(operation@),
{
    if is_lit(operation, "base64_encode") {
        "base64.encode"
    } else if is_lit(operation, "base64_decode") {
        "base64.decode"
    } else if is_lit(operation, "base64url_encode") {
        "base64url.encode"
    } else if is_lit(operation, "base64url_decode") {
        "base64url.decode"
    } else if is_lit(operation, "hex_encode") {
        "hex.encode"
    } else if is_lit(operation, "hex_decode") {
        "hex.decode"
    } else if is_lit(operation, "url_encode") {
        "url.encode"
    } else if is_lit(operation, "url_decode") {
        "url.decode"
    } else {
        operation
    }
}

/// A wire count converted to `usize`, or a protocol error naming it.
pub fn usize_value(value: u64, name: &str) -> (r: Result<usize, String>)
    ensures
        value <= usize::MAX ==> r == Ok::<usize, String>(value as usize),
        value > usize::MAX ==> (r matches Err(e) && e@ == name@ + " exceeds usize"@),
{
    if value <= usize::MAX as u64 {
        Ok(value as usize)
    } else {
        let v = concat_chars(chars_of(name), chars_of(" exceeds usize").as_slice());
        Err(string_from_chars(v.as_slice()))
    }
}

/// `Path::with_extension`: the path with its file extension replaced.
pub uninterp spec fn path_with_extension(path: Seq<char>, ext: Seq<char>) -> Seq<char>;

/// An extension holds no path separator (`/`, nor `\\` where that is one).
pub open spec fn no_separator(ext: Seq<char>) -> bool {
    forall|k: int| 0 <= k < ext.len() ==> #[trigger] ext[k] != '/' && ext[k] != '\\'
}

/// `Path::with_extension`, on paths held as text.  The path grammar is
/// named, not stated.  std panics on an extension with a path separator,
/// which is left out.
#[verifier::external_body]
fn with_extension(path: &str, ext: &str) -> (r: String)
    requires
        no_separator(ext@),
    ensures
        r@ == path_with_extension(path@, ext@),
{
    std::path::Path::new(path).with_extension(ext).to_string_lossy().into_owned()
}

/// Where a running graph daemon listens, and the token it expects.
#[derive(Debug, Clone)]
pub struct EndpointFile {
    pub address: String,
    pub token: String,
}

/// The largest frame, in bytes, that the daemon protocol carries.
pub const MAX_FRAME_BYTES: usize = 134217728;

/// A frame read from the wire is usable: not empty, and at most
/// `MAX_FRAME_BYTES` long (`len` counts the frame's newline too).
pub fn frame_size_ok(len: usize) -> (r: bool)
    ensures
        r == (0 < len <= MAX_FRAME_BYTES),
{
    len != 0 && len <= MAX_FRAME_BYTES
}

/// Where the daemon of a graph database publishes its endpoint.
pub fn endpoint_path(graph_path: &str) -> (r: String)
    ensures
        r@ == path_with_extension(graph_path@, "daemon.json"@),
{
    proof {
        reveal_strlit("daemon.json");
    }
    with_extension(graph_path, "daemon.json")
}

// ---------------------------------------------------------------------------
// Bodies
// ---------------------------------------------------------------------------

/// The Base64 digit of the six-bit value `v`: `A`-`Z`, `a`-`z`, `0`-`9`,
/// then `+` and `/` in the standard alphabet, `-` and `_` in the URL-safe one.
pub open spec fn base64_digit(v: int, url_safe: bool) -> char {
    if v < 26 {
        ('A' as int + v) as char
    } else if v < 52 {
        ('a' as int + (v - 26)) as char
    } else if v < 62 {
        ('0' as int + (v - 52)) as char
    } else if v == 62 {
        if url_safe { '-' } else { '+' }
    } else {
        if url_safe { '_' } else { '/' }
    }
}

/// The four digits of the three bytes `a`, `b`, `c`.
pub open spec fn base64_group(a: int, b: int, c: int, url_safe: bool) -> Seq<char> {
    seq![
        base64_digit(a / 4, url_safe),
        base64_digit((a % 4) * 16 + b / 16, url_safe),
        base64_digit((b % 16) * 4 + c / 64, url_safe),
        base64_digit(c % 64, url_safe),
    ]
}

/// Standard Base64 of `b`: each group of three bytes gives four digits; a
/// last group of one or two bytes gives two or three digits and is padded
/// with `=` to four.
pub open spec fn base64_standard(b: Seq<u8>) -> Seq<char>
    decreases b.len(),
{
    if b.len() == 0 {
        Seq::empty()
    } else if b.len() == 1 {
        base64_group(b[0] as int, 0, 0, false).take(2) + seq!['=', '=']
    } else if b.len() == 2 {
        base64_group(b[0] as int, b[1] as int, 0, false).take(3) + seq!['=']
    } else {
        base64_group(b[0] as int, b[1] as int, b[2] as int, false) + base64_standard(
            b.subrange(3, b.len() as int),
        )
    }
}

/// `base64::engine::general_purpose::STANDARD.encode`: the standard
/// alphabet with padding, as `base64_standard` states it.
#[verifier::external_body]
fn base64_encode(bytes: &[u8]) -> (r: String)
    ensures
        r@ == base64_standard(bytes@),
{
    base64::engine::general_purpose::STANDARD.encode(bytes)
}

/// The body as Base64, cut to `max_length` bytes (4096 by default); also
/// whether it was cut and its full length.
pub fn encode_bounded_base64(bytes: &[u8], max_length: Option<usize>) -> (r: (String, bool, usize))
    ensures
        ({
            let cap = match max_length {
                Some(m) => m,
                None => DEFAULT_MAX_BODY_LENGTH,
            };
            &&& r.2 == bytes@.len()
            &&& r.1 == (bytes@.len() > cap)
            &&& r.0@ == base64_standard(
                if bytes@.len() > cap {
                    bytes@.subrange(0, cap as int)
                } else {
                    bytes@
                },
            )
        }),
{
    let total_len = bytes.len();
    let cap = match max_length {
        Some(m) => m,
        None => DEFAULT_MAX_BODY_LENGTH,
    };
    if bytes.len() > cap {
        let mut head: Vec<u8> = Vec::new();
        let mut i: usize = 0;
        while i < cap
            invariant
                i <= cap < bytes@.len(),
                head@ == bytes@.subrange(0, i as int),
            decreases cap - i,
        {
            head.push(bytes[i]);
            i += 1;
        }
        (base64_encode(head.as_slice()), true, total_len)
    } else {
        (base64_encode(bytes), false, total_len)
    }
}

// ---------------------------------------------------------------------------
// Shell quoting
// ---------------------------------------------------------------------------

/// `value` with each `'` written as `'\''`.
pub open spec fn quote_body(s: Seq<char>) -> Seq<char>
    decreases s.len(),
{
    if s.len() == 0 {
        Seq::empty()
    } else {
        quote_body(s.drop_last()) + if s.last() == '\'' {
            seq!['\'', '\\', '\'', '\'']
        } else {
            seq![s.last()]
        }
    }
}

/// `value` as one single-quoted POSIX shell word.
pub open spec fn shell_quote_spec(s: Seq<char>) -> Seq<char> {
    seq!['\''] + quote_body(s) + seq!['\'']
}

pub fn shell_quote_chars(s: &[char]) -> (r: Vec<char>)
    ensures
        r@ == shell_quote_spec(s@),
{
    let mut out: Vec<char> = Vec::new();
    out.push('\'');
    let mut i: usize = 0;
    proof {
        assert(s@.subrange(0, 0) =~= Seq::<char>::empty());
        assert(out@ =~= seq!['\''] + quote_body(s@.subrange(0, 0)));
    }
    while i < s.len()
        invariant
            i <= s@.len(),
            out@ == seq!['\''] + quote_body(s@.subrange(0, i as int)),
        decreases s@.len() - i,
    {
        let ghost before = out@;
        proof {
            let p = s@.subrange(0, i + 1);
            assert(p.drop_last() =~= s@.subrange(0, i as int));
        }
        if s[i] == '\'' {
            out.push('\'');
            out.push('\\');
            out.push('\'');
            out.push('\'');
        } else {
            out.push(s[i]);
        }
        proof {
            assert(out@ =~= seq!['\''] + quote_body(s@.subrange(0, i + 1)));
        }
        i += 1;
    }
    out.push('\'');
    proof {
        assert(s@.subrange(0, s@.len() as int) =~= s@);
    }
    out
}

pub fn shell_quote(value: &str) -> (r: String)
    ensures
        r@ == shell_quote_spec(value@),
{
    string_from_chars(shell_quote_chars(chars_of(value).as_slice()).as_slice())
}

// ---------------------------------------------------------------------------
// Enumerations as protocol strings
// ---------------------------------------------------------------------------

impl ProxyInterceptRuleBooleanOperatorInput {
    pub fn into_proto(self) -> (r: String)
        ensures
            r@ == match self {
                ProxyInterceptRuleBooleanOperatorInput::And => "and"@,
                ProxyInterceptRuleBooleanOperatorInput::Or => "or"@,
            },
    {
        match self {
            ProxyInterceptRuleBooleanOperatorInput::And => text_of("and"),
            ProxyInterceptRuleBooleanOperatorInput::Or => text_of("or"),
        }
    }
}

impl ProxyInterceptRuleMatchTypeInput {
    pub fn into_proto(self) -> (r: String)
        ensures
            r@ == match self {
                ProxyInterceptRuleMatchTypeInput::FileExtension => "file_extension"@,
                ProxyInterceptRuleMatchTypeInput::Request => "request"@,
                ProxyInterceptRuleMatchTypeInput::HttpMethod => "http_method"@,
                ProxyInterceptRuleMatchTypeInput::Url => "url"@,
                ProxyInterceptRuleMatchTypeInput::ContentTypeHeader => "content_type_header"@,
                ProxyInterceptRuleMatchTypeInput::StatusCode => "status_code"@,
            },
    {
        match self {
            ProxyInterceptRuleMatchTypeInput::FileExtension => text_of("file_extension"),
            ProxyInterceptRuleMatchTypeInput::Request => text_of("request"),
            ProxyInterceptRuleMatchTypeInput::HttpMethod => text_of("http_method"),
            ProxyInterceptRuleMatchTypeInput::Url => text_of("url"),
            ProxyInterceptRuleMatchTypeInput::ContentTypeHeader => text_of("content_type_header"),
            ProxyInterceptRuleMatchTypeInput::StatusCode => text_of("status_code"),
        }
    }
}

impl ProxyInterceptRuleRelationshipInput {
    pub fn into_proto(self) -> (r: String)
        ensures
            r@ == match self {
                ProxyInterceptRuleRelationshipInput::Matches => "matches"@,
                ProxyInterceptRuleRelationshipInput::DoesNotMatch => "does_not_match"@,
                ProxyInterceptRuleRelationshipInput::ContainsParameters => "contains_parameters"@,
                ProxyInterceptRuleRelationshipInput::IsInTargetScope => "is_in_target_scope"@,
                ProxyInterceptRuleRelationshipInput::WasModified => "was_modified"@,
                ProxyInterceptRuleRelationshipInput::WasIntercepted => "was_intercepted"@,
            },
    {
        match self {
            ProxyInterceptRuleRelationshipInput::Matches => text_of("matches"),
            ProxyInterceptRuleRelationshipInput::DoesNotMatch => text_of("does_not_match"),
            ProxyInterceptRuleRelationshipInput::ContainsParameters => text_of("contains_parameters"),
            ProxyInterceptRuleRelationshipInput::IsInTargetScope => text_of("is_in_target_scope"),
            ProxyInterceptRuleRelationshipInput::WasModified => text_of("was_modified"),
            ProxyInterceptRuleRelationshipInput::WasIntercepted => text_of("was_intercepted"),
        }
    }
}

/// `r` is the rule `input` asks for, as sent: enabled and `and` by default,
/// an empty condition by default.
pub open spec fn proto_rule_of(input: ProxyInterceptRuleInput, r: ProxyInterceptRule) -> bool {
    &&& r.enabled == match input.enabled {
        Some(b) => b,
        None => true,
    }
    &&& r.boolean_operator@ == match input.boolean_operator {
        Some(ProxyInterceptRuleBooleanOperatorInput::Or) => "or"@,
        _ => "and"@,
    }
    &&& r.match_type@ == match_type_text(input.match_type)
    &&& r.match_relationship@ == relationship_text(input.match_relationship)
    &&& r.match_condition@ == match input.match_condition {
        Some(c) => c@,
        None => Seq::<char>::empty(),
    }
}

impl ProxyInterceptRuleInput {
    /// The rule as sent: enabled and `and` by default, empty condition by
    /// default.
    pub fn into_proto(self) -> (r: ProxyInterceptRule)
        ensures
            proto_rule_of(self, r),
    {
        ProxyInterceptRule {
            enabled: match self.enabled {
                Some(b) => b,
                None => true,
            },
            boolean_operator: match self.boolean_operator {
                Some(op) => op.into_proto(),
                None => text_of("and"),
            },
            match_type: self.match_type.into_proto(),
            match_relationship: self.match_relationship.into_proto(),
            match_condition: match self.match_condition {
                Some(c) => c,
                None => String::new(),
            },
        }
    }
}

pub open spec fn match_type_text(t: ProxyInterceptRuleMatchTypeInput) -> Seq<char> {
    match t {
        ProxyInterceptRuleMatchTypeInput::FileExtension => "file_extension"@,
        ProxyInterceptRuleMatchTypeInput::Request => "request"@,
        ProxyInterceptRuleMatchTypeInput::HttpMethod => "http_method"@,
        ProxyInterceptRuleMatchTypeInput::Url => "url"@,
        ProxyInterceptRuleMatchTypeInput::ContentTypeHeader => "content_type_header"@,
        ProxyInterceptRuleMatchTypeInput::StatusCode => "status_code"@,
    }
}

pub open spec fn relationship_text(t: ProxyInterceptRuleRelationshipInput) -> Seq<char> {
    match t {
        ProxyInterceptRuleRelationshipInput::Matches => "matches"@,
        ProxyInterceptRuleRelationshipInput::DoesNotMatch => "does_not_match"@,
        ProxyInterceptRuleRelationshipInput::ContainsParameters => "contains_parameters"@,
        ProxyInterceptRuleRelationshipInput::IsInTargetScope => "is_in_target_scope"@,
        ProxyInterceptRuleRelationshipInput::WasModified => "was_modified"@,
        ProxyInterceptRuleRelationshipInput::WasIntercepted => "was_intercepted"@,
    }
}

impl ProxyRulePhaseInput {
    pub fn as_str(self) -> (r: &'static str)
        ensures
            r@ == match self {
                ProxyRulePhaseInput::Request => "request"@,
                ProxyRulePhaseInput::Response => "response"@,
            },
    {
        match self {
            ProxyRulePhaseInput::Request => "request",
            ProxyRulePhaseInput::Response => "response",
        }
    }
}

impl ProxyRuleActionInput {
    pub fn as_str(self) -> (r: &'static str)
        ensures
            r@ == match self {
                ProxyRuleActionInput::Forward => "forward"@,
                ProxyRuleActionInput::Intercept => "intercept"@,
                ProxyRuleActionInput::Drop => "drop"@,
                ProxyRuleActionInput::Edit => "edit"@,
            },
    {
        match self {
            ProxyRuleActionInput::Forward => "forward",
            ProxyRuleActionInput::Intercept => "intercept",
            ProxyRuleActionInput::Drop => "drop",
            ProxyRuleActionInput::Edit => "edit",
        }
    }
}

/// The history query for a page: the cursor given, else the offset as a
/// decimal cursor; filters empty by default.
pub fn to_proxy_history_request(input: ProxyHistoryInput, limit: u32) -> (r: ProxyHistoryRequest)
    ensures
        r.page matches Some(p) && p.limit == limit && p.cursor@ == match input.cursor {
            Some(c) => c@,
            None => decimal(
                match input.offset {
                    Some(o) => o as nat,
                    None => 0,
                },
            ),
        },
        r.url_filter@ == crate::urls::opt_text(input.url_filter).unwrap_or(Seq::empty()),
        r.method_filter@ == crate::urls::opt_text(input.method_filter).unwrap_or(Seq::empty()),
        r.status_filter == input.status_filter,
        r.has_notes == input.has_notes.unwrap_or(false),
        r.color@ == crate::urls::opt_text(input.color).unwrap_or(Seq::empty()),
        r.after_id is None,
{
    let cursor = match input.cursor {
        Some(c) => c,
        None => {
            let o: u32 = match input.offset {
                Some(o) => o,
                None => 0,
            };
            string_from_chars(decimal_chars(o as u128).as_slice())
        },
    };
    ProxyHistoryRequest {
        page: Some(PageRequest { limit, cursor }),
        url_filter: match input.url_filter {
            Some(s) => s,
            None => String::new(),
        },
        method_filter: match input.method_filter {
            Some(s) => s,
            None => String::new(),
        },
        status_filter: input.status_filter,
        has_notes: match input.has_notes {
            Some(b) => b,
            None => false,
        },
        color: match input.color {
            Some(s) => s,
            None => String::new(),
        },
        after_id: None,
    }
}

} // verus!
