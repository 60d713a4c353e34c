//! Rendering HTTP payloads for display: binary detection, header-only
//! views, CSS projections and byte-bounded truncation.
use crate::css_extract::{css_result, extract_css_selector, texts_of};
use crate::css_grammar::parse_query;
use crate::http_text::headers_only_spec;
use crate::http_text::extract_headers_only;
use crate::http_text::{blank_line_chars, blank_line_of, split_once_chars, split_once_spec};
use crate::text::{
    chars_of, contains_chars, contains_seq, starts_with_chars, starts_with_seq, string_from_chars,
    to_unicode_lowercase, unicode_lowercase,
};
use crate::css_escape::concat_chars;
use vstd::prelude::*;

verus! {

// ---------------------------------------------------------------------------
// Binary content
// ---------------------------------------------------------------------------

/// A lowercased MIME type that names binary content.
pub open spec fn binary_mime(m: Seq<char>) -> bool {
    ||| starts_with_seq(m, "image/"@)
    ||| starts_with_seq(m, "video/"@)
    ||| starts_with_seq(m, "audio/"@)
    ||| starts_with_seq(m, "font/"@)
    ||| contains_seq(m, "octet-stream"@)
    ||| contains_seq(m, "pdf"@)
    ||| contains_seq(m, "zip"@)
    ||| contains_seq(m, "gzip"@)
    ||| contains_seq(m, "tar"@)
    ||| contains_seq(m, "protobuf"@)
    ||| contains_seq(m, "wasm"@)
}

fn starts_with_lit(m: &[char], lit: &str) -> (r: bool)
    ensures
        r == starts_with_seq(m@, lit@),
{
    starts_with_chars(m, chars_of(lit).as_slice())
}

fn contains_lit(m: &[char], lit: &str) -> (r: bool)
    ensures
        r == contains_seq(m@, lit@),
{
    contains_chars(m, chars_of(lit).as_slice())
}

/// Whether an already lowercased MIME type names binary content.
pub fn is_binary_mime_lowered(m: &[char]) -> (r: bool)
    ensures
        r == binary_mime(m@),
{
    starts_with_lit(m, "image/") || starts_with_lit(m, "video/") || starts_with_lit(m, "audio/")
        || starts_with_lit(m, "font/") || contains_lit(m, "octet-stream") || contains_lit(m, "pdf")
        || contains_lit(m, "zip") || contains_lit(m, "gzip") || contains_lit(m, "tar")
        || contains_lit(m, "protobuf") || contains_lit(m, "wasm")
}

/// Whether a MIME type (in any case) names binary content.
pub fn is_binary_mime_type(mime: &str) -> (r: bool)
    ensures
        r == binary_mime(unicode_lowercase(mime@)),
{
    let lowered = to_unicode_lowercase(chars_of(mime).as_slice());
    is_binary_mime_lowered(lowered.as_slice())
}

/// Number of zero bytes.
pub open spec fn nul_count(s: Seq<u8>) -> nat
    decreases s.len(),
{
    if s.len() == 0 {
        0
    } else {
        nul_count(s.drop_last()) + if s.last() == 0 { 1nat } else { 0nat }
    }
}

/// Number of control bytes other than tab, newline, vertical tab, form feed
/// and carriage return.
pub open spec fn control_count(s: Seq<u8>) -> nat
    decreases s.len(),
{
    if s.len() == 0 {
        0
    } else {
        control_count(s.drop_last()) + if s.last() < 9 || (13 < s.last() < 32) {
            1nat
        } else {
            0nat
        }
    }
}

/// The first 1024 bytes (or all of them).
pub open spec fn sample_of(b: Seq<u8>) -> Seq<u8> {
    if b.len() <= 1024 {
        b
    } else {
        b.subrange(0, 1024)
    }
}

/// Non-empty content whose sample holds a zero byte, or more than a tenth
/// control bytes.
pub open spec fn binary_payload(b: Seq<u8>) -> bool {
    let s = sample_of(b);
    b.len() > 0 && (nul_count(s) > 0 || control_count(s) > s.len() / 10)
}

/// Sniffs whether raw content looks binary.
pub fn is_binary_payload(bytes: &[u8]) -> (r: bool)
    ensures
        r == binary_payload(bytes@),
{
    if bytes.len() == 0 {
        return false;
    }
    let n: usize = if bytes.len() < 1024 {
        bytes.len()
    } else {
        1024
    };
    let ghost s = sample_of(bytes@);
    assert(s == bytes@.subrange(0, n as int));
    let mut nul: usize = 0;
    let mut ctrl: usize = 0;
    let mut i: usize = 0;
    proof {
        assert(bytes@.subrange(0, 0) =~= Seq::<u8>::empty());
    }
    while i < n
        invariant
            i <= n <= 1024,
            n <= bytes@.len(),
            nul as nat == nul_count(bytes@.subrange(0, i as int)),
            ctrl as nat == control_count(bytes@.subrange(0, i as int)),
            nul <= i,
            ctrl <= i,
        decreases n - i,
    {
        proof {
            let p = bytes@.subrange(0, i + 1);
            assert(p.drop_last() =~= bytes@.subrange(0, i as int));
            assert(p.last() == bytes@[i as int]);
        }
        let b = bytes[i];
        if b == 0 {
            nul += 1;
        }
        if b < 9 || (b > 13 && b < 32) {
            ctrl += 1;
        }
        i += 1;
    }
    nul > 0 || ctrl > n / 10
}

// ---------------------------------------------------------------------------
// Byte lengths and truncation
// ---------------------------------------------------------------------------

/// Bytes of a character in UTF-8.
pub open spec fn utf8_len(c: char) -> nat {
    if (c as u32) < 0x80 {
        1
    } else if (c as u32) < 0x800 {
        2
    } else if (c as u32) < 0x10000 {
        3
    } else {
        4
    }
}

/// Bytes of a text in UTF-8 (`str::len`).
pub open spec fn byte_len(s: Seq<char>) -> nat
    decreases s.len(),
{
    if s.len() == 0 {
        0
    } else {
        byte_len(s.drop_last()) + utf8_len(s.last())
    }
}

/// The number of leading characters that fit in `m` bytes.
pub open spec fn fit_chars(s: Seq<char>, m: nat) -> nat
    decreases s.len(),
{
    if byte_len(s) <= m || s.len() == 0 {
        s.len()
    } else {
        fit_chars(s.drop_last(), m)
    }
}

pub open spec fn decimal_digit(d: nat) -> char {
    if d == 0 {
        '0'
    } else if d == 1 {
        '1'
    } else if d == 2 {
        '2'
    } else if d == 3 {
        '3'
    } else if d == 4 {
        '4'
    } else if d == 5 {
        '5'
    } else if d == 6 {
        '6'
    } else if d == 7 {
        '7'
    } else if d == 8 {
        '8'
    } else {
        '9'
    }
}

/// The decimal representation of `n`.
pub open spec fn decimal(n: nat) -> Seq<char>
    decreases n,
{
    if n < 10 {
        seq![decimal_digit(n)]
    } else {
        decimal(n / 10).push(decimal_digit(n % 10))
    }
}

/// Text cut to at most `m` bytes at a character boundary, with a note
/// saying how many bytes were dropped.
pub open spec fn truncated_text(s: Seq<char>, m: nat) -> Seq<char> {
    let k = fit_chars(s, m);
    s.subrange(0, k as int) + "\n\n... [truncated "@ + decimal(
        (byte_len(s) - byte_len(s.subrange(0, k as int))) as nat,
    ) + " bytes]"@
}

/// `truncate_text`: whether `s` is cut for `max_length`, and the text shown.
pub open spec fn truncate_spec(s: Seq<char>, max_length: Option<usize>) -> (Seq<char>, bool) {
    match max_length {
        Some(m) => if byte_len(s) > m {
            (truncated_text(s, m as nat), true)
        } else {
            (s, false)
        },
        None => (s, false),
    }
}

pub proof fn lemma_byte_len_prefix(s: Seq<char>, k: int)
    requires
        0 <= k < s.len(),
    ensures
        byte_len(s.subrange(0, k + 1)) == byte_len(s.subrange(0, k)) + utf8_len(s[k]),
{
    let p = s.subrange(0, k + 1);
    assert(p.drop_last() =~= s.subrange(0, k));
}

pub proof fn lemma_byte_len_bound(s: Seq<char>)
    ensures
        byte_len(s) <= 4 * s.len(),
        byte_len(s) >= s.len(),
    decreases s.len(),
{
    if s.len() > 0 {
        lemma_byte_len_bound(s.drop_last());
    }
}

/// `fit_chars` is the longest prefix within `m` bytes.
pub proof fn lemma_fit_chars(s: Seq<char>, m: nat, k: int)
    requires
        0 <= k <= s.len(),
        byte_len(s.subrange(0, k)) <= m,
        k == s.len() || byte_len(s.subrange(0, k + 1)) > m,
    ensures
        fit_chars(s, m) == k,
    decreases s.len(),
{
    assert(s.subrange(0, s.len() as int) =~= s);
    if k < s.len() {
        lemma_byte_len_monotone(s, k + 1, s.len() as int);
        let t = s.drop_last();
        assert(t.subrange(0, k) =~= s.subrange(0, k));
        if k + 1 <= t.len() {
            assert(t.subrange(0, k + 1) =~= s.subrange(0, k + 1));
        }
        lemma_fit_chars(t, m, k);
    }
}

pub proof fn lemma_byte_len_monotone(s: Seq<char>, a: int, b: int)
    requires
        0 <= a <= b <= s.len(),
    ensures
        byte_len(s.subrange(0, a)) <= byte_len(s.subrange(0, b)),
    decreases b - a,
{
    if a < b {
        lemma_byte_len_monotone(s, a, b - 1);
        lemma_byte_len_prefix(s, b - 1);
    }
}

/// Truncation keeps the longest prefix of whole characters that fits in
/// the byte limit.
pub proof fn lemma_truncation_fits(s: Seq<char>, m: nat)
    ensures
        fit_chars(s, m) <= s.len(),
        byte_len(s.subrange(0, fit_chars(s, m) as int)) <= m,
        fit_chars(s, m) < s.len() ==> byte_len(s.subrange(0, fit_chars(s, m) as int + 1)) > m,
    decreases s.len(),
{
    assert(s.subrange(0, s.len() as int) =~= s);
    if !(byte_len(s) <= m || s.len() == 0) {
        let t = s.drop_last();
        lemma_truncation_fits(t, m);
        let k = fit_chars(t, m);
        assert(t.subrange(0, k as int) =~= s.subrange(0, k as int));
        if k + 1 <= t.len() {
            assert(t.subrange(0, k as int + 1) =~= s.subrange(0, k as int + 1));
        } else {
            assert(s.subrange(0, k as int + 1) =~= s);
        }
    }
}

fn utf8_len_of(c: char) -> (r: u128)
    ensures
        r == utf8_len(c),
{
    if (c as u32) < 0x80 {
        1
    } else if (c as u32) < 0x800 {
        2
    } else if (c as u32) < 0x10000 {
        3
    } else {
        4
    }
}

fn push_decimal(n: u128, out: &mut Vec<char>)
    ensures
        final(out)@ == old(out)@ + decimal(n as nat),
    decreases n,
{
    if n >= 10 {
        push_decimal(n / 10, out);
    }
    let d = n % 10;
    let c = if d == 0 {
        '0'
    } else if d == 1 {
        '1'
    } else if d == 2 {
        '2'
    } else if d == 3 {
        '3'
    } else if d == 4 {
        '4'
    } else if d == 5 {
        '5'
    } else if d == 6 {
        '6'
    } else if d == 7 {
        '7'
    } else if d == 8 {
        '8'
    } else {
        '9'
    };
    let ghost before = out@;
    out.push(c);
    proof {
        if n >= 10 {
            assert(out@ =~= old(out)@ + decimal(n as nat));
        } else {
            assert(out@ =~= old(out)@ + decimal(n as nat));
        }
    }
}

/// The decimal representation of `n`.
pub fn decimal_chars(n: u128) -> (r: Vec<char>)
    ensures
        r@ == decimal(n as nat),
{
    let mut v: Vec<char> = Vec::new();
    push_decimal(n, &mut v);
    proof {
        assert(v@ =~= decimal(n as nat));
    }
    v
}

/// Cuts `text` to `max_length` bytes at a character boundary, noting how
/// many bytes were dropped; the flag says whether anything was cut.
pub fn truncate_chars(s: &[char], max_length: Option<usize>) -> (r: (Vec<char>, bool))
    ensures
        (r.0@, r.1) == truncate_spec(s@, max_length),
{
    proof {
        lemma_byte_len_bound(s@);
        assert(s@.subrange(0, s@.len() as int) =~= s@);
    }
    let mut total: u128 = 0;
    let mut i: usize = 0;
    proof {
        assert(s@.subrange(0, 0) =~= Seq::<char>::empty());
    }
    while i < s.len()
        invariant
            i <= s@.len(),
            total == byte_len(s@.subrange(0, i as int)),
            total <= 4 * i,
        decreases s@.len() - i,
    {
        proof {
            lemma_byte_len_prefix(s@, i as int);
        }
        total = total + utf8_len_of(s[i]);
        i += 1;
    }
    let m = match max_length {
        Some(m) if total > m as u128 => m,
        _ => {
            let mut v: Vec<char> = Vec::new();
            let mut k: usize = 0;
            while k < s.len()
                invariant
                    k <= s@.len(),
                    v@ == s@.subrange(0, k as int),
                decreases s@.len() - k,
            {
                v.push(s[k]);
                k += 1;
            }
            return (v, false);
        },
    };
    let mut kept: Vec<char> = Vec::new();
    let mut cut: u128 = 0;
    let mut k: usize = 0;
    while k < s.len() && cut + utf8_len_of(s[k]) <= m as u128
        invariant
            k <= s@.len(),
            kept@ == s@.subrange(0, k as int),
            cut == byte_len(s@.subrange(0, k as int)),
            cut <= m,
        decreases s@.len() - k,
    {
        proof {
            lemma_byte_len_prefix(s@, k as int);
        }
        cut = cut + utf8_len_of(s[k]);
        kept.push(s[k]);
        k += 1;
    }
    proof {
        if k < s@.len() {
            lemma_byte_len_prefix(s@, k as int);
        }
        lemma_fit_chars(s@, m as nat, k as int);
        lemma_byte_len_monotone(s@, k as int, s@.len() as int);
    }
    let out = concat_chars(kept, chars_of("\n\n... [truncated ").as_slice());
    let out = concat_chars(out, decimal_chars(total - cut).as_slice());
    let out = concat_chars(out, chars_of(" bytes]").as_slice());
    (out, true)
}

/// `truncate_chars` on a string.
pub fn truncate_text(text: &str, max_length: Option<usize>) -> (r: (String, bool))
    ensures
        (r.0@, r.1) == truncate_spec(text@, max_length),
{
    let (v, t) = truncate_chars(chars_of(text).as_slice(), max_length);
    (string_from_chars(v.as_slice()), t)
}


// ---------------------------------------------------------------------------
// Rendering a payload
// ---------------------------------------------------------------------------

/// `String::from_utf8_lossy`: the text of `b`, invalid sequences replaced.
pub uninterp spec fn utf8_lossy(b: Seq<u8>) -> Seq<char>;

/// `String::from_utf8_lossy`.  Its result is named; valid UTF-8 is
/// decoded exactly, and how invalid sequences are replaced is left
/// unstated.
#[verifier::external_body]
pub(crate) fn decode_utf8_lossy(bytes: &[u8]) -> (r: String)
    ensures
        r@ == utf8_lossy(bytes@),
        vstd::utf8::valid_utf8(bytes@) ==> r@ == vstd::utf8::decode_utf8(bytes@),
{
    String::from_utf8_lossy(bytes).into_owned()
}

/// The text of a payload as shown.
pub fn payload_text(bytes: &[u8]) -> (r: String)
    ensures
        r@ == utf8_lossy(bytes@),
{
    decode_utf8_lossy(bytes)
}

/// The body of a message: the text after the first blank line, or all of
/// it when there is none.
pub open spec fn payload_body(t: Seq<char>) -> Seq<char> {
    match split_once_spec(t, blank_line_of(t)) {
        Some((_, body)) => body,
        None => t,
    }
}

pub fn payload_body_of(text: &str) -> (r: String)
    ensures
        r@ == payload_body(text@),
{
    let s = chars_of(text);
    let d = blank_line_chars(s.as_slice());
    match split_once_chars(s.as_slice(), d.as_slice()) {
        Some((_, body)) => string_from_chars(body.as_slice()),
        None => string_from_chars(s.as_slice()),
    }
}

/// `parts` joined with `sep` between them.
pub open spec fn join_spec(parts: Seq<Seq<char>>, sep: Seq<char>) -> Seq<char>
    decreases parts.len(),
{
    if parts.len() == 0 {
        Seq::empty()
    } else if parts.len() == 1 {
        parts[0]
    } else {
        join_spec(parts.drop_last(), sep) + sep + parts.last()
    }
}

/// The CSS projection of a payload.
pub open spec fn css_section(sel: Seq<char>, matches: Seq<Seq<char>>) -> Seq<char> {
    "--- CSS Matches for `"@ + sel + "` ("@ + decimal(matches.len()) + ") ---\n"@ + join_spec(
        matches,
        seq!['\n'],
    )
}

/// What is shown instead of binary (or empty) content, if the content is so.
pub open spec fn binary_notice(b: Seq<u8>, content_type: Option<Seq<char>>) -> Option<Seq<char>> {
    if b.len() == 0 {
        Some(Seq::empty())
    } else {
        match content_type {
            Some(m) => if binary_mime(unicode_lowercase(m)) {
                Some("<binary data: "@ + decimal(b.len()) + " bytes ["@ + m + "]>"@)
            } else {
                None
            },
            None => if binary_payload(b) {
                Some("<binary data: "@ + decimal(b.len()) + " bytes>"@)
            } else {
                None
            },
        }
    }
}

pub open spec fn opt_view(o: Option<&str>) -> Option<Seq<char>> {
    match o {
        Some(s) => Some(s@),
        None => None,
    }
}

/// How the text `t` of a non-binary payload is rendered: its head alone, a
/// CSS projection of its body when the selector parses, else the given
/// JSONPath projection, else the text itself; then truncated.
pub open spec fn render_ok(
    t: Seq<char>,
    headers_only: bool,
    css: Option<Seq<char>>,
    json: Option<Seq<char>>,
    max_length: Option<usize>,
    r: (Seq<char>, bool),
) -> bool {
    if headers_only {
        r == truncate_spec(headers_only_spec(t), max_length)
    } else if css is Some && parse_query(css->0) is Some {
        exists|v: Seq<Seq<char>>|
            css_result(payload_body(t), css->0, v) && r == truncate_spec(
                css_section(css->0, v),
                max_length,
            )
    } else {
        match json {
            Some(j) => r == truncate_spec(j, max_length),
            None => r == truncate_spec(t, max_length),
        }
    }
}

fn join_lines(parts: &Vec<String>) -> (r: Vec<char>)
    ensures
        r@ == join_spec(texts_of(parts@), seq!['\n']),
{
    let mut out: Vec<char> = Vec::new();
    let mut i: usize = 0;
    while i < parts.len()
        invariant
            i <= parts@.len(),
            out@ == join_spec(texts_of(parts@).subrange(0, i as int), seq!['\n']),
        decreases parts@.len() - i,
    {
        let ghost before = out@;
        let piece = chars_of(parts[i].as_str());
        proof {
            let t = texts_of(parts@).subrange(0, i + 1);
            assert(t.drop_last() =~= texts_of(parts@).subrange(0, i as int));
            assert(t.last() == parts@[i as int]@);
        }
        if i > 0 {
            out.push('\n');
        }
        out = concat_chars(out, piece.as_slice());
        proof {
            if i > 0 {
                assert(out@ =~= before + seq!['\n'] + piece@);
            } else {
                assert(out@ =~= piece@);
            }
        }
        i += 1;
    }
    proof {
        assert(texts_of(parts@).subrange(0, parts@.len() as int) =~= texts_of(parts@));
    }
    out
}

fn lit_then(v: Vec<char>, lit: &str) -> (r: Vec<char>)
    ensures
        r@ == v@ + lit@,
{
    concat_chars(v, chars_of(lit).as_slice())
}

/// `r` is how a payload is rendered: the binary notice for binary data,
/// else its text rendered as `render_ok` says.
pub open spec fn payload_rendered(
    bytes: Seq<u8>,
    content_type: Option<Seq<char>>,
    headers_only: bool,
    css: Option<Seq<char>>,
    json: Option<Seq<char>>,
    max_length: Option<usize>,
    r: (Seq<char>, bool),
) -> bool {
    match binary_notice(bytes, content_type) {
        Some(n) => r.0 == n && !r.1,
        None => render_ok(utf8_lossy(bytes), headers_only, css, json, max_length, r),
    }
}

/// `w` begins `l`.
pub open spec fn begins_with(l: Seq<char>, w: Seq<char>) -> bool {
    w.len() <= l.len() && l.subrange(0, w.len() as int) == w
}

/// `w` occurs somewhere in `l`.
pub open spec fn mentions(l: Seq<char>, w: Seq<char>) -> bool {
    exists|k: int| 0 <= k && k + w.len() <= l.len() && #[trigger] l.subrange(k, k + w.len()) == w
}

/// A lowercased content type names binary content when it begins with
/// `image/`, `video/`, `audio/` or `font/`, or mentions `octet-stream`,
/// `pdf`, `zip`, `gzip`, `tar`, `protobuf` or `wasm` anywhere.
pub open spec fn names_binary(l: Seq<char>) -> bool {
    ||| begins_with(l, "image/"@)
    ||| begins_with(l, "video/"@)
    ||| begins_with(l, "audio/"@)
    ||| begins_with(l, "font/"@)
    ||| mentions(l, "octet-stream"@)
    ||| mentions(l, "pdf"@)
    ||| mentions(l, "zip"@)
    ||| mentions(l, "gzip"@)
    ||| mentions(l, "tar"@)
    ||| mentions(l, "protobuf"@)
    ||| mentions(l, "wasm"@)
}

proof fn lemma_begins_mentions(l: Seq<char>, w: Seq<char>)
    ensures
        begins_with(l, w) == starts_with_seq(l, w),
        mentions(l, w) == contains_seq(l, w),
{
    if contains_seq(l, w) {
        let k = choose|k: int| crate::text::occurs_at(l, w, k);
        assert(0 <= k && k + w.len() <= l.len() && l.subrange(k, k + w.len()) == w);
    }
    if mentions(l, w) {
        let k = choose|k: int| 0 <= k && k + w.len() <= l.len() && #[trigger] l.subrange(k, k + w.len()) == w;
        assert(crate::text::occurs_at(l, w, k));
    }
}

/// A non-empty payload whose content type, lowercased, names binary content
/// (see `names_binary`) renders as the notice `<binary data: N bytes [type]>`
/// with N its length in bytes, never truncated; with any other content type
/// it renders as text (see `render_ok`).
pub proof fn lemma_binary_content_types(
    bytes: Seq<u8>,
    m: Seq<char>,
    headers_only: bool,
    css: Option<Seq<char>>,
    json: Option<Seq<char>>,
    max_length: Option<usize>,
    r: (Seq<char>, bool),
)
    requires
        bytes.len() > 0,
        payload_rendered(bytes, Some(m), headers_only, css, json, max_length, r),
    ensures
        names_binary(unicode_lowercase(m)) ==> r == ("<binary data: "@ + decimal(bytes.len()) + " bytes ["@
            + m + "]>"@, false),
        !names_binary(unicode_lowercase(m)) ==> render_ok(
            utf8_lossy(bytes),
            headers_only,
            css,
            json,
            max_length,
            r,
        ),
{
    let l = unicode_lowercase(m);
    lemma_begins_mentions(l, "image/"@);
    lemma_begins_mentions(l, "video/"@);
    lemma_begins_mentions(l, "audio/"@);
    lemma_begins_mentions(l, "font/"@);
    lemma_begins_mentions(l, "octet-stream"@);
    lemma_begins_mentions(l, "pdf"@);
    lemma_begins_mentions(l, "zip"@);
    lemma_begins_mentions(l, "gzip"@);
    lemma_begins_mentions(l, "tar"@);
    lemma_begins_mentions(l, "protobuf"@);
    lemma_begins_mentions(l, "wasm"@);
    assert(binary_mime(l) == names_binary(l));
}

proof fn lemma_nul_count_positive(s: Seq<u8>, k: int)
    requires
        0 <= k < s.len(),
        s[k] == 0,
    ensures
        nul_count(s) > 0,
    decreases s.len(),
{
    if k < s.len() - 1 {
        lemma_nul_count_positive(s.drop_last(), k);
    }
}

proof fn lemma_control_count_zero(s: Seq<u8>)
    requires
        forall|k: int| 0 <= k < s.len() ==> #[trigger] s[k] >= 32 || 9 <= s[k] <= 13,
    ensures
        control_count(s) == 0,
        nul_count(s) == 0,
    decreases s.len(),
{
    if s.len() > 0 {
        lemma_control_count_zero(s.drop_last());
        assert(s.last() == s[s.len() - 1]);
    }
}

/// Without a content type the payload is sniffed from its first 1024 bytes
/// (all of them when shorter): a zero byte there makes it binary, rendered
/// as `<binary data: N bytes>`; when every one of those bytes is printable
/// or a tab, newline, vertical tab, form feed or carriage return, it renders
/// as text (see `render_ok`).
pub proof fn lemma_sniffed_payloads(
    bytes: Seq<u8>,
    headers_only: bool,
    css: Option<Seq<char>>,
    json: Option<Seq<char>>,
    max_length: Option<usize>,
    r: (Seq<char>, bool),
)
    requires
        bytes.len() > 0,
        payload_rendered(bytes, None, headers_only, css, json, max_length, r),
    ensures
        (exists|k: int| 0 <= k < bytes.len() && k < 1024 && #[trigger] bytes[k] == 0) ==> r == (
            "<binary data: "@ + decimal(bytes.len()) + " bytes>"@,
            false,
        ),
        (forall|k: int| 0 <= k < bytes.len() && k < 1024 ==> #[trigger] bytes[k] >= 32 || 9 <= bytes[k] <= 13)
            ==> render_ok(utf8_lossy(bytes), headers_only, css, json, max_length, r),
{
    let s = sample_of(bytes);
    assert(forall|k: int| 0 <= k < s.len() ==> s[k] == bytes[k] && k < 1024);
    if exists|k: int| 0 <= k < bytes.len() && k < 1024 && #[trigger] bytes[k] == 0 {
        let k = choose|k: int| 0 <= k < bytes.len() && k < 1024 && #[trigger] bytes[k] == 0;
        assert(s[k] == 0);
        lemma_nul_count_positive(s, k);
    }
    if forall|k: int| 0 <= k < bytes.len() && k < 1024 ==> #[trigger] bytes[k] >= 32 || 9 <= bytes[k] <= 13 {
        assert forall|k: int| 0 <= k < s.len() implies #[trigger] s[k] >= 32 || 9 <= s[k] <= 13 by {
            assert(s[k] == bytes[k]);
        }
        lemma_control_count_zero(s);
    }
}

/// Renders a payload for display (see `binary_notice` and `render_ok`).
/// `json_projection` is the JSONPath section for the body, when one was
/// asked for and evaluated.
pub fn filter_and_truncate_payload(
    bytes: &[u8],
    content_type: Option<&str>,
    headers_only: bool,
    extract_css: Option<&str>,
    json_projection: Option<&str>,
    max_length: Option<usize>,
) -> (r: (String, bool))
    ensures
        payload_rendered(
            bytes@,
            opt_view(content_type),
            headers_only,
            opt_view(extract_css),
            opt_view(json_projection),
            max_length,
            (r.0@, r.1),
        ),
{
    if bytes.len() == 0 {
        return (string_from_chars(Vec::<char>::new().as_slice()), false);
    }
    match content_type {
        Some(mime) => {
            if is_binary_mime_type(mime) {
                let v = lit_then(Vec::new(), "<binary data: ");
                let v = concat_chars(v, decimal_chars(bytes.len() as u128).as_slice());
                let v = lit_then(v, " bytes [");
                let v = concat_chars(v, chars_of(mime).as_slice());
                let v = lit_then(v, "]>");
                proof {
                    assert(v@ =~= "<binary data: "@ + decimal(bytes@.len()) + " bytes ["@ + mime@
                        + "]>"@);
                }
                return (string_from_chars(v.as_slice()), false);
            }
        },
        None => {
            if is_binary_payload(bytes) {
                let v = lit_then(Vec::new(), "<binary data: ");
                let v = concat_chars(v, decimal_chars(bytes.len() as u128).as_slice());
                let v = lit_then(v, " bytes>");
                proof {
                    assert(v@ =~= "<binary data: "@ + decimal(bytes@.len()) + " bytes>"@);
                }
                return (string_from_chars(v.as_slice()), false);
            }
        },
    }
    let raw_text = decode_utf8_lossy(bytes);
    if headers_only {
        let head = extract_headers_only(raw_text.as_str());
        return truncate_text(head.as_str(), max_length);
    }
    let body = payload_body_of(raw_text.as_str());
    if let Some(sel) = extract_css {
        match extract_css_selector(body.as_str(), sel) {
            Ok(matches) => {
                let v = lit_then(Vec::new(), "--- CSS Matches for `");
                let v = concat_chars(v, chars_of(sel).as_slice());
                let v = lit_then(v, "` (");
                let v = concat_chars(v, decimal_chars(matches.len() as u128).as_slice());
                let v = lit_then(v, ") ---\n");
                let v = concat_chars(v, join_lines(&matches).as_slice());
                proof {
                    assert(texts_of(matches@).len() == matches@.len());
                    assert(v@ =~= css_section(sel@, texts_of(matches@)));
                }
                let formatted = string_from_chars(v.as_slice());
                return truncate_text(formatted.as_str(), max_length);
            },
            Err(_) => {},
        }
    }
    match json_projection {
        Some(j) => truncate_text(j, max_length),
        None => truncate_text(raw_text.as_str(), max_length),
    }
}

} // verus!
