//! CSS escapes, quoted values and `An+B` expressions.
use crate::text::{chars_eq, chars_of, string_from_chars, to_unicode_lowercase, trim_chars, trim_seq, unicode_lowercase};
use vstd::prelude::*;

verus! {

// ---------------------------------------------------------------------------
// Escapes
// ---------------------------------------------------------------------------

pub open spec fn is_hex(c: char) -> bool {
    ('0' <= c <= '9') || ('a' <= c <= 'f') || ('A' <= c <= 'F')
}

pub open spec fn hex_digit_value(c: char) -> nat {
    if '0' <= c <= '9' {
        (c as int - '0' as int) as nat
    } else if 'a' <= c <= 'f' {
        (c as int - 'a' as int + 10) as nat
    } else {
        (c as int - 'A' as int + 10) as nat
    }
}

/// The value of a run of hexadecimal digits.
pub open spec fn hex_value(d: Seq<char>) -> nat
    decreases d.len(),
{
    if d.len() == 0 {
        0
    } else {
        hex_value(d.drop_last()) * 16 + hex_digit_value(d.last())
    }
}

/// Position after at most `n` hexadecimal digits starting at `i`.
pub open spec fn hex_end(s: Seq<char>, i: int, n: nat) -> int
    decreases n,
{
    if n > 0 && 0 <= i < s.len() && is_hex(s[i]) {
        hex_end(s, i + 1, (n - 1) as nat)
    } else {
        i
    }
}

/// A Unicode scalar value (`char::from_u32` accepts exactly these).
pub open spec fn valid_scalar(cp: int) -> bool {
    0 <= cp <= 0x10FFFF && !(0xD800 <= cp <= 0xDFFF)
}

/// The character a hexadecimal escape stands for; an invalid code point
/// becomes U+FFFD.
pub open spec fn escape_char(cp: int) -> char {
    if valid_scalar(cp) {
        cp as char
    } else {
        '\u{FFFD}'
    }
}

pub open spec fn is_newline(c: char) -> bool {
    c == '\r' || c == '\n' || c == '\x0c'
}

/// Where the hexadecimal escape whose digits start at `i` ends: up to six
/// digits and one following space or tab.
pub open spec fn hex_escape_end(s: Seq<char>, i: int) -> int {
    let j = hex_end(s, i, 6);
    if 0 <= j < s.len() && (s[j] == ' ' || s[j] == '\t') {
        j + 1
    } else {
        j
    }
}

/// The unescaped text of `s` from position `i` on.
pub open spec fn unescape_from(s: Seq<char>, i: int) -> Seq<char>
    decreases s.len() - i,
{
    if i < 0 || i >= s.len() {
        Seq::empty()
    } else if s[i] != '\\' {
        seq![s[i]] + unescape_from(s, i + 1)
    } else if i + 1 >= s.len() {
        Seq::empty()
    } else if is_hex(s[i + 1]) {
        let j = hex_end(s, i + 1, 6);
        proof {
            lemma_hex_end(s, i + 1, 6);
        }
        seq![escape_char(hex_value(s.subrange(i + 1, j)) as int)] + unescape_from(
            s,
            hex_escape_end(s, i + 1),
        )
    } else if is_newline(s[i + 1]) {
        unescape_from(s, i + 1)
    } else {
        seq![s[i + 1]] + unescape_from(s, i + 2)
    }
}

/// CSS unescaping: `\` followed by up to six hexadecimal digits (and an
/// optional space or tab) is that code point, `\` before a newline is
/// dropped, `\` before any other character keeps that character, and a
/// trailing `\` is dropped.
pub open spec fn unescape_spec(s: Seq<char>) -> Seq<char> {
    unescape_from(s, 0)
}

pub proof fn lemma_hex_end(s: Seq<char>, i: int, n: nat)
    requires
        0 <= i <= s.len(),
    ensures
        i <= hex_end(s, i, n) <= s.len(),
        hex_end(s, i, n) <= i + n,
        forall|k: int| i <= k < hex_end(s, i, n) ==> is_hex(#[trigger] s[k]),
    decreases n,
{
    if n > 0 && 0 <= i < s.len() && is_hex(s[i]) {
        lemma_hex_end(s, i + 1, (n - 1) as nat);
    }
}

/// `char::from_u32`.
#[verifier::external_body]
fn char_from_u32(cp: u32) -> (r: Option<char>)
    ensures
        r.is_some() == valid_scalar(cp as int),
        r matches Some(c) ==> c as int == cp as int,
{
    char::from_u32(cp)
}

pub(crate) fn is_hex_char(c: char) -> (r: bool)
    ensures
        r == is_hex(c),
{
    ('0' <= c && c <= '9') || ('a' <= c && c <= 'f') || ('A' <= c && c <= 'F')
}

fn hex_digit(c: char) -> (r: u32)
    requires
        is_hex(c),
    ensures
        r as nat == hex_digit_value(c),
        r < 16,
{
    if '0' <= c && c <= '9' {
        (c as u32) - ('0' as u32)
    } else if 'a' <= c && c <= 'f' {
        (c as u32) - ('a' as u32) + 10
    } else {
        (c as u32) - ('A' as u32) + 10
    }
}

pub(crate) fn decode_hex_escape(s: &[char], start: usize) -> (r: (char, usize, usize))
    requires
        start < s@.len(),
        is_hex(s@[start as int]),
    ensures
        r.1 == hex_end(s@, start as int, 6),
        r.2 == hex_escape_end(s@, start as int),
        r.0 == escape_char(hex_value(s@.subrange(start as int, r.1 as int)) as int),
{
    proof {
        lemma_hex_end(s@, start as int, 6);
    }
    let mut j = start;
    let mut v: u32 = 0;
    while j < s.len() && j - start < 6 && is_hex_char(s[j])
        invariant
            start <= j <= s@.len(),
            j - start <= 6,
            hex_end(s@, j as int, (6 - (j - start)) as nat) == hex_end(s@, start as int, 6),
            v as nat == hex_value(s@.subrange(start as int, j as int)),
            v < pow16((j - start) as int),
        decreases s@.len() - j,
    {
        let d = hex_digit(s[j]);
        proof {
            let sub = s@.subrange(start as int, j as int + 1);
            assert(sub.drop_last() =~= s@.subrange(start as int, j as int));
            assert(sub.last() == s@[j as int]);
            lemma_pow16_step((j - start) as nat);
        }
        v = v * 16 + d;
        j += 1;
    }
    let end = if j < s.len() && (s[j] == ' ' || s[j] == '\t') {
        j + 1
    } else {
        j
    };
    let ch = match char_from_u32(v) {
        Some(c) => c,
        None => '\u{FFFD}',
    };
    (ch, j, end)
}

spec fn pow16(n: int) -> int
    decreases n,
{
    if n <= 0 {
        1
    } else {
        16 * pow16(n - 1)
    }
}

proof fn lemma_pow16_step(n: nat)
    requires
        n < 6,
    ensures
        pow16(n as int + 1) == 16 * pow16(n as int),
        pow16(n as int + 1) <= 0x1000000,
{
    reveal_with_fuel(pow16, 7);
}

/// Unescapes CSS text given as characters.
pub fn unescape_chars(s: &[char]) -> (r: Vec<char>)
    ensures
        r@ == unescape_spec(s@),
{
    let mut out: Vec<char> = Vec::new();
    let mut i: usize = 0;
    while i < s.len()
        invariant
            i <= s@.len(),
            out@ + unescape_from(s@, i as int) == unescape_spec(s@),
        decreases s@.len() - i,
    {
        let c = s[i];
        if c != '\\' {
            proof {
                assert(out@.push(c) + unescape_from(s@, i + 1) =~= out@ + (seq![c] + unescape_from(s@, i + 1)));
            }
            out.push(c);
            i += 1;
        } else if i + 1 >= s.len() {
            proof {
                assert(out@ + Seq::<char>::empty() =~= out@);
            }
            i = s.len();
            proof {
                assert(unescape_from(s@, i as int) =~= Seq::<char>::empty());
                assert(out@ + unescape_from(s@, i as int) =~= out@);
            }
        } else if is_hex_char(s[i + 1]) {
            let (ch, _j, end) = decode_hex_escape(s, i + 1);
            proof {
                lemma_hex_end(s@, i + 1, 6);
                assert(out@.push(ch) + unescape_from(s@, end as int) =~= out@ + (seq![ch] + unescape_from(s@, end as int)));
            }
            out.push(ch);
            i = end;
        } else if s[i + 1] == '\r' || s[i + 1] == '\n' || s[i + 1] == '\x0c' {
            i += 1;
        } else {
            let n = s[i + 1];
            proof {
                assert(out@.push(n) + unescape_from(s@, i + 2) =~= out@ + (seq![n] + unescape_from(s@, i + 2)));
            }
            out.push(n);
            i += 2;
        }
    }
    proof {
        assert(unescape_from(s@, i as int) =~= Seq::<char>::empty());
        assert(out@ + Seq::<char>::empty() =~= out@);
    }
    out
}

/// Resolves CSS escapes in `s` (see `unescape_spec`).
pub fn unescape_css(s: &str) -> (r: String)
    ensures
        r@ == unescape_spec(s@),
{
    let cs = chars_of(s);
    let out = unescape_chars(cs.as_slice());
    string_from_chars(out.as_slice())
}

// ---------------------------------------------------------------------------
// Quoted values
// ---------------------------------------------------------------------------

pub open spec fn is_quoted(t: Seq<char>) -> bool {
    t.len() >= 2 && ((t[0] == '"' && t.last() == '"') || (t[0] == '\'' && t.last() == '\''))
}

/// Trims `s`, strips one pair of matching quotes and unescapes the rest.
pub open spec fn unquote_spec(s: Seq<char>) -> Seq<char> {
    let t = trim_seq(s);
    if is_quoted(t) {
        unescape_spec(t.subrange(1, t.len() - 1))
    } else {
        unescape_spec(t)
    }
}

pub fn unquote_chars(s: &[char]) -> (r: Vec<char>)
    ensures
        r@ == unquote_spec(s@),
{
    let t = trim_chars(s);
    let n = t.len();
    if n >= 2 && ((t[0] == '"' && t[n - 1] == '"') || (t[0] == '\'' && t[n - 1] == '\'')) {
        let mut inner: Vec<char> = Vec::new();
        let mut k: usize = 1;
        while k < n - 1
            invariant
                1 <= k <= n - 1,
                n == t@.len(),
                inner@ == t@.subrange(1, k as int),
            decreases n - 1 - k,
        {
            inner.push(t[k]);
            k += 1;
        }
        unescape_chars(inner.as_slice())
    } else {
        unescape_chars(t.as_slice())
    }
}

/// Unquotes and unescapes an attribute value or string argument.
pub fn unquote_and_unescape(s: &str) -> (r: String)
    ensures
        r@ == unquote_spec(s@),
{
    let cs = chars_of(s);
    let out = unquote_chars(cs.as_slice());
    string_from_chars(out.as_slice())
}


// ---------------------------------------------------------------------------
// Integers (`str::parse::<isize>`)
// ---------------------------------------------------------------------------

/// Why an integer failed to parse (the kinds `ParseIntError` reports).
#[derive(Debug, Clone, Copy, PartialEq, Eq, Structural)]
pub enum IntErrorKind {
    Empty,
    InvalidDigit,
    PosOverflow,
    NegOverflow,
}

pub open spec fn is_digit(c: char) -> bool {
    '0' <= c <= '9'
}

/// Parses the first `k` digits of `d`, accumulating towards negative
/// values when `neg`; the first bad digit or overflow, scanning from the
/// left, decides the error.
pub open spec fn int_digits(d: Seq<char>, neg: bool, k: int) -> Result<int, IntErrorKind>
    decreases k,
{
    if k <= 0 {
        Ok(0)
    } else {
        match int_digits(d, neg, k - 1) {
            Err(e) => Err(e),
            Ok(v) => if !is_digit(d[k - 1]) {
                Err(IntErrorKind::InvalidDigit)
            } else {
                let w = if neg {
                    v * 10 - (d[k - 1] as int - '0' as int)
                } else {
                    v * 10 + (d[k - 1] as int - '0' as int)
                };
                if w > isize::MAX {
                    Err(IntErrorKind::PosOverflow)
                } else if w < isize::MIN {
                    Err(IntErrorKind::NegOverflow)
                } else {
                    Ok(w)
                }
            },
        }
    }
}

/// `str::parse::<isize>`: an optional sign followed by decimal digits.
pub open spec fn int_parse(s: Seq<char>) -> Result<int, IntErrorKind> {
    if s.len() == 0 {
        Err(IntErrorKind::Empty)
    } else if s.len() == 1 && (s[0] == '+' || s[0] == '-') {
        Err(IntErrorKind::InvalidDigit)
    } else if s[0] == '-' {
        int_digits(s.drop_first(), true, s.len() - 1)
    } else if s[0] == '+' {
        int_digits(s.drop_first(), false, s.len() - 1)
    } else {
        int_digits(s, false, s.len() as int)
    }
}

/// The text `ParseIntError` displays for each kind.
pub open spec fn int_error_text(k: IntErrorKind) -> Seq<char> {
    match k {
        IntErrorKind::Empty => "cannot parse integer from empty string"@,
        IntErrorKind::InvalidDigit => "invalid digit found in string"@,
        IntErrorKind::PosOverflow => "number too large to fit in target type"@,
        IntErrorKind::NegOverflow => "number too small to fit in target type"@,
    }
}

pub fn int_error_message(k: IntErrorKind) -> (r: Vec<char>)
    ensures
        r@ == int_error_text(k),
{
    match k {
        IntErrorKind::Empty => chars_of("cannot parse integer from empty string"),
        IntErrorKind::InvalidDigit => chars_of("invalid digit found in string"),
        IntErrorKind::PosOverflow => chars_of("number too large to fit in target type"),
        IntErrorKind::NegOverflow => chars_of("number too small to fit in target type"),
    }
}

fn parse_digits(d: &[char], start: usize, neg: bool) -> (r: Result<isize, IntErrorKind>)
    requires
        start <= d@.len(),
    ensures
        match (r, int_digits(d@.subrange(start as int, d@.len() as int), neg, d@.len() - start)) {
            (Ok(v), Ok(w)) => v as int == w,
            (Err(e1), Err(e2)) => e1 == e2,
            _ => false,
        },
{
    let ghost ds = d@.subrange(start as int, d@.len() as int);
    let mut v: isize = 0;
    let mut i: usize = start;
    while i < d.len()
        invariant
            start <= i <= d@.len(),
            ds == d@.subrange(start as int, d@.len() as int),
            int_digits(ds, neg, i - start) == Ok::<int, IntErrorKind>(v as int),
        decreases d@.len() - i,
    {
        let c = d[i];
        assert(ds[i - start] == c);
        if !('0' <= c && c <= '9') {
            proof {
                lemma_int_digits_sticky(ds, neg, (i - start + 1) as int, ds.len() as int);
            }
            return Err(IntErrorKind::InvalidDigit);
        }
        let dig: i128 = (c as u32 - '0' as u32) as i128;
        let w: i128 = if neg {
            (v as i128) * 10 - dig
        } else {
            (v as i128) * 10 + dig
        };
        if w > isize::MAX as i128 {
            proof {
                lemma_int_digits_sticky(ds, neg, (i - start + 1) as int, ds.len() as int);
            }
            return Err(IntErrorKind::PosOverflow);
        }
        if w < isize::MIN as i128 {
            proof {
                lemma_int_digits_sticky(ds, neg, (i - start + 1) as int, ds.len() as int);
            }
            return Err(IntErrorKind::NegOverflow);
        }
        v = w as isize;
        i += 1;
    }
    Ok(v)
}

/// Once an error occurs, every longer prefix reports the same error.
proof fn lemma_int_digits_sticky(d: Seq<char>, neg: bool, k: int, m: int)
    requires
        0 <= k <= m,
        int_digits(d, neg, k) is Err,
    ensures
        int_digits(d, neg, m) == int_digits(d, neg, k),
    decreases m - k,
{
    if m > k {
        lemma_int_digits_sticky(d, neg, k, m - 1);
    }
}

/// `str::parse::<isize>` on characters.
pub fn parse_isize(s: &[char]) -> (r: Result<isize, IntErrorKind>)
    ensures
        match (r, int_parse(s@)) {
            (Ok(v), Ok(w)) => v as int == w,
            (Err(e1), Err(e2)) => e1 == e2,
            _ => false,
        },
{
    if s.len() == 0 {
        return Err(IntErrorKind::Empty);
    }
    if s.len() == 1 && (s[0] == '+' || s[0] == '-') {
        return Err(IntErrorKind::InvalidDigit);
    }
    if s[0] == '-' {
        proof {
            assert(s@.subrange(1, s@.len() as int) =~= s@.drop_first());
        }
        parse_digits(s, 1, true)
    } else if s[0] == '+' {
        proof {
            assert(s@.subrange(1, s@.len() as int) =~= s@.drop_first());
        }
        parse_digits(s, 1, false)
    } else {
        proof {
            assert(s@.subrange(0, s@.len() as int) =~= s@);
        }
        parse_digits(s, 0, false)
    }
}

// ---------------------------------------------------------------------------
// `An+B`
// ---------------------------------------------------------------------------

/// Why an `An+B` expression was refused.
pub enum NthError {
    Integer(IntErrorKind),
    Expression,
    Multiplier(IntErrorKind),
    Offset(IntErrorKind),
}

/// Index of the first `c` in `t` at or after `i`, or `t.len()`.
pub open spec fn find_char_from(t: Seq<char>, c: char, i: int) -> int
    decreases t.len() - i,
{
    if i < 0 || i >= t.len() {
        t.len() as int
    } else if t[i] == c {
        i
    } else {
        find_char_from(t, c, i + 1)
    }
}

/// `t` without spaces and tabs.
pub open spec fn strip_blanks(t: Seq<char>) -> Seq<char>
    decreases t.len(),
{
    if t.len() == 0 {
        Seq::empty()
    } else if t.last() == ' ' || t.last() == '\t' {
        strip_blanks(t.drop_last())
    } else {
        strip_blanks(t.drop_last()).push(t.last())
    }
}

/// The coefficient before `n`: empty or `+` is 1, `-` is -1.
pub open spec fn nth_multiplier(a: Seq<char>) -> Result<int, NthError> {
    if a.len() == 0 || a == seq!['+'] {
        Ok(1)
    } else if a == seq!['-'] {
        Ok(-1)
    } else {
        match int_parse(a) {
            Ok(v) => Ok(v),
            Err(e) => Err(NthError::Multiplier(e)),
        }
    }
}

/// `An+B` on an already trimmed, lowercased expression: `odd`, `even`, a
/// plain integer `B`, or `A n B` with exactly one `n`.
pub open spec fn nth_lower(t: Seq<char>) -> Result<(int, int), NthError> {
    let k = find_char_from(t, 'n', 0);
    if t == "odd"@ {
        Ok((2, 1))
    } else if t == "even"@ {
        Ok((2, 0))
    } else if k == t.len() {
        match int_parse(t) {
            Ok(b) => Ok((0, b)),
            Err(e) => Err(NthError::Integer(e)),
        }
    } else if find_char_from(t, 'n', k + 1) != t.len() {
        Err(NthError::Expression)
    } else {
        match nth_multiplier(trim_seq(t.subrange(0, k))) {
            Err(e) => Err(e),
            Ok(a) => {
                let b_part = strip_blanks(t.subrange(k + 1, t.len() as int));
                if b_part.len() == 0 {
                    Ok((a, 0))
                } else {
                    match int_parse(b_part) {
                        Ok(b) => Ok((a, b)),
                        Err(e) => Err(NthError::Offset(e)),
                    }
                }
            },
        }
    }
}

/// The message reported for a refused `An+B` expression `t`.
pub open spec fn nth_error_text(e: NthError, t: Seq<char>) -> Seq<char> {
    match e {
        NthError::Integer(k) => "Invalid nth integer: "@ + int_error_text(k),
        NthError::Expression => "Invalid nth expression: "@ + t,
        NthError::Multiplier(k) => "Invalid nth multiplier: "@ + int_error_text(k),
        NthError::Offset(k) => "Invalid nth offset: "@ + int_error_text(k),
    }
}

pub(crate) fn find_char(t: &[char], c: char, from: usize) -> (r: usize)
    requires
        from <= t@.len(),
    ensures
        r as int == find_char_from(t@, c, from as int),
        from <= r <= t@.len(),
{
    let mut i = from;
    while i < t.len() && t[i] != c
        invariant
            from <= i <= t@.len(),
            find_char_from(t@, c, i as int) == find_char_from(t@, c, from as int),
        decreases t@.len() - i,
    {
        i += 1;
    }
    i
}

fn strip_blanks_from(t: &[char], from: usize) -> (r: Vec<char>)
    requires
        from <= t@.len(),
    ensures
        r@ == strip_blanks(t@.subrange(from as int, t@.len() as int)),
{
    let mut out: Vec<char> = Vec::new();
    let mut i = from;
    proof {
        assert(t@.subrange(from as int, from as int) =~= Seq::<char>::empty());
    }
    while i < t.len()
        invariant
            from <= i <= t@.len(),
            out@ == strip_blanks(t@.subrange(from as int, i as int)),
        decreases t@.len() - i,
    {
        proof {
            let p = t@.subrange(from as int, i + 1);
            assert(p.drop_last() =~= t@.subrange(from as int, i as int));
            assert(p.last() == t@[i as int]);
        }
        if t[i] != ' ' && t[i] != '\t' {
            out.push(t[i]);
        }
        i += 1;
    }
    out
}

pub(crate) fn concat_chars(a: Vec<char>, b: &[char]) -> (r: Vec<char>)
    ensures
        r@ == a@ + b@,
{
    let mut r = a;
    let mut i: usize = 0;
    let ghost a0 = r@;
    while i < b.len()
        invariant
            i <= b@.len(),
            r@ == a0 + b@.subrange(0, i as int),
        decreases b@.len() - i,
    {
        r.push(b[i]);
        i += 1;
        proof {
            assert(r@ =~= a0 + b@.subrange(0, i as int));
        }
    }
    proof {
        assert(b@.subrange(0, b@.len() as int) =~= b@);
    }
    r
}

fn int_error_with(prefix: &str, k: IntErrorKind) -> (r: String)
    ensures
        r@ == prefix@ + int_error_text(k),
{
    let m = int_error_message(k);
    let v = concat_chars(chars_of(prefix), m.as_slice());
    string_from_chars(v.as_slice())
}

/// `An+B` on a trimmed, lowercased expression (see `nth_lower`).
pub fn parse_nth_lowered(t: &[char]) -> (r: Result<(isize, isize), String>)
    ensures
        match (r, nth_lower(t@)) {
            (Ok((a, b)), Ok((x, y))) => a as int == x && b as int == y,
            (Err(m), Err(e)) => m@ == nth_error_text(e, t@),
            _ => false,
        },
{
    let k = find_char(t, 'n', 0);
    if chars_eq(t, chars_of("odd").as_slice()) {
        return Ok((2, 1));
    }
    if chars_eq(t, chars_of("even").as_slice()) {
        return Ok((2, 0));
    }
    if k == t.len() {
        return match parse_isize(t) {
            Ok(b) => Ok((0, b)),
            Err(e) => Err(int_error_with("Invalid nth integer: ", e)),
        };
    }
    let k2 = find_char(t, 'n', k + 1);
    if k2 != t.len() {
        let v = concat_chars(chars_of("Invalid nth expression: "), t);
        return Err(string_from_chars(v.as_slice()));
    }
    let mut head: Vec<char> = Vec::new();
    let mut i: usize = 0;
    while i < k
        invariant
            i <= k < t@.len(),
            head@ == t@.subrange(0, i as int),
        decreases k - i,
    {
        head.push(t[i]);
        i += 1;
    }
    let a_str = trim_chars(head.as_slice());
    let a: isize = if a_str.len() == 0 || (a_str.len() == 1 && a_str[0] == '+') {
        proof {
            if a_str@.len() == 1 {
                assert(a_str@ =~= seq!['+']);
            }
        }
        1
    } else if a_str.len() == 1 && a_str[0] == '-' {
        proof {
            assert(a_str@ =~= seq!['-']);
            assert(a_str@ != seq!['+']);
        }
        -1
    } else {
        proof {
            assert(a_str@ != seq!['+']) by {
                if a_str@ == seq!['+'] {
                    assert(a_str@.len() == 1);
                }
            }
            assert(a_str@ != seq!['-']) by {
                if a_str@ == seq!['-'] {
                    assert(a_str@.len() == 1);
                }
            }
        }
        match parse_isize(a_str.as_slice()) {
            Ok(v) => v,
            Err(e) => {
                return Err(int_error_with("Invalid nth multiplier: ", e));
            },
        }
    };
    let b_part = strip_blanks_from(t, k + 1);
    if b_part.len() == 0 {
        return Ok((a, 0));
    }
    match parse_isize(b_part.as_slice()) {
        Ok(b) => Ok((a, b)),
        Err(e) => Err(int_error_with("Invalid nth offset: ", e)),
    }
}

/// Parses an `An+B` expression: the text is trimmed and lowercased first.
pub fn parse_nth_expr(s: &str) -> (r: Result<(isize, isize), String>)
    ensures
        match (r, nth_lower(unicode_lowercase(trim_seq(s@)))) {
            (Ok((a, b)), Ok((x, y))) => a as int == x && b as int == y,
            (Err(m), Err(e)) => m@ == nth_error_text(e, unicode_lowercase(trim_seq(s@))),
            _ => false,
        },
{
    let cs = chars_of(s);
    let trimmed = trim_chars(cs.as_slice());
    let lowered = to_unicode_lowercase(trimmed.as_slice());
    parse_nth_lowered(lowered.as_slice())
}

} // verus!
