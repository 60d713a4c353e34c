//! The JSONPath grammar, as recursive-descent functions on characters.
//!
//! ```text
//! path      := ('$' | ident)? segment* EOI        -- a leading ident is a field
//! segment   := '..' ('*' | ident | bracket) | '.' ('*' | ident) | bracket
//! bracket   := '[' ws* selector ws* ']'
//! selector  := '*' | filter | slice | union | number | string | ident
//! filter    := '?(' ws* ('@' | '$') ('.' ident)* (ws* op ws* value)? ws* ')'
//! op        := '==' | '!=' | '<=' | '>=' | '<' | '>' | '=~'
//! value     := string | number | 'true' | 'false' | 'null'
//! slice     := number? ws* ':' ws* number? (ws* ':' ws* number?)?
//! union     := item (ws* ',' ws* item)+
//! item      := number | string | ident
//! number    := '-'? digit+ ('.' digit+)?
//! string    := '\'' [^']* '\'' | '"' [^"]* '"'
//! ident     := (letter | '_') (letter | digit | '_' | '-')*
//! ws        := ' ' | '\t'
//! ```
//!
//! Alternatives are tried in order and repetitions are greedy, as in a PEG.
//! A number where an index is expected stands for an index only when it
//! parses as an `isize`; otherwise the selector contributes nothing, as does
//! a union whose items all drop out.
use crate::css_escape::{int_parse, is_digit};
use crate::json_path::FilterOp;
use vstd::prelude::*;

verus! {

/// A filter's comparison value.
pub enum ValV {
    Str(Seq<char>),
    Num(Seq<char>),
    Bool(bool),
    Null,
}

/// A member of a union selector.
pub enum ItemV {
    Field(Seq<char>),
    Index(int),
    Other,
}

/// A path segment.
pub enum SegV {
    Field(Seq<char>),
    Index(int),
    Wildcard,
    RecursiveField(Seq<char>),
    RecursiveWildcard,
    Slice(Option<int>, Option<int>, Option<int>),
    Union(Seq<ItemV>),
    Filter(Seq<Seq<char>>, Option<FilterOp>, Option<ValV>),
}

/// What a bracket holds.
pub enum SelV {
    Star,
    Filt(Seq<Seq<char>>, Option<FilterOp>, Option<ValV>),
    Slice(Option<int>, Option<int>, Option<int>),
    Union(Seq<ItemV>),
    Num(Seq<char>),
    Str(Seq<char>),
    Ident(Seq<char>),
}

// ---------------------------------------------------------------------------
// Tokens
// ---------------------------------------------------------------------------

pub open spec fn jp_ws(c: char) -> bool {
    c == ' ' || c == '\t'
}

pub open spec fn ident_start(c: char) -> bool {
    ('a' <= c <= 'z') || ('A' <= c <= 'Z') || c == '_'
}

pub open spec fn ident_char(c: char) -> bool {
    ident_start(c) || is_digit(c) || c == '-'
}

/// Position after the blanks starting at `i`.
pub open spec fn ws_end(s: Seq<char>, i: int) -> int
    decreases s.len() - i,
{
    if 0 <= i < s.len() && jp_ws(s[i]) {
        ws_end(s, i + 1)
    } else {
        i
    }
}

/// Position after the identifier characters starting at `i`.
pub open spec fn ident_tail(s: Seq<char>, i: int) -> int
    decreases s.len() - i,
{
    if 0 <= i < s.len() && ident_char(s[i]) {
        ident_tail(s, i + 1)
    } else {
        i
    }
}

/// Position after the digits starting at `i`.
pub open spec fn digits_end(s: Seq<char>, i: int) -> int
    decreases s.len() - i,
{
    if 0 <= i < s.len() && is_digit(s[i]) {
        digits_end(s, i + 1)
    } else {
        i
    }
}

/// First position from `j` on that holds `q`, or -1.
pub open spec fn close_quote(s: Seq<char>, j: int, q: char) -> int
    decreases s.len() - j,
{
    if !(0 <= j < s.len()) {
        -1
    } else if s[j] == q {
        j
    } else {
        close_quote(s, j + 1, q)
    }
}

pub proof fn lemma_ws_end(s: Seq<char>, i: int)
    requires
        0 <= i <= s.len(),
    ensures
        i <= ws_end(s, i) <= s.len(),
    decreases s.len() - i,
{
    if i < s.len() && jp_ws(s[i]) {
        lemma_ws_end(s, i + 1);
    }
}

pub proof fn lemma_ident_tail(s: Seq<char>, i: int)
    requires
        0 <= i <= s.len(),
    ensures
        i <= ident_tail(s, i) <= s.len(),
    decreases s.len() - i,
{
    if i < s.len() && ident_char(s[i]) {
        lemma_ident_tail(s, i + 1);
    }
}

pub proof fn lemma_digits_end(s: Seq<char>, i: int)
    requires
        0 <= i <= s.len(),
    ensures
        i <= digits_end(s, i) <= s.len(),
    decreases s.len() - i,
{
    if i < s.len() && is_digit(s[i]) {
        lemma_digits_end(s, i + 1);
    }
}

pub proof fn lemma_close_quote(s: Seq<char>, j: int, q: char)
    requires
        0 <= j,
    ensures
        close_quote(s, j, q) == -1 || (j <= close_quote(s, j, q) < s.len() && s[close_quote(
            s,
            j,
            q,
        )] == q),
    decreases s.len() - j,
{
    if 0 <= j < s.len() && s[j] != q {
        lemma_close_quote(s, j + 1, q);
    }
}

/// End of the identifier at `i`.
pub open spec fn ident_at(s: Seq<char>, i: int) -> Option<int> {
    if 0 <= i < s.len() && ident_start(s[i]) {
        Some(ident_tail(s, i + 1))
    } else {
        None
    }
}

/// End of the number at `i`.
pub open spec fn number_at(s: Seq<char>, i: int) -> Option<int> {
    let j = if 0 <= i < s.len() && s[i] == '-' {
        i + 1
    } else {
        i
    };
    let d = digits_end(s, j);
    if !(0 <= i <= s.len()) || d == j {
        None
    } else if d + 1 < s.len() && s[d] == '.' && is_digit(s[d + 1]) {
        Some(digits_end(s, d + 1))
    } else {
        Some(d)
    }
}

/// End, past the closing quote, of the quoted string at `i`.
pub open spec fn string_at(s: Seq<char>, i: int) -> Option<int> {
    if 0 <= i < s.len() && (s[i] == '\'' || s[i] == '"') {
        let k = close_quote(s, i + 1, s[i]);
        if k < 0 {
            None
        } else {
            Some(k + 1)
        }
    } else {
        None
    }
}

pub proof fn lemma_tokens(s: Seq<char>, i: int)
    requires
        0 <= i <= s.len(),
    ensures
        ident_at(s, i) matches Some(e) ==> i < e <= s.len(),
        number_at(s, i) matches Some(e) ==> i < e <= s.len(),
        string_at(s, i) matches Some(e) ==> i + 2 <= e <= s.len(),
        i <= ws_end(s, i) <= s.len(),
{
    lemma_ws_end(s, i);
    if i < s.len() {
        lemma_ident_tail(s, i + 1);
        lemma_close_quote(s, i + 1, s[i]);
    }
    let j = if 0 <= i < s.len() && s[i] == '-' {
        i + 1
    } else {
        i
    };
    lemma_digits_end(s, j);
    let d = digits_end(s, j);
    if d + 1 < s.len() {
        lemma_digits_end(s, d + 1);
    }
}

/// `w` stands at `i`.
pub open spec fn word_at(s: Seq<char>, i: int, w: Seq<char>) -> bool {
    0 <= i && i + w.len() <= s.len() && s.subrange(i, i + w.len()) == w
}

// ---------------------------------------------------------------------------
// Filters
// ---------------------------------------------------------------------------

/// The comparison operator at `i`.
pub open spec fn op_at(s: Seq<char>, i: int) -> Option<(FilterOp, int)> {
    if !(0 <= i < s.len()) {
        None
    } else {
        let two = i + 1 < s.len();
        if two && s[i] == '=' && s[i + 1] == '=' {
            Some((FilterOp::Eq, i + 2))
        } else if two && s[i] == '!' && s[i + 1] == '=' {
            Some((FilterOp::Neq, i + 2))
        } else if two && s[i] == '<' && s[i + 1] == '=' {
            Some((FilterOp::Lte, i + 2))
        } else if two && s[i] == '>' && s[i + 1] == '=' {
            Some((FilterOp::Gte, i + 2))
        } else if s[i] == '<' {
            Some((FilterOp::Lt, i + 1))
        } else if s[i] == '>' {
            Some((FilterOp::Gt, i + 1))
        } else if two && s[i] == '=' && s[i + 1] == '~' {
            Some((FilterOp::RegexMatch, i + 2))
        } else {
            None
        }
    }
}

/// The comparison value at `i`.
pub open spec fn value_at(s: Seq<char>, i: int) -> Option<(ValV, int)> {
    match string_at(s, i) {
        Some(e) => Some((ValV::Str(s.subrange(i + 1, e - 1)), e)),
        None => match number_at(s, i) {
            Some(e) => Some((ValV::Num(s.subrange(i, e)), e)),
            None => if word_at(s, i, "true"@) {
                Some((ValV::Bool(true), i + 4))
            } else if word_at(s, i, "false"@) {
                Some((ValV::Bool(false), i + 5))
            } else if word_at(s, i, "null"@) {
                Some((ValV::Null, i + 4))
            } else {
                None
            },
        },
    }
}

/// Extends the filter path `acc` with the `.name` parts from `j` on.
pub open spec fn fpath_rest(s: Seq<char>, j: int, acc: Seq<Seq<char>>) -> (Seq<Seq<char>>, int)
    decreases s.len() - j,
{
    if 0 <= j < s.len() && s[j] == '.' {
        match ident_at(s, j + 1) {
            Some(e) => if j < e <= s.len() {
                fpath_rest(s, e, acc.push(s.subrange(j + 1, e)))
            } else {
                (acc, j)
            },
            None => (acc, j),
        }
    } else {
        (acc, j)
    }
}

/// The optional comparison after a filter path ending at `b`:
/// operator, value and the position after them (`b` when absent).
pub open spec fn comparison_at(s: Seq<char>, b: int) -> (Option<FilterOp>, Option<ValV>, int) {
    match op_at(s, ws_end(s, b)) {
        Some((o, c)) => match value_at(s, ws_end(s, c)) {
            Some((v, d)) => (Some(o), Some(v), d),
            None => (None, None, b),
        },
        None => (None, None, b),
    }
}

/// The filter selector at `i`.
pub open spec fn filter_at(s: Seq<char>, i: int) -> Option<(SelV, int)> {
    if !(0 <= i && i + 1 < s.len() && s[i] == '?' && s[i + 1] == '(') {
        None
    } else {
        let a = ws_end(s, i + 2);
        if !(a < s.len() && (s[a] == '@' || s[a] == '$')) {
            None
        } else {
            let (path, b) = fpath_rest(s, a + 1, Seq::empty());
            let (op, val, d) = comparison_at(s, b);
            let e = ws_end(s, d);
            if 0 <= e < s.len() && s[e] == ')' {
                Some((SelV::Filt(path, op, val), e + 1))
            } else {
                None
            }
        }
    }
}

// ---------------------------------------------------------------------------
// Slices and unions
// ---------------------------------------------------------------------------

/// An `isize` read from the text of a number token, if it is one.
pub open spec fn isize_of(t: Seq<char>) -> Option<int> {
    match int_parse(t) {
        Ok(n) => Some(n),
        Err(_) => None,
    }
}

/// An optional number at `i`: its value as an index and the position after it.
pub open spec fn opt_num(s: Seq<char>, i: int) -> (Option<int>, int) {
    match number_at(s, i) {
        Some(e) => (isize_of(s.subrange(i, e)), e),
        None => (None, i),
    }
}

/// The slice selector at `i`.
pub open spec fn slice_at(s: Seq<char>, i: int) -> Option<(SelV, int)> {
    let (st, a) = opt_num(s, i);
    let b = ws_end(s, a);
    if !(0 <= b < s.len() && s[b] == ':') {
        None
    } else {
        let (en, c) = opt_num(s, ws_end(s, b + 1));
        let d = ws_end(s, c);
        if 0 <= d < s.len() && s[d] == ':' {
            let (sp, e) = opt_num(s, ws_end(s, d + 1));
            Some((SelV::Slice(st, en, sp), e))
        } else {
            Some((SelV::Slice(st, en, None), c))
        }
    }
}

/// A union member at `i`: what it contributes and the position after it.
pub open spec fn item_at(s: Seq<char>, i: int) -> Option<(Option<ItemV>, int)> {
    match number_at(s, i) {
        Some(e) => Some(
            (
                match isize_of(s.subrange(i, e)) {
                    Some(n) => Some(ItemV::Index(n)),
                    None => None,
                },
                e,
            ),
        ),
        None => match string_at(s, i) {
            Some(e) => Some((Some(ItemV::Field(s.subrange(i + 1, e - 1))), e)),
            None => match ident_at(s, i) {
                Some(e) => Some((Some(ItemV::Field(s.subrange(i, e))), e)),
                None => None,
            },
        },
    }
}

pub open spec fn push_opt<A>(acc: Seq<A>, o: Option<A>) -> Seq<A> {
    match o {
        Some(x) => acc.push(x),
        None => acc,
    }
}

/// Extends `acc` with the comma-separated members from `j` on.
pub open spec fn union_rest(s: Seq<char>, j: int, acc: Seq<ItemV>) -> (Seq<ItemV>, int)
    decreases s.len() - j,
{
    let a = ws_end(s, j);
    if 0 <= j <= a < s.len() && s[a] == ',' {
        match item_at(s, ws_end(s, a + 1)) {
            Some((o, e)) => if j < e <= s.len() {
                union_rest(s, e, push_opt(acc, o))
            } else {
                (acc, j)
            },
            None => (acc, j),
        }
    } else {
        (acc, j)
    }
}

/// The union selector at `i`: at least two members.
pub open spec fn union_at(s: Seq<char>, i: int) -> Option<(SelV, int)> {
    match item_at(s, i) {
        Some((o, e)) => {
            let (items, f) = union_rest(s, e, push_opt(Seq::empty(), o));
            if f == e {
                None
            } else {
                Some((SelV::Union(items), f))
            }
        },
        None => None,
    }
}

// ---------------------------------------------------------------------------
// Brackets, segments, paths
// ---------------------------------------------------------------------------

/// What a bracket starting its contents at `i` holds.
pub open spec fn selector_at(s: Seq<char>, i: int) -> Option<(SelV, int)> {
    if 0 <= i < s.len() && s[i] == '*' {
        Some((SelV::Star, i + 1))
    } else {
        match filter_at(s, i) {
            Some(x) => Some(x),
            None => match slice_at(s, i) {
                Some(x) => Some(x),
                None => match union_at(s, i) {
                    Some(x) => Some(x),
                    None => match number_at(s, i) {
                        Some(e) => Some((SelV::Num(s.subrange(i, e)), e)),
                        None => match string_at(s, i) {
                            Some(e) => Some((SelV::Str(s.subrange(i + 1, e - 1)), e)),
                            None => match ident_at(s, i) {
                                Some(e) => Some((SelV::Ident(s.subrange(i, e)), e)),
                                None => None,
                            },
                        },
                    },
                },
            },
        }
    }
}

/// The bracket at `i`.
pub open spec fn bracket_at(s: Seq<char>, i: int) -> Option<(SelV, int)> {
    if 0 <= i < s.len() && s[i] == '[' {
        match selector_at(s, ws_end(s, i + 1)) {
            Some((v, e)) => {
                let b = ws_end(s, e);
                if 0 <= b < s.len() && s[b] == ']' {
                    Some((v, b + 1))
                } else {
                    None
                }
            },
            None => None,
        }
    } else {
        None
    }
}

/// The segment a bracket stands for after `.` or `[`.
pub open spec fn bracket_seg(v: SelV) -> Option<SegV> {
    match v {
        SelV::Star => Some(SegV::Wildcard),
        SelV::Num(t) => match isize_of(t) {
            Some(n) => Some(SegV::Index(n)),
            None => None,
        },
        SelV::Str(t) => Some(SegV::Field(t)),
        SelV::Ident(t) => Some(SegV::Field(t)),
        SelV::Slice(a, b, c) => Some(SegV::Slice(a, b, c)),
        SelV::Union(items) => if items.len() > 0 {
            Some(SegV::Union(items))
        } else {
            None
        },
        SelV::Filt(p, o, x) => Some(SegV::Filter(p, o, x)),
    }
}

/// The segment a bracket stands for after `..`.
pub open spec fn recursive_bracket_seg(v: SelV) -> Option<SegV> {
    match v {
        SelV::Star => Some(SegV::RecursiveWildcard),
        SelV::Str(t) => Some(SegV::RecursiveField(t)),
        SelV::Ident(t) => Some(SegV::RecursiveField(t)),
        _ => None,
    }
}

/// The segment at `i`: what it contributes and the position after it.
pub open spec fn segment_at(s: Seq<char>, i: int) -> Option<(Option<SegV>, int)> {
    if 0 <= i && i + 1 < s.len() && s[i] == '.' && s[i + 1] == '.' {
        let j = i + 2;
        if j < s.len() && s[j] == '*' {
            Some((Some(SegV::RecursiveWildcard), j + 1))
        } else {
            match ident_at(s, j) {
                Some(e) => Some((Some(SegV::RecursiveField(s.subrange(j, e))), e)),
                None => match bracket_at(s, j) {
                    Some((v, e)) => Some((recursive_bracket_seg(v), e)),
                    None => None,
                },
            }
        }
    } else if 0 <= i < s.len() && s[i] == '.' {
        let j = i + 1;
        if j < s.len() && s[j] == '*' {
            Some((Some(SegV::Wildcard), j + 1))
        } else {
            match ident_at(s, j) {
                Some(e) => Some((Some(SegV::Field(s.subrange(j, e))), e)),
                None => None,
            }
        }
    } else {
        match bracket_at(s, i) {
            Some((v, e)) => Some((bracket_seg(v), e)),
            None => None,
        }
    }
}

/// Extends `acc` with the segments from `j` to the end of `s`; `None` when
/// something other than a segment stands before the end.
pub open spec fn segs_rest(s: Seq<char>, j: int, acc: Seq<SegV>) -> Option<Seq<SegV>>
    decreases s.len() - j,
{
    if !(0 <= j <= s.len()) {
        None
    } else if j == s.len() {
        Some(acc)
    } else {
        match segment_at(s, j) {
            Some((o, e)) => if j < e <= s.len() {
                segs_rest(s, e, push_opt(acc, o))
            } else {
                None
            },
            None => None,
        }
    }
}

/// The segments of a whole path, or `None` when it does not parse.
pub open spec fn parse_path(s: Seq<char>) -> Option<Seq<SegV>> {
    if s.len() > 0 && s[0] == '$' {
        segs_rest(s, 1, Seq::empty())
    } else {
        match ident_at(s, 0) {
            Some(e) => segs_rest(s, e, seq![SegV::Field(s.subrange(0, e))]),
            None => segs_rest(s, 0, Seq::empty()),
        }
    }
}

// ---------------------------------------------------------------------------
// Dotted paths
// ---------------------------------------------------------------------------

/// A name that parses as an identifier.
pub open spec fn is_ident(n: Seq<char>) -> bool {
    n.len() > 0 && ident_start(n[0]) && forall|k: int| 1 <= k < n.len() ==> #[trigger] ident_char(n[k])
}

/// `.n0.n1...` for the names `names`.
pub open spec fn dotted(names: Seq<Seq<char>>) -> Seq<char>
    decreases names.len(),
{
    if names.len() == 0 {
        Seq::empty()
    } else {
        seq!['.'] + names[0] + dotted(names.drop_first())
    }
}

pub open spec fn fields_of(names: Seq<Seq<char>>) -> Seq<SegV> {
    names.map_values(|n: Seq<char>| SegV::Field(n))
}

proof fn lemma_ident_tail_run(s: Seq<char>, i: int, k: int)
    requires
        0 <= i <= k <= s.len(),
        forall|m: int| i <= m < k ==> #[trigger] ident_char(s[m]),
        k == s.len() || !ident_char(s[k]),
    ensures
        ident_tail(s, i) == k,
    decreases k - i,
{
    if i < k {
        lemma_ident_tail_run(s, i + 1, k);
    }
}

proof fn lemma_dotted_rest(p: Seq<char>, names: Seq<Seq<char>>, acc: Seq<SegV>)
    requires
        forall|k: int| 0 <= k < names.len() ==> #[trigger] is_ident(names[k]),
    ensures
        segs_rest(p + dotted(names), p.len() as int, acc) == Some(acc + fields_of(names)),
    decreases names.len(),
{
    let s = p + dotted(names);
    let j = p.len() as int;
    if names.len() == 0 {
        assert(s =~= p);
        assert(acc + fields_of(names) =~= acc);
    } else {
        let n0 = names[0];
        let tail = names.drop_first();
        let p2 = p + seq!['.'] + n0;
        assert(is_ident(n0));
        assert(s =~= p2 + dotted(tail));
        assert(s[j] == '.');
        assert(s[j + 1] == n0[0]);
        let e = j + 1 + n0.len();
        assert forall|m: int| j + 2 <= m < e implies #[trigger] ident_char(s[m]) by {
            assert(s[m] == n0[m - j - 1]);
        }
        if tail.len() > 0 {
            assert(s[e] == '.');
        }
        assert(e == s.len() || !ident_char(s[e]));
        lemma_ident_tail_run(s, j + 2, e);
        assert(ident_at(s, j + 1) == Some(e));
        assert(s.subrange(j + 1, e) =~= n0);
        assert(segment_at(s, j) == Some((Some(SegV::Field(n0)), e)));
        assert forall|k: int| 0 <= k < tail.len() implies #[trigger] is_ident(tail[k]) by {
            assert(tail[k] == names[k + 1]);
        }
        lemma_dotted_rest(p2, tail, acc.push(SegV::Field(n0)));
        assert(p2.len() == e);
        assert(acc.push(SegV::Field(n0)) + fields_of(tail) =~= acc + fields_of(names));
    }
}

/// A path of `$` and dot-separated identifiers selects those fields, in
/// order.
pub proof fn lemma_dotted_path(names: Seq<Seq<char>>)
    requires
        forall|k: int| 0 <= k < names.len() ==> #[trigger] is_ident(names[k]),
    ensures
        parse_path(seq!['$'] + dotted(names)) == Some(fields_of(names)),
{
    let s = seq!['$'] + dotted(names);
    lemma_dotted_rest(seq!['$'], names, Seq::empty());
    assert(Seq::<SegV>::empty() + fields_of(names) =~= fields_of(names));
    assert(s[0] == '$');
}

} // verus!
