//! JSONPath expressions: their segments and a parser for them (see
//! `json_grammar`).
use crate::css_escape::{concat_chars, int_parse, is_digit, parse_isize};
use crate::json_grammar::{
    bracket_at, bracket_seg, close_quote, comparison_at, digits_end, filter_at, fpath_rest,
    ident_at, ident_char, ident_start, ident_tail, isize_of, item_at, jp_ws, lemma_close_quote,
    lemma_digits_end, lemma_ident_tail, lemma_tokens, lemma_ws_end, number_at, op_at, opt_num,
    parse_path, push_opt, recursive_bracket_seg, segment_at, segs_rest, selector_at, slice_at,
    string_at, union_at, union_rest, value_at, word_at, ws_end, ItemV, SegV, SelV, ValV,
};
use crate::text::{chars_eq, chars_of, string_from_chars, subrange_chars};
use vstd::prelude::*;

verus! {

#[derive(Debug, Clone, Copy, Default)]
pub struct JsonPathParser;

#[derive(Debug, Clone, Copy, PartialEq, Eq, Structural)]
pub enum FilterOp {
    Eq,
    Neq,
    Lt,
    Lte,
    Gt,
    Gte,
    RegexMatch,
}

/// The value a filter compares with; a number is kept as its literal text.
#[derive(Debug, Clone, PartialEq)]
pub enum FilterVal {
    String(String),
    Number(String),
    Bool(bool),
    Null,
}

#[derive(Debug, PartialEq)]
pub enum JsonSegment {
    Field(String),
    Index(isize),
    Wildcard,
    RecursiveField(String),
    RecursiveWildcard,
    Slice { start: Option<isize>, end: Option<isize>, step: Option<isize> },
    Union(Vec<JsonSegment>),
    Filter { path: Vec<String>, op: Option<FilterOp>, value: Option<FilterVal> },
}

// ---------------------------------------------------------------------------
// Views
// ---------------------------------------------------------------------------

pub open spec fn val_view(v: FilterVal) -> ValV {
    match v {
        FilterVal::String(t) => ValV::Str(t@),
        FilterVal::Number(t) => ValV::Num(t@),
        FilterVal::Bool(b) => ValV::Bool(b),
        FilterVal::Null => ValV::Null,
    }
}

pub open spec fn opt_val_view(v: Option<FilterVal>) -> Option<ValV> {
    match v {
        Some(x) => Some(val_view(x)),
        None => None,
    }
}

pub open spec fn opt_int(o: Option<isize>) -> Option<int> {
    match o {
        Some(n) => Some(n as int),
        None => None,
    }
}

pub open spec fn item_view(x: JsonSegment) -> ItemV {
    match x {
        JsonSegment::Field(f) => ItemV::Field(f@),
        JsonSegment::Index(n) => ItemV::Index(n as int),
        _ => ItemV::Other,
    }
}

pub open spec fn items_view(v: Seq<JsonSegment>) -> Seq<ItemV> {
    v.map_values(|x: JsonSegment| item_view(x))
}

pub open spec fn names_view(v: Seq<String>) -> Seq<Seq<char>> {
    v.map_values(|p: String| p@)
}

pub open spec fn seg_view(x: JsonSegment) -> SegV {
    match x {
        JsonSegment::Field(f) => SegV::Field(f@),
        JsonSegment::Index(n) => SegV::Index(n as int),
        JsonSegment::Wildcard => SegV::Wildcard,
        JsonSegment::RecursiveField(f) => SegV::RecursiveField(f@),
        JsonSegment::RecursiveWildcard => SegV::RecursiveWildcard,
        JsonSegment::Slice { start, end, step } => SegV::Slice(
            opt_int(start),
            opt_int(end),
            opt_int(step),
        ),
        JsonSegment::Union(items) => SegV::Union(items_view(items@)),
        JsonSegment::Filter { path, op, value } => SegV::Filter(
            names_view(path@),
            op,
            opt_val_view(value),
        ),
    }
}

pub open spec fn segs_view(v: Seq<JsonSegment>) -> Seq<SegV> {
    v.map_values(|x: JsonSegment| seg_view(x))
}

pub open spec fn opt_seg_view(o: Option<JsonSegment>) -> Option<SegV> {
    match o {
        Some(x) => Some(seg_view(x)),
        None => None,
    }
}

pub open spec fn opt_item_view(o: Option<JsonSegment>) -> Option<ItemV> {
    match o {
        Some(x) => Some(item_view(x)),
        None => None,
    }
}

/// The error for a path that does not parse.
pub open spec fn json_path_error(path: Seq<char>) -> Seq<char> {
    "JSONPath parse error: "@ + path
}

// ---------------------------------------------------------------------------
// Tokens
// ---------------------------------------------------------------------------

fn ws_end_at(s: &[char], i: usize) -> (r: usize)
    requires
        i <= s@.len(),
    ensures
        r == ws_end(s@, i as int),
        i <= r <= s@.len(),
{
    let mut k = i;
    while k < s.len() && (s[k] == ' ' || s[k] == '\t')
        invariant
            i <= k <= s@.len(),
            ws_end(s@, k as int) == ws_end(s@, i as int),
        decreases s@.len() - k,
    {
        k += 1;
    }
    k
}

fn is_ident_start(c: char) -> (r: bool)
    ensures
        r == ident_start(c),
{
    ('a' <= c && c <= 'z') || ('A' <= c && c <= 'Z') || c == '_'
}

fn is_ident_char(c: char) -> (r: bool)
    ensures
        r == ident_char(c),
{
    is_ident_start(c) || ('0' <= c && c <= '9') || c == '-'
}

fn ident_at_pos(s: &[char], i: usize) -> (r: Option<usize>)
    requires
        i <= s@.len(),
    ensures
        match (r, ident_at(s@, i as int)) {
            (Some(e), Some(f)) => e == f,
            (None, None) => true,
            _ => false,
        },
        r matches Some(e) ==> i < e <= s@.len(),
{
    proof {
        lemma_tokens(s@, i as int);
    }
    if !(i < s.len() && is_ident_start(s[i])) {
        return None;
    }
    let mut k = i + 1;
    while k < s.len() && is_ident_char(s[k])
        invariant
            i < k <= s@.len(),
            ident_tail(s@, k as int) == ident_tail(s@, i + 1),
        decreases s@.len() - k,
    {
        k += 1;
    }
    Some(k)
}

fn digits_end_at(s: &[char], i: usize) -> (r: usize)
    requires
        i <= s@.len(),
    ensures
        r == digits_end(s@, i as int),
        i <= r <= s@.len(),
{
    let mut k = i;
    while k < s.len() && '0' <= s[k] && s[k] <= '9'
        invariant
            i <= k <= s@.len(),
            digits_end(s@, k as int) == digits_end(s@, i as int),
        decreases s@.len() - k,
    {
        k += 1;
    }
    k
}

fn number_at_pos(s: &[char], i: usize) -> (r: Option<usize>)
    requires
        i <= s@.len(),
    ensures
        match (r, number_at(s@, i as int)) {
            (Some(e), Some(f)) => e == f,
            (None, None) => true,
            _ => false,
        },
        r matches Some(e) ==> i < e <= s@.len(),
{
    proof {
        lemma_tokens(s@, i as int);
    }
    let j = if i < s.len() && s[i] == '-' {
        i + 1
    } else {
        i
    };
    let d = digits_end_at(s, j);
    if d == j {
        return None;
    }
    if d < s.len() && d + 1 < s.len() && s[d] == '.' && '0' <= s[d + 1] && s[d + 1] <= '9' {
        Some(digits_end_at(s, d + 1))
    } else {
        Some(d)
    }
}

fn string_at_pos(s: &[char], i: usize) -> (r: Option<usize>)
    requires
        i <= s@.len(),
    ensures
        match (r, string_at(s@, i as int)) {
            (Some(e), Some(f)) => e == f,
            (None, None) => true,
            _ => false,
        },
        r matches Some(e) ==> i + 2 <= e <= s@.len(),
{
    proof {
        lemma_tokens(s@, i as int);
    }
    if !(i < s.len() && (s[i] == '\'' || s[i] == '"')) {
        return None;
    }
    let q = s[i];
    let mut k = i + 1;
    while k < s.len() && s[k] != q
        invariant
            i < k <= s@.len(),
            q == s@[i as int],
            close_quote(s@, k as int, q) == close_quote(s@, i + 1, q),
        decreases s@.len() - k,
    {
        k += 1;
    }
    if k < s.len() {
        Some(k + 1)
    } else {
        None
    }
}

fn word_at_pos(s: &[char], i: usize, w: &str) -> (r: bool)
    requires
        i <= s@.len(),
    ensures
        r == word_at(s@, i as int, w@),
{
    let wc = chars_of(w);
    if wc.len() > s.len() - i {
        return false;
    }
    let part = subrange_chars(s, i, i + wc.len());
    chars_eq(part.as_slice(), wc.as_slice())
}

fn slice_string(s: &[char], a: usize, b: usize) -> (r: String)
    requires
        a <= b <= s@.len(),
    ensures
        r@ == s@.subrange(a as int, b as int),
{
    let v = subrange_chars(s, a, b);
    string_from_chars(v.as_slice())
}

fn isize_at(s: &[char], a: usize, b: usize) -> (r: Option<isize>)
    requires
        a <= b <= s@.len(),
    ensures
        opt_int(r) == isize_of(s@.subrange(a as int, b as int)),
{
    let v = subrange_chars(s, a, b);
    match parse_isize(v.as_slice()) {
        Ok(n) => Some(n),
        Err(_) => None,
    }
}

// ---------------------------------------------------------------------------
// Filters
// ---------------------------------------------------------------------------

fn op_at_pos(s: &[char], i: usize) -> (r: Option<(FilterOp, usize)>)
    requires
        i <= s@.len(),
    ensures
        match (r, op_at(s@, i as int)) {
            (Some((o, e)), Some((p, f))) => o == p && e == f,
            (None, None) => true,
            _ => false,
        },
        r matches Some((_, e)) ==> i < e <= s@.len(),
{
    if i >= s.len() {
        return None;
    }
    let two = i + 1 < s.len();
    let c = s[i];
    if two && c == '=' && s[i + 1] == '=' {
        Some((FilterOp::Eq, i + 2))
    } else if two && c == '!' && s[i + 1] == '=' {
        Some((FilterOp::Neq, i + 2))
    } else if two && c == '<' && s[i + 1] == '=' {
        Some((FilterOp::Lte, i + 2))
    } else if two && c == '>' && s[i + 1] == '=' {
        Some((FilterOp::Gte, i + 2))
    } else if c == '<' {
        Some((FilterOp::Lt, i + 1))
    } else if c == '>' {
        Some((FilterOp::Gt, i + 1))
    } else if two && c == '=' && s[i + 1] == '~' {
        Some((FilterOp::RegexMatch, i + 2))
    } else {
        None
    }
}

fn value_at_pos(s: &[char], i: usize) -> (r: Option<(FilterVal, usize)>)
    requires
        i <= s@.len(),
    ensures
        match (r, value_at(s@, i as int)) {
            (Some((v, e)), Some((w, f))) => val_view(v) == w && e == f,
            (None, None) => true,
            _ => false,
        },
        r matches Some((_, e)) ==> i < e <= s@.len(),
{
    proof {
        reveal_strlit("true");
        reveal_strlit("false");
        reveal_strlit("null");
    }
    match string_at_pos(s, i) {
        Some(e) => {
            return Some((FilterVal::String(slice_string(s, i + 1, e - 1)), e));
        },
        None => {},
    }
    match number_at_pos(s, i) {
        Some(e) => {
            return Some((FilterVal::Number(slice_string(s, i, e)), e));
        },
        None => {},
    }
    assert("true"@.len() == 4 && "false"@.len() == 5 && "null"@.len() == 4);
    if word_at_pos(s, i, "true") {
        let n = s.len();
        assert(i + 4 <= n);
        Some((FilterVal::Bool(true), i + 4))
    } else if word_at_pos(s, i, "false") {
        let n = s.len();
        assert(i + 5 <= n);
        Some((FilterVal::Bool(false), i + 5))
    } else if word_at_pos(s, i, "null") {
        let n = s.len();
        assert(i + 4 <= n);
        Some((FilterVal::Null, i + 4))
    } else {
        None
    }
}

fn fpath_at_pos(s: &[char], j0: usize) -> (r: (Vec<String>, usize))
    requires
        j0 <= s@.len(),
    ensures
        (names_view(r.0@), r.1 as int) == fpath_rest(s@, j0 as int, Seq::empty()),
        j0 <= r.1 <= s@.len(),
{
    let mut acc: Vec<String> = Vec::new();
    let mut j = j0;
    proof {
        assert(names_view(acc@) =~= Seq::<Seq<char>>::empty());
    }
    loop
        invariant
            j0 <= j <= s@.len(),
            fpath_rest(s@, j as int, names_view(acc@)) == fpath_rest(s@, j0 as int, Seq::empty()),
        decreases s@.len() - j,
    {
        if !(j < s.len() && s[j] == '.') {
            return (acc, j);
        }
        match ident_at_pos(s, j + 1) {
            None => {
                return (acc, j);
            },
            Some(e) => {
                let name = slice_string(s, j + 1, e);
                let ghost before = names_view(acc@);
                acc.push(name);
                proof {
                    assert(names_view(acc@) =~= before.push(s@.subrange(j + 1, e as int)));
                }
                j = e;
            },
        }
    }
}

fn filter_at_pos(s: &[char], i: usize) -> (r: Option<(Selector, usize)>)
    requires
        i <= s@.len(),
    ensures
        match (r, filter_at(s@, i as int)) {
            (Some((v, e)), Some((w, f))) => sel_view(v) == w && e == f,
            (None, None) => true,
            _ => false,
        },
        r matches Some((_, e)) ==> i < e <= s@.len(),
{
    if !(i < s.len() && i + 1 < s.len() && s[i] == '?' && s[i + 1] == '(') {
        return None;
    }
    let a = ws_end_at(s, i + 2);
    if !(a < s.len() && (s[a] == '@' || s[a] == '$')) {
        return None;
    }
    let (path, b) = fpath_at_pos(s, a + 1);
    let (op, val, d) = comparison_at_pos(s, b);
    let e = ws_end_at(s, d);
    if e < s.len() && s[e] == ')' {
        Some((Selector::Filt(path, op, val), e + 1))
    } else {
        None
    }
}

fn comparison_at_pos(s: &[char], b: usize) -> (r: (Option<FilterOp>, Option<FilterVal>, usize))
    requires
        b <= s@.len(),
    ensures
        (r.0, opt_val_view(r.1), r.2 as int) == comparison_at(s@, b as int),
        b <= r.2 <= s@.len(),
{
    let c0 = ws_end_at(s, b);
    match op_at_pos(s, c0) {
        Some((o, c)) => {
            let c1 = ws_end_at(s, c);
            match value_at_pos(s, c1) {
                Some((v, d)) => (Some(o), Some(v), d),
                None => (None, None, b),
            }
        },
        None => (None, None, b),
    }
}

// ---------------------------------------------------------------------------
// Selectors
// ---------------------------------------------------------------------------

/// What a bracket holds.
enum Selector {
    Star,
    Filt(Vec<String>, Option<FilterOp>, Option<FilterVal>),
    Slice(Option<isize>, Option<isize>, Option<isize>),
    Union(Vec<JsonSegment>),
    Num(Vec<char>),
    Str(Vec<char>),
    Ident(Vec<char>),
}

spec fn sel_view(x: Selector) -> SelV {
    match x {
        Selector::Star => SelV::Star,
        Selector::Filt(p, o, v) => SelV::Filt(names_view(p@), o, opt_val_view(v)),
        Selector::Slice(a, b, c) => SelV::Slice(opt_int(a), opt_int(b), opt_int(c)),
        Selector::Union(items) => SelV::Union(items_view(items@)),
        Selector::Num(t) => SelV::Num(t@),
        Selector::Str(t) => SelV::Str(t@),
        Selector::Ident(t) => SelV::Ident(t@),
    }
}

fn opt_num_at(s: &[char], i: usize) -> (r: (Option<isize>, usize))
    requires
        i <= s@.len(),
    ensures
        (opt_int(r.0), r.1 as int) == opt_num(s@, i as int),
        i <= r.1 <= s@.len(),
{
    match number_at_pos(s, i) {
        Some(e) => (isize_at(s, i, e), e),
        None => (None, i),
    }
}

fn slice_at_pos(s: &[char], i: usize) -> (r: Option<(Selector, usize)>)
    requires
        i <= s@.len(),
    ensures
        match (r, slice_at(s@, i as int)) {
            (Some((v, e)), Some((w, f))) => sel_view(v) == w && e == f,
            (None, None) => true,
            _ => false,
        },
        r matches Some((_, e)) ==> i < e <= s@.len(),
{
    let (st, a) = opt_num_at(s, i);
    let b = ws_end_at(s, a);
    if !(b < s.len() && s[b] == ':') {
        return None;
    }
    let b1 = ws_end_at(s, b + 1);
    let (en, c) = opt_num_at(s, b1);
    let d = ws_end_at(s, c);
    if d < s.len() && s[d] == ':' {
        let d1 = ws_end_at(s, d + 1);
        let (sp, e) = opt_num_at(s, d1);
        Some((Selector::Slice(st, en, sp), e))
    } else {
        Some((Selector::Slice(st, en, None), c))
    }
}

fn item_at_pos(s: &[char], i: usize) -> (r: Option<(Option<JsonSegment>, usize)>)
    requires
        i <= s@.len(),
    ensures
        match (r, item_at(s@, i as int)) {
            (Some((v, e)), Some((w, f))) => opt_item_view(v) == w && e == f,
            (None, None) => true,
            _ => false,
        },
        r matches Some((v, e)) ==> i < e <= s@.len() && (v matches Some(x) ==> item_view(x)
            !is Other),
{
    match number_at_pos(s, i) {
        Some(e) => {
            let n = isize_at(s, i, e);
            return match n {
                Some(k) => Some((Some(JsonSegment::Index(k)), e)),
                None => Some((None, e)),
            };
        },
        None => {},
    }
    match string_at_pos(s, i) {
        Some(e) => {
            return Some((Some(JsonSegment::Field(slice_string(s, i + 1, e - 1))), e));
        },
        None => {},
    }
    match ident_at_pos(s, i) {
        Some(e) => Some((Some(JsonSegment::Field(slice_string(s, i, e))), e)),
        None => None,
    }
}

fn push_opt_item(acc: &mut Vec<JsonSegment>, o: Option<JsonSegment>)
    ensures
        items_view(final(acc)@) == push_opt(items_view(old(acc)@), opt_item_view(o)),
{
    match o {
        Some(x) => {
            let ghost before = items_view(acc@);
            let ghost xv = item_view(x);
            acc.push(x);
            proof {
                assert(items_view(acc@) =~= before.push(xv));
            }
        },
        None => {},
    }
}

fn union_at_pos(s: &[char], i: usize) -> (r: Option<(Selector, usize)>)
    requires
        i <= s@.len(),
    ensures
        match (r, union_at(s@, i as int)) {
            (Some((v, e)), Some((w, f))) => sel_view(v) == w && e == f,
            (None, None) => true,
            _ => false,
        },
        r matches Some((_, e)) ==> i < e <= s@.len(),
{
    let (first, e0) = match item_at_pos(s, i) {
        None => {
            return None;
        },
        Some(x) => x,
    };
    let mut acc: Vec<JsonSegment> = Vec::new();
    proof {
        assert(items_view(acc@) =~= Seq::<ItemV>::empty());
    }
    let ghost first_v = first;
    push_opt_item(&mut acc, first);
    let ghost start = items_view(acc@);
    let mut j = e0;
    loop
        invariant
            i < e0 <= j <= s@.len(),
            union_rest(s@, j as int, items_view(acc@)) == union_rest(s@, e0 as int, start),
        ensures
            i < e0 <= j <= s@.len(),
            union_rest(s@, e0 as int, start) == (items_view(acc@), j as int),
        decreases s@.len() - j,
    {
        let a = ws_end_at(s, j);
        if !(a < s.len() && s[a] == ',') {
            assert(union_rest(s@, j as int, items_view(acc@)) == (items_view(acc@), j as int));
            break;
        }
        let a1 = ws_end_at(s, a + 1);
        match item_at_pos(s, a1) {
            None => {
                assert(union_rest(s@, j as int, items_view(acc@)) == (items_view(acc@), j as int));
                break;
            },
            Some((o, e)) => {
                let ghost prev = items_view(acc@);
                push_opt_item(&mut acc, o);
                assert(union_rest(s@, j as int, prev) == union_rest(s@, e as int, items_view(acc@)));
                j = e;
            },
        }
    }
    proof {
        assert(start == push_opt(Seq::<ItemV>::empty(), opt_item_view(first_v)));
    }
    if j == e0 {
        None
    } else {
        Some((Selector::Union(acc), j))
    }
}

fn selector_at_pos(s: &[char], i: usize) -> (r: Option<(Selector, usize)>)
    requires
        i <= s@.len(),
    ensures
        match (r, selector_at(s@, i as int)) {
            (Some((v, e)), Some((w, f))) => sel_view(v) == w && e == f,
            (None, None) => true,
            _ => false,
        },
        r matches Some((_, e)) ==> i < e <= s@.len(),
{
    if i < s.len() && s[i] == '*' {
        return Some((Selector::Star, i + 1));
    }
    match filter_at_pos(s, i) {
        Some(x) => {
            return Some(x);
        },
        None => {},
    }
    match slice_at_pos(s, i) {
        Some(x) => {
            return Some(x);
        },
        None => {},
    }
    match union_at_pos(s, i) {
        Some(x) => {
            return Some(x);
        },
        None => {},
    }
    match number_at_pos(s, i) {
        Some(e) => {
            return Some((Selector::Num(subrange_chars(s, i, e)), e));
        },
        None => {},
    }
    match string_at_pos(s, i) {
        Some(e) => {
            return Some((Selector::Str(subrange_chars(s, i + 1, e - 1)), e));
        },
        None => {},
    }
    match ident_at_pos(s, i) {
        Some(e) => Some((Selector::Ident(subrange_chars(s, i, e)), e)),
        None => None,
    }
}

fn bracket_at_pos(s: &[char], i: usize) -> (r: Option<(Selector, usize)>)
    requires
        i <= s@.len(),
    ensures
        match (r, bracket_at(s@, i as int)) {
            (Some((v, e)), Some((w, f))) => sel_view(v) == w && e == f,
            (None, None) => true,
            _ => false,
        },
        r matches Some((_, e)) ==> i < e <= s@.len(),
{
    if !(i < s.len() && s[i] == '[') {
        return None;
    }
    let a = ws_end_at(s, i + 1);
    match selector_at_pos(s, a) {
        Some((v, e)) => {
            let b = ws_end_at(s, e);
            if b < s.len() && s[b] == ']' {
                Some((v, b + 1))
            } else {
                None
            }
        },
        None => None,
    }
}

// ---------------------------------------------------------------------------
// Segments and paths
// ---------------------------------------------------------------------------

fn string_of_chars(v: Vec<char>) -> (r: String)
    ensures
        r@ == v@,
{
    string_from_chars(v.as_slice())
}

fn segment_of_bracket(v: Selector) -> (r: Option<JsonSegment>)
    ensures
        opt_seg_view(r) == bracket_seg(sel_view(v)),
{
    match v {
        Selector::Star => Some(JsonSegment::Wildcard),
        Selector::Num(t) => match parse_isize(t.as_slice()) {
            Ok(n) => Some(JsonSegment::Index(n)),
            Err(_) => None,
        },
        Selector::Str(t) => Some(JsonSegment::Field(string_of_chars(t))),
        Selector::Ident(t) => Some(JsonSegment::Field(string_of_chars(t))),
        Selector::Slice(a, b, c) => Some(JsonSegment::Slice { start: a, end: b, step: c }),
        Selector::Union(items) => if items.len() > 0 {
            Some(JsonSegment::Union(items))
        } else {
            None
        },
        Selector::Filt(p, o, x) => Some(JsonSegment::Filter { path: p, op: o, value: x }),
    }
}

fn recursive_segment_of_bracket(v: Selector) -> (r: Option<JsonSegment>)
    ensures
        opt_seg_view(r) == recursive_bracket_seg(sel_view(v)),
{
    match v {
        Selector::Star => Some(JsonSegment::RecursiveWildcard),
        Selector::Str(t) => Some(JsonSegment::RecursiveField(string_of_chars(t))),
        Selector::Ident(t) => Some(JsonSegment::RecursiveField(string_of_chars(t))),
        _ => None,
    }
}

fn segment_at_pos(s: &[char], i: usize) -> (r: Option<(Option<JsonSegment>, usize)>)
    requires
        i <= s@.len(),
    ensures
        match (r, segment_at(s@, i as int)) {
            (Some((v, e)), Some((w, f))) => opt_seg_view(v) == w && e == f,
            (None, None) => true,
            _ => false,
        },
        r matches Some((_, e)) ==> i < e <= s@.len(),
{
    if i < s.len() && i + 1 < s.len() && s[i] == '.' && s[i + 1] == '.' {
        let j = i + 2;
        if j < s.len() && s[j] == '*' {
            return Some((Some(JsonSegment::RecursiveWildcard), j + 1));
        }
        match ident_at_pos(s, j) {
            Some(e) => Some((Some(JsonSegment::RecursiveField(slice_string(s, j, e))), e)),
            None => match bracket_at_pos(s, j) {
                Some((v, e)) => Some((recursive_segment_of_bracket(v), e)),
                None => None,
            },
        }
    } else if i < s.len() && s[i] == '.' {
        let j = i + 1;
        if j < s.len() && s[j] == '*' {
            return Some((Some(JsonSegment::Wildcard), j + 1));
        }
        match ident_at_pos(s, j) {
            Some(e) => Some((Some(JsonSegment::Field(slice_string(s, j, e))), e)),
            None => None,
        }
    } else {
        match bracket_at_pos(s, i) {
            Some((v, e)) => Some((segment_of_bracket(v), e)),
            None => None,
        }
    }
}

fn push_opt_segment(acc: &mut Vec<JsonSegment>, o: Option<JsonSegment>)
    ensures
        segs_view(final(acc)@) == push_opt(segs_view(old(acc)@), opt_seg_view(o)),
{
    match o {
        Some(x) => {
            let ghost before = segs_view(acc@);
            let ghost xv = seg_view(x);
            acc.push(x);
            proof {
                assert(segs_view(acc@) =~= before.push(xv));
            }
        },
        None => {},
    }
}

/// `s` without its surrounding quotes, when it is quoted with `'` or `"`.
pub open spec fn unquoted(s: Seq<char>) -> Seq<char> {
    if s.len() >= 2 && ((s[0] == '"' && s.last() == '"') || (s[0] == '\'' && s.last() == '\'')) {
        s.subrange(1, s.len() - 1)
    } else {
        s
    }
}

pub fn unquote_str(s: &str) -> (r: String)
    ensures
        r@ == unquoted(s@),
{
    let cs = chars_of(s);
    let n = cs.len();
    if n >= 2 && ((cs[0] == '"' && cs[n - 1] == '"') || (cs[0] == '\'' && cs[n - 1] == '\'')) {
        slice_string(cs.as_slice(), 1, n - 1)
    } else {
        string_from_chars(cs.as_slice())
    }
}

/// Parses a JSONPath expression into its segments (see `json_grammar`):
/// `Ok` exactly when the whole path parses, with the segments in order.
pub fn parse_json_path(path: &str) -> (r: Result<Vec<JsonSegment>, String>)
    ensures
        match parse_path(path@) {
            Some(v) => r matches Ok(segs) && segs_view(segs@) == v,
            None => r matches Err(e) && e@ == json_path_error(path@),
        },
{
    let cs = chars_of(path);
    let s = cs.as_slice();
    let mut acc: Vec<JsonSegment> = Vec::new();
    proof {
        assert(segs_view(acc@) =~= Seq::<SegV>::empty());
    }
    let mut j: usize = 0;
    if s.len() > 0 && s[0] == '$' {
        j = 1;
    } else {
        match ident_at_pos(s, 0) {
            Some(e) => {
                let root = JsonSegment::Field(slice_string(s, 0, e));
                let ghost rv = seg_view(root);
                acc.push(root);
                proof {
                    assert(segs_view(acc@) =~= seq![rv]);
                }
                j = e;
            },
            None => {},
        }
    }
    let ghost whole = parse_path(s@);
    loop
        invariant
            j <= s@.len(),
            s@ == path@,
            segs_rest(s@, j as int, segs_view(acc@)) == whole,
            whole == parse_path(path@),
        decreases s@.len() - j,
    {
        if j == s.len() {
            return Ok(acc);
        }
        match segment_at_pos(s, j) {
            Some((o, e)) => {
                push_opt_segment(&mut acc, o);
                j = e;
            },
            None => {
                let msg = concat_chars(chars_of("JSONPath parse error: "), s);
                return Err(string_from_chars(msg.as_slice()));
            },
        }
    }
}

} // verus!
