//! The CSS selector grammar, as recursive-descent functions on characters.
//!
//! ```text
//! query     := ws* list ws* EOI
//! list      := complex (ws* ',' ws* complex)*
//! complex   := compound (combinator compound)*
//! combinator:= ws* ('>' | '+' | '~') ws* | ws+
//! compound  := ('*' | ident)? subclass*          -- at least one character
//! subclass  := '#' ident | '.' ident | attr | pseudo
//! attr      := '[' ws* ident ws* (matcher ws* (string | ident) ws* (flag ws*)?)? ']'
//! matcher   := '=' | '~=' | '|=' | '^=' | '$=' | '*='
//! flag      := 'i' | 'I' | 's' | 'S'
//! pseudo    := ':' ident '(' ... ')' | ':' ident
//! ```
//!
//! Repetitions are greedy and give back what they cannot complete, as a
//! PEG does.  Functional pseudo-classes are `nth-child(An+B)`,
//! `not(list)`, `is(list)`, `where(list)` and `contains(string)`; plain
//! ones are `first-child`, `last-child`, `only-child`, `first` and `last`.
//! Pseudo-class names and tag names are compared lowercased.
use crate::css::{AttrV, ComplexV, CssAttrOp, CssCombinator, PseudoV, StepV};
use crate::css_escape::{
    find_char_from, hex_escape_end, is_hex, is_newline, lemma_hex_end, nth_lower, unescape_spec,
    unquote_spec,
};
use crate::text::{trim_seq, unicode_lowercase};
use vstd::prelude::*;

verus! {

// ---------------------------------------------------------------------------
// Tokens
// ---------------------------------------------------------------------------

pub open spec fn css_ws(c: char) -> bool {
    c == ' ' || c == '\t' || c == '\n' || c == '\r' || c == '\x0c'
}

/// Position after the whitespace that starts at `i`.
pub open spec fn skip_ws(s: Seq<char>, i: int) -> int
    decreases s.len() - i,
{
    if 0 <= i < s.len() && css_ws(s[i]) {
        skip_ws(s, i + 1)
    } else {
        i
    }
}

pub open spec fn name_char(c: char) -> bool {
    ('a' <= c <= 'z') || ('A' <= c <= 'Z') || ('0' <= c <= '9') || c == '-' || c == '_' || (c
        as u32) >= 0x80
}

/// End of the escape whose backslash is at `i`, or `i` when there is none.
pub open spec fn ident_escape_end(s: Seq<char>, i: int) -> int {
    if 0 <= i && i + 1 < s.len() {
        if is_hex(s[i + 1]) {
            hex_escape_end(s, i + 1)
        } else if is_newline(s[i + 1]) {
            i
        } else {
            i + 2
        }
    } else {
        i
    }
}

pub proof fn lemma_ident_escape_end(s: Seq<char>, i: int)
    requires
        0 <= i <= s.len(),
    ensures
        ident_escape_end(s, i) == i || i + 2 <= ident_escape_end(s, i) <= s.len(),
{
    if 0 <= i && i + 1 < s.len() && is_hex(s[i + 1]) {
        lemma_hex_end(s, i + 1, 6);
        lemma_hex_end(s, i + 2, 5);
    }
}

/// End of the identifier (name characters and escapes) starting at `i`.
pub open spec fn ident_end(s: Seq<char>, i: int) -> int
    decreases s.len() - i,
{
    if 0 <= i < s.len() {
        if name_char(s[i]) {
            ident_end(s, i + 1)
        } else if s[i] == '\\' && ident_escape_end(s, i) > i {
            proof {
                lemma_ident_escape_end(s, i);
            }
            ident_end(s, ident_escape_end(s, i))
        } else {
            i
        }
    } else {
        i
    }
}

/// Position after the closing quote `q` of a string body starting at `j`,
/// or -1 when the string does not end.
pub open spec fn string_body_end(s: Seq<char>, j: int, q: char) -> int
    decreases s.len() - j,
{
    if j < 0 || j >= s.len() {
        -1
    } else if s[j] == q {
        j + 1
    } else if s[j] == '\\' {
        if j + 1 < s.len() {
            string_body_end(s, j + 2, q)
        } else {
            -1
        }
    } else {
        string_body_end(s, j + 1, q)
    }
}

/// Position after the quoted string starting at `i`, or -1.
pub open spec fn string_end(s: Seq<char>, i: int) -> int {
    if 0 <= i < s.len() && (s[i] == '"' || s[i] == '\'') {
        string_body_end(s, i + 1, s[i])
    } else {
        -1
    }
}

pub proof fn lemma_skip_ws(s: Seq<char>, i: int)
    requires
        0 <= i <= s.len(),
    ensures
        i <= skip_ws(s, i) <= s.len(),
        forall|k: int| i <= k < skip_ws(s, i) ==> css_ws(#[trigger] s[k]),
        skip_ws(s, i) < s.len() ==> !css_ws(s[skip_ws(s, i)]),
    decreases s.len() - i,
{
    if 0 <= i < s.len() && css_ws(s[i]) {
        lemma_skip_ws(s, i + 1);
    }
}

pub proof fn lemma_ident_end(s: Seq<char>, i: int)
    requires
        0 <= i <= s.len(),
    ensures
        i <= ident_end(s, i) <= s.len(),
    decreases s.len() - i,
{
    if 0 <= i < s.len() {
        if name_char(s[i]) {
            lemma_ident_end(s, i + 1);
        } else if s[i] == '\\' && ident_escape_end(s, i) > i {
            lemma_ident_escape_end(s, i);
            lemma_ident_end(s, ident_escape_end(s, i));
        }
    }
}

pub proof fn lemma_string_body_end(s: Seq<char>, j: int, q: char)
    requires
        0 <= j,
    ensures
        string_body_end(s, j, q) == -1 || j < string_body_end(s, j, q) <= s.len(),
    decreases s.len() - j,
{
    if 0 <= j < s.len() && s[j] != q {
        if s[j] == '\\' {
            if j + 1 < s.len() {
                lemma_string_body_end(s, j + 2, q);
            }
        } else {
            lemma_string_body_end(s, j + 1, q);
        }
    }
}

pub proof fn lemma_string_end(s: Seq<char>, i: int)
    requires
        0 <= i,
    ensures
        string_end(s, i) == -1 || i + 1 < string_end(s, i) <= s.len(),
{
    if 0 <= i < s.len() && (s[i] == '"' || s[i] == '\'') {
        lemma_string_body_end(s, i + 1, s[i]);
    }
}

pub proof fn lemma_find_char(t: Seq<char>, c: char, i: int)
    requires
        0 <= i <= t.len(),
    ensures
        i <= find_char_from(t, c, i) <= t.len(),
        find_char_from(t, c, i) < t.len() ==> t[find_char_from(t, c, i)] == c,
    decreases t.len() - i,
{
    if i < t.len() && t[i] != c {
        lemma_find_char(t, c, i + 1);
    }
}

// ---------------------------------------------------------------------------
// Attribute selectors
// ---------------------------------------------------------------------------

pub open spec fn matcher_at(s: Seq<char>, i: int) -> Option<(CssAttrOp, int)> {
    if 0 <= i < s.len() && s[i] == '=' {
        Some((CssAttrOp::Exact, i + 1))
    } else if 0 <= i && i + 1 < s.len() && s[i + 1] == '=' {
        if s[i] == '~' {
            Some((CssAttrOp::WordMatch, i + 2))
        } else if s[i] == '|' {
            Some((CssAttrOp::HyphenPrefix, i + 2))
        } else if s[i] == '^' {
            Some((CssAttrOp::StartsWith, i + 2))
        } else if s[i] == '$' {
            Some((CssAttrOp::EndsWith, i + 2))
        } else if s[i] == '*' {
            Some((CssAttrOp::Contains, i + 2))
        } else {
            None
        }
    } else {
        None
    }
}

/// End of an attribute value (a quoted string or an identifier), or -1.
pub open spec fn attr_value_end(s: Seq<char>, i: int) -> int {
    if 0 <= i < s.len() && (s[i] == '"' || s[i] == '\'') {
        string_end(s, i)
    } else if ident_end(s, i) > i {
        ident_end(s, i)
    } else {
        -1
    }
}

/// The case flag at `i`: `i` asks for a case-insensitive match, `s` for a
/// case-sensitive one.
pub open spec fn flag_at(s: Seq<char>, i: int) -> Option<bool> {
    if 0 <= i < s.len() && (s[i] == 'i' || s[i] == 'I') {
        Some(false)
    } else if 0 <= i < s.len() && (s[i] == 's' || s[i] == 'S') {
        Some(true)
    } else {
        None
    }
}

pub open spec fn closes_at(s: Seq<char>, i: int, c: char) -> bool {
    0 <= i < s.len() && s[i] == c
}

/// The attribute selector whose `[` is at `i`.
pub open spec fn attr_at(s: Seq<char>, i: int) -> Option<(AttrV, int)> {
    let a = skip_ws(s, i + 1);
    let b = ident_end(s, a);
    let name = unescape_spec(s.subrange(a, b));
    let c = skip_ws(s, b);
    if b <= a {
        None
    } else if closes_at(s, c, ']') {
        Some((AttrV { name, op: CssAttrOp::Exists, value: None, case_sensitive: None }, c + 1))
    } else {
        match matcher_at(s, c) {
            None => None,
            Some((op, d)) => {
                let e = skip_ws(s, d);
                let f = attr_value_end(s, e);
                let g = skip_ws(s, f);
                let value = Some(unquote_spec(s.subrange(e, f)));
                if f < 0 {
                    None
                } else if closes_at(s, g, ']') {
                    Some((AttrV { name, op, value, case_sensitive: None }, g + 1))
                } else if flag_at(s, g) is Some && closes_at(s, skip_ws(s, g + 1), ']') {
                    Some(
                        (
                            AttrV { name, op, value, case_sensitive: flag_at(s, g) },
                            skip_ws(s, g + 1) + 1,
                        ),
                    )
                } else {
                    None
                }
            },
        }
    }
}

// ---------------------------------------------------------------------------
// Selectors
// ---------------------------------------------------------------------------

/// One subclass selector of a compound selector.
pub enum SubV {
    Id(Seq<char>),
    Class(Seq<char>),
    Attr(AttrV),
    Pseudo(PseudoV),
}

pub open spec fn apply_sub(st: StepV, sub: SubV) -> StepV {
    match sub {
        SubV::Id(v) => StepV { id: Some(v), ..st },
        SubV::Class(v) => StepV { classes: st.classes.push(v), ..st },
        SubV::Attr(a) => StepV { attrs: st.attrs.push(a), ..st },
        SubV::Pseudo(p) => StepV { pseudos: st.pseudos.push(p), ..st },
    }
}

/// The type selector (or `*`) at `i`, with where it ends.
pub open spec fn type_at(s: Seq<char>, i: int) -> (Option<Seq<char>>, int) {
    if 0 <= i < s.len() && s[i] == '*' {
        (None, i + 1)
    } else if ident_end(s, i) > i {
        (Some(unicode_lowercase(unescape_spec(s.subrange(i, ident_end(s, i))))), ident_end(s, i))
    } else {
        (None, i)
    }
}

pub open spec fn empty_step(tag: Option<Seq<char>>) -> StepV {
    StepV {
        combinator: None,
        tag,
        id: None,
        classes: Seq::empty(),
        attrs: Seq::empty(),
        pseudos: Seq::empty(),
    }
}

pub open spec fn comb_at(s: Seq<char>, j: int) -> Option<(CssCombinator, int)> {
    let a = skip_ws(s, j);
    if closes_at(s, a, '>') {
        Some((CssCombinator::Child, skip_ws(s, a + 1)))
    } else if closes_at(s, a, '+') {
        Some((CssCombinator::NextSibling, skip_ws(s, a + 1)))
    } else if closes_at(s, a, '~') {
        Some((CssCombinator::SubsequentSibling, skip_ws(s, a + 1)))
    } else if a > j {
        Some((CssCombinator::Descendant, a))
    } else {
        None
    }
}

pub open spec fn plain_pseudo(name: Seq<char>) -> Option<PseudoV> {
    if name == "first-child"@ {
        Some(PseudoV::FirstChild)
    } else if name == "last-child"@ {
        Some(PseudoV::LastChild)
    } else if name == "only-child"@ {
        Some(PseudoV::OnlyChild)
    } else if name == "first"@ {
        Some(PseudoV::First)
    } else if name == "last"@ {
        Some(PseudoV::Last)
    } else {
        None
    }
}

pub open spec fn is_selector_pseudo(name: Seq<char>) -> bool {
    name == "not"@ || name == "is"@ || name == "where"@
}

pub open spec fn selector_pseudo(name: Seq<char>, cs: Seq<ComplexV>) -> PseudoV {
    if name == "not"@ {
        PseudoV::Not(cs)
    } else if name == "is"@ {
        PseudoV::Is(cs)
    } else {
        PseudoV::Where(cs)
    }
}

/// `nth-child(...)` whose `(` is at `e`: the expression runs to the first `)`.
pub open spec fn nth_pseudo_at(s: Seq<char>, e: int) -> Option<(PseudoV, int)> {
    let r = find_char_from(s, ')', e + 1);
    if r >= s.len() {
        None
    } else {
        match nth_lower(unicode_lowercase(trim_seq(s.subrange(e + 1, r)))) {
            Ok((a, b)) => Some((PseudoV::NthChild(a, b), r + 1)),
            Err(_) => None,
        }
    }
}

/// `contains(string)` whose `(` is at `e`.
pub open spec fn contains_pseudo_at(s: Seq<char>, e: int) -> Option<(PseudoV, int)> {
    let p = skip_ws(s, e + 1);
    let f = string_end(s, p);
    let r = skip_ws(s, f);
    if f < 0 {
        None
    } else if closes_at(s, r, ')') {
        Some((PseudoV::Contains(unquote_spec(s.subrange(p, f))), r + 1))
    } else {
        None
    }
}

/// The lowercased name of the pseudo-class whose `:` is at `i`.
pub open spec fn pseudo_name(s: Seq<char>, i: int) -> Seq<char> {
    unicode_lowercase(s.subrange(i + 1, ident_end(s, i + 1)))
}

/// The pseudo-class whose `:` is at `i`.
pub open spec fn pseudo_at(s: Seq<char>, i: int) -> Option<(PseudoV, int)>
    decreases s.len() - i, 2int,
{
    let e = ident_end(s, i + 1);
    let name = pseudo_name(s, i);
    if !(0 <= i < s.len()) || e <= i + 1 {
        None
    } else if closes_at(s, e, '(') {
        if name == "nth-child"@ {
            nth_pseudo_at(s, e)
        } else if is_selector_pseudo(name) {
            let p = skip_ws(s, e + 1);
            proof {
                lemma_skip_ws(s, e + 1);
            }
            match list_at(s, p) {
                None => None,
                Some((cs, q)) => {
                    let r = skip_ws(s, q);
                    if closes_at(s, r, ')') {
                        Some((selector_pseudo(name, cs), r + 1))
                    } else {
                        None
                    }
                },
            }
        } else if name == "contains"@ {
            contains_pseudo_at(s, e)
        } else {
            None
        }
    } else {
        match plain_pseudo(name) {
            Some(p) => Some((p, e)),
            None => None,
        }
    }
}

/// The subclass selector starting at `i`.
pub open spec fn subclass_at(s: Seq<char>, i: int) -> Option<(SubV, int)>
    decreases s.len() - i, 3int,
{
    let e = ident_end(s, i + 1);
    if !(0 <= i < s.len()) {
        None
    } else if s[i] == '#' || s[i] == '.' {
        if e > i + 1 {
            let v = unescape_spec(s.subrange(i + 1, e));
            Some((if s[i] == '#' { SubV::Id(v) } else { SubV::Class(v) }, e))
        } else {
            None
        }
    } else if s[i] == '[' {
        match attr_at(s, i) {
            Some((a, f)) => Some((SubV::Attr(a), f)),
            None => None,
        }
    } else if s[i] == ':' {
        match pseudo_at(s, i) {
            Some((p, f)) => Some((SubV::Pseudo(p), f)),
            None => None,
        }
    } else {
        None
    }
}

/// Applies the subclass selectors from `j` on to `st`, as many as parse.
pub open spec fn compound_rest(s: Seq<char>, j: int, st: StepV) -> (StepV, int)
    decreases s.len() - j, 4int,
{
    if !(0 <= j <= s.len()) {
        (st, j)
    } else {
        match subclass_at(s, j) {
            Some((sub, k)) => if j < k <= s.len() {
                compound_rest(s, k, apply_sub(st, sub))
            } else {
                (st, j)
            },
            None => (st, j),
        }
    }
}

/// The compound selector starting at `i`.
pub open spec fn compound_at(s: Seq<char>, i: int) -> Option<(StepV, int)>
    decreases s.len() - i, 5int,
{
    let (tag, j) = type_at(s, i);
    if !(0 <= i <= j <= s.len()) {
        None
    } else {
        let (st, k) = compound_rest(s, j, empty_step(tag));
        if k > i {
            Some((st, k))
        } else {
            None
        }
    }
}

/// Extends `steps` with combinator-led compound selectors from `j` on.
pub open spec fn complex_rest(s: Seq<char>, j: int, steps: Seq<StepV>) -> (Seq<StepV>, int)
    decreases s.len() - j, 6int,
{
    if !(0 <= j <= s.len()) {
        (steps, j)
    } else {
        match comb_at(s, j) {
            None => (steps, j),
            Some((c, k)) => if !(j < k <= s.len()) {
                (steps, j)
            } else {
                match compound_at(s, k) {
                    None => (steps, j),
                    Some((st, m)) => if k < m <= s.len() {
                        complex_rest(s, m, steps.push(StepV { combinator: Some(c), ..st }))
                    } else {
                        (steps, j)
                    },
                }
            },
        }
    }
}

/// The complex selector starting at `i`.
pub open spec fn complex_at(s: Seq<char>, i: int) -> Option<(ComplexV, int)>
    decreases s.len() - i, 7int,
{
    match compound_at(s, i) {
        None => None,
        Some((st, j)) => if 0 <= i < j <= s.len() {
            let (steps, k) = complex_rest(s, j, seq![st]);
            Some((ComplexV { steps }, k))
        } else {
            None
        },
    }
}

/// Extends `cs` with comma-separated complex selectors from `j` on.
pub open spec fn list_rest(s: Seq<char>, j: int, cs: Seq<ComplexV>) -> (Seq<ComplexV>, int)
    decreases s.len() - j, 8int,
{
    let a = skip_ws(s, j);
    let b = skip_ws(s, a + 1);
    if !(0 <= j <= s.len()) {
        (cs, j)
    } else if closes_at(s, a, ',') {
        proof {
            lemma_skip_ws(s, j);
            lemma_skip_ws(s, a + 1);
        }
        match complex_at(s, b) {
            None => (cs, j),
            Some((c, k)) => if b < k <= s.len() {
                list_rest(s, k, cs.push(c))
            } else {
                (cs, j)
            },
        }
    } else {
        (cs, j)
    }
}

/// The selector list starting at `i`.
pub open spec fn list_at(s: Seq<char>, i: int) -> Option<(Seq<ComplexV>, int)>
    decreases s.len() - i, 9int,
{
    match complex_at(s, i) {
        None => None,
        Some((c, j)) => if 0 <= i < j <= s.len() {
            Some(list_rest(s, j, seq![c]))
        } else {
            None
        },
    }
}

/// A whole selector: a list with nothing but whitespace around it.
pub open spec fn parse_query(s: Seq<char>) -> Option<Seq<ComplexV>> {
    match list_at(s, skip_ws(s, 0)) {
        None => None,
        Some((cs, j)) => if skip_ws(s, j) == s.len() {
            Some(cs)
        } else {
            None
        },
    }
}

} // verus!
