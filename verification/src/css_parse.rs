//! The CSS selector parser: an executable form of `css_grammar`.
use crate::css::{
    attr_view, complex_view, ComplexV, StepV, complexes_view, lemma_complexes_view_index,
    lemma_complexes_view_push, lemma_pseudos_view_push, lemma_steps_view_index,
    lemma_steps_view_push, list_view, opt_str_view, pseudo_view, step_view, steps_view,
    strings_view, ComplexSelector, CssAttrFilter, CssAttrOp, CssCombinator, CssPseudo,
    ParsedCssStep, SelectorList,
};
use crate::css_escape::{
    concat_chars, decode_hex_escape, find_char, is_hex_char, parse_nth_lowered,
    unescape_chars, unquote_chars,
};
use crate::css_grammar::{
    apply_sub, attr_at, attr_value_end, closes_at, comb_at, complex_at, complex_rest,
    compound_at, compound_rest, css_ws, empty_step, flag_at, ident_end, ident_escape_end,
    lemma_find_char, lemma_ident_end, lemma_ident_escape_end, lemma_skip_ws, lemma_string_end,
    list_at, list_rest, matcher_at, nth_pseudo_at, contains_pseudo_at, pseudo_name, name_char, parse_query, plain_pseudo, pseudo_at,
    skip_ws, string_body_end, string_end, subclass_at, type_at, SubV,
};
use crate::text::{
    chars_eq, chars_of, string_from_chars, subrange_chars, to_unicode_lowercase, trim_chars,
};
use vstd::prelude::*;

verus! {

// ---------------------------------------------------------------------------
// Tokens
// ---------------------------------------------------------------------------

fn is_css_ws(c: char) -> (r: bool)
    ensures
        r == css_ws(c),
{
    c == ' ' || c == '\t' || c == '\n' || c == '\r' || c == '\x0c'
}

fn skip_ws_at(s: &[char], i: usize) -> (r: usize)
    requires
        i <= s@.len(),
    ensures
        r == skip_ws(s@, i as int),
        i <= r <= s@.len(),
{
    let mut k = i;
    while k < s.len() && is_css_ws(s[k])
        invariant
            i <= k <= s@.len(),
            skip_ws(s@, k as int) == skip_ws(s@, i as int),
        decreases s@.len() - k,
    {
        k += 1;
    }
    k
}

fn is_name_char(c: char) -> (r: bool)
    ensures
        r == name_char(c),
{
    ('a' <= c && c <= 'z') || ('A' <= c && c <= 'Z') || ('0' <= c && c <= '9') || c == '-' || c
        == '_' || (c as u32) >= 0x80
}

fn ident_escape_end_at(s: &[char], i: usize) -> (r: usize)
    requires
        i < s@.len(),
    ensures
        r == ident_escape_end(s@, i as int),
{
    proof {
        lemma_ident_escape_end(s@, i as int);
    }
    let n = s.len();
    if i < n - 1 {
        if is_hex_char(s[i + 1]) {
            let (_c, _j, end) = decode_hex_escape(s, i + 1);
            end
        } else if s[i + 1] == '\r' || s[i + 1] == '\n' || s[i + 1] == '\x0c' {
            i
        } else {
            i + 2
        }
    } else {
        i
    }
}

fn ident_end_at(s: &[char], i: usize) -> (r: usize)
    requires
        i <= s@.len(),
    ensures
        r == ident_end(s@, i as int),
        i <= r <= s@.len(),
{
    let mut k = i;
    loop
        invariant
            i <= k <= s@.len(),
            ident_end(s@, k as int) == ident_end(s@, i as int),
        decreases s@.len() - k,
    {
        if k >= s.len() {
            return k;
        }
        if is_name_char(s[k]) {
            k += 1;
        } else if s[k] == '\\' {
            let e = ident_escape_end_at(s, k);
            proof {
                lemma_ident_escape_end(s@, k as int);
            }
            if e > k {
                k = e;
            } else {
                return k;
            }
        } else {
            return k;
        }
    }
}

/// End of the quoted string starting at `i`, if it is closed.
fn string_end_at(s: &[char], i: usize) -> (r: Option<usize>)
    requires
        i < s@.len(),
    ensures
        match r {
            Some(e) => e as int == string_end(s@, i as int) && i + 1 < e <= s@.len(),
            None => string_end(s@, i as int) == -1,
        },
{
    proof {
        lemma_string_end(s@, i as int);
    }
    let q = s[i];
    if q != '"' && q != '\'' {
        return None;
    }
    let mut j = i + 1;
    loop
        invariant
            i < j,
            q == s@[i as int],
            string_body_end(s@, j as int, q) == string_end(s@, i as int),
        decreases s@.len() + 2 - j,
    {
        if j >= s.len() {
            return None;
        }
        if s[j] == q {
            return Some(j + 1);
        }
        if s[j] == '\\' {
            if j + 1 < s.len() {
                j += 2;
            } else {
                return None;
            }
        } else {
            j += 1;
        }
    }
}

// ---------------------------------------------------------------------------
// Attribute selectors
// ---------------------------------------------------------------------------

fn matcher_at_pos(s: &[char], i: usize) -> (r: Option<(CssAttrOp, usize)>)
    requires
        i <= s@.len(),
    ensures
        match (r, matcher_at(s@, i as int)) {
            (Some((op, e)), Some((op2, f))) => op == op2 && e == f && e <= s@.len(),
            (None, None) => true,
            _ => false,
        },
{
    if i < s.len() && s[i] == '=' {
        Some((CssAttrOp::Exact, i + 1))
    } else if i < s.len() && i + 1 < s.len() && s[i + 1] == '=' {
        let c = s[i];
        if c == '~' {
            Some((CssAttrOp::WordMatch, i + 2))
        } else if c == '|' {
            Some((CssAttrOp::HyphenPrefix, i + 2))
        } else if c == '^' {
            Some((CssAttrOp::StartsWith, i + 2))
        } else if c == '$' {
            Some((CssAttrOp::EndsWith, i + 2))
        } else if c == '*' {
            Some((CssAttrOp::Contains, i + 2))
        } else {
            None
        }
    } else {
        None
    }
}

fn chars_to_string(v: &Vec<char>) -> (r: String)
    ensures
        r@ == v@,
{
    string_from_chars(v.as_slice())
}

/// The attribute selector whose `[` is at `i`.
fn attr_at_pos(s: &[char], i: usize) -> (r: Option<(CssAttrFilter, usize)>)
    requires
        i < s@.len(),
    ensures
        match (r, attr_at(s@, i as int)) {
            (Some((a, e)), Some((av, f))) => attr_view(a) == av && e == f,
            (None, None) => true,
            _ => false,
        },
        r matches Some((_, e)) ==> i < e <= s@.len(),
{
    let n = s.len();
    let a = skip_ws_at(s, i + 1);
    let b = ident_end_at(s, a);
    if b <= a {
        return None;
    }
    let raw_name = subrange_chars(s, a, b);
    let name = chars_to_string(&unescape_chars(raw_name.as_slice()));
    let c = skip_ws_at(s, b);
    if c < n && s[c] == ']' {
        return Some(
            (CssAttrFilter { name, op: CssAttrOp::Exists, value: None, case_sensitive: None }, c + 1),
        );
    }
    let (op, d) = match matcher_at_pos(s, c) {
        None => {
            return None;
        },
        Some(m) => m,
    };
    let e = skip_ws_at(s, d);
    let f: usize = if e < s.len() && (s[e] == '"' || s[e] == '\'') {
        match string_end_at(s, e) {
            Some(f) => f,
            None => {
                return None;
            },
        }
    } else {
        let f = ident_end_at(s, e);
        if f <= e {
            return None;
        }
        f
    };
    assert(attr_value_end(s@, e as int) == f);
    let raw_value = subrange_chars(s, e, f);
    let value = Some(chars_to_string(&unquote_chars(raw_value.as_slice())));
    let g = skip_ws_at(s, f);
    if g < s.len() && s[g] == ']' {
        return Some((CssAttrFilter { name, op, value, case_sensitive: None }, g + 1));
    }
    if g < s.len() {
        let flag = if s[g] == 'i' || s[g] == 'I' {
            Some(false)
        } else if s[g] == 's' || s[g] == 'S' {
            Some(true)
        } else {
            None
        };
        assert(flag == flag_at(s@, g as int));
        if flag.is_some() {
            let h = skip_ws_at(s, g + 1);
            if h < s.len() && s[h] == ']' {
                return Some((CssAttrFilter { name, op, value, case_sensitive: flag }, h + 1));
            }
        }
    }
    None
}


// ---------------------------------------------------------------------------
// Selectors
// ---------------------------------------------------------------------------

/// One parsed subclass selector.
enum Subclass {
    Id(String),
    Class(String),
    Attr(CssAttrFilter),
    Pseudo(CssPseudo),
}

spec fn sub_view(x: Subclass) -> SubV {
    match x {
        Subclass::Id(v) => SubV::Id(v@),
        Subclass::Class(v) => SubV::Class(v@),
        Subclass::Attr(a) => SubV::Attr(attr_view(a)),
        Subclass::Pseudo(p) => SubV::Pseudo(pseudo_view(p)),
    }
}

fn literal_is(v: &Vec<char>, lit: &str) -> (r: bool)
    ensures
        r == (v@ == lit@),
{
    let l = chars_of(lit);
    chars_eq(v.as_slice(), l.as_slice())
}

fn nth_pseudo_at_pos(s: &[char], e: usize) -> (r: Option<(CssPseudo, usize)>)
    requires
        e < s@.len(),
    ensures
        match (r, nth_pseudo_at(s@, e as int)) {
            (Some((p, k)), Some((pv, f))) => pseudo_view(p) == pv && k == f,
            (None, None) => true,
            _ => false,
        },
        r matches Some((_, k)) ==> e < k <= s@.len(),
{
    let n = s.len();
    let r = find_char(s, ')', e + 1);
    if r >= n {
        return None;
    }
    let arg = subrange_chars(s, e + 1, r);
    let trimmed = trim_chars(arg.as_slice());
    let lowered = to_unicode_lowercase(trimmed.as_slice());
    match parse_nth_lowered(lowered.as_slice()) {
        Ok((a, b)) => Some((CssPseudo::NthChild { a, b }, r + 1)),
        Err(_) => None,
    }
}

fn contains_pseudo_at_pos(s: &[char], e: usize) -> (r: Option<(CssPseudo, usize)>)
    requires
        e < s@.len(),
    ensures
        match (r, contains_pseudo_at(s@, e as int)) {
            (Some((p, k)), Some((pv, f))) => pseudo_view(p) == pv && k == f,
            (None, None) => true,
            _ => false,
        },
        r matches Some((_, k)) ==> e < k <= s@.len(),
{
    let n = s.len();
    let p = skip_ws_at(s, e + 1);
    if p >= n {
        proof {
            lemma_string_end(s@, p as int);
        }
        return None;
    }
    match string_end_at(s, p) {
        None => None,
        Some(f) => {
            let r = skip_ws_at(s, f);
            if r < s.len() && s[r] == ')' {
                let raw_arg = subrange_chars(s, p, f);
                let needle = chars_to_string(&unquote_chars(raw_arg.as_slice()));
                Some((CssPseudo::Contains(needle), r + 1))
            } else {
                None
            }
        },
    }
}

fn plain_pseudo_of(name: &Vec<char>) -> (r: Option<CssPseudo>)
    ensures
        match (r, plain_pseudo(name@)) {
            (Some(p), Some(pv)) => pseudo_view(p) == pv,
            (None, None) => true,
            _ => false,
        },
{
    if literal_is(name, "first-child") {
        Some(CssPseudo::FirstChild)
    } else if literal_is(name, "last-child") {
        Some(CssPseudo::LastChild)
    } else if literal_is(name, "only-child") {
        Some(CssPseudo::OnlyChild)
    } else if literal_is(name, "first") {
        Some(CssPseudo::First)
    } else if literal_is(name, "last") {
        Some(CssPseudo::Last)
    } else {
        None
    }
}

/// The pseudo-class whose `:` is at `i`.
fn pseudo_at_pos(s: &[char], i: usize) -> (r: Option<(CssPseudo, usize)>)
    requires
        i < s@.len(),
    ensures
        match (r, pseudo_at(s@, i as int)) {
            (Some((p, e)), Some((pv, f))) => pseudo_view(p) == pv && e == f,
            (None, None) => true,
            _ => false,
        },
        r matches Some((_, e)) ==> i < e <= s@.len(),
    decreases s@.len() - i, 2int,
{
    let n = s.len();
    let e = ident_end_at(s, i + 1);
    if e <= i + 1 {
        return None;
    }
    let raw = subrange_chars(s, i + 1, e);
    let name = to_unicode_lowercase(raw.as_slice());
    assert(name@ == pseudo_name(s@, i as int));
    if e < n && s[e] == '(' {
        if literal_is(&name, "nth-child") {
            nth_pseudo_at_pos(s, e)
        } else if literal_is(&name, "not") || literal_is(&name, "is") || literal_is(&name, "where") {
            let p = skip_ws_at(s, e + 1);
            match list_at_pos(s, p) {
                None => None,
                Some((cs, q)) => {
                    let r = skip_ws_at(s, q);
                    if r < s.len() && s[r] == ')' {
                        let ps = if literal_is(&name, "not") {
                            CssPseudo::Not(cs)
                        } else if literal_is(&name, "is") {
                            CssPseudo::Is(cs)
                        } else {
                            CssPseudo::Where(cs)
                        };
                        Some((ps, r + 1))
                    } else {
                        None
                    }
                },
            }
        } else if literal_is(&name, "contains") {
            contains_pseudo_at_pos(s, e)
        } else {
            None
        }
    } else {
        match plain_pseudo_of(&name) {
            Some(p) => Some((p, e)),
            None => None,
        }
    }
}

/// The subclass selector starting at `i`.
fn subclass_at_pos(s: &[char], i: usize) -> (r: Option<(Subclass, usize)>)
    requires
        i <= s@.len(),
    ensures
        match (r, subclass_at(s@, i as int)) {
            (Some((x, e)), Some((xv, f))) => sub_view(x) == xv && e == f,
            (None, None) => true,
            _ => false,
        },
        r matches Some((_, e)) ==> i < e <= s@.len(),
    decreases s@.len() - i, 3int,
{
    if i >= s.len() {
        return None;
    }
    let c = s[i];
    if c == '#' || c == '.' {
        let e = ident_end_at(s, i + 1);
        if e > i + 1 {
            let raw = subrange_chars(s, i + 1, e);
            let v = chars_to_string(&unescape_chars(raw.as_slice()));
            if c == '#' {
                Some((Subclass::Id(v), e))
            } else {
                Some((Subclass::Class(v), e))
            }
        } else {
            None
        }
    } else if c == '[' {
        match attr_at_pos(s, i) {
            Some((a, f)) => Some((Subclass::Attr(a), f)),
            None => None,
        }
    } else if c == ':' {
        match pseudo_at_pos(s, i) {
            Some((p, f)) => Some((Subclass::Pseudo(p), f)),
            None => None,
        }
    } else {
        None
    }
}

/// The compound selector starting at `i`.
#[verifier::loop_isolation(false)]
fn compound_at_pos(s: &[char], i: usize) -> (r: Option<(ParsedCssStep, usize)>)
    requires
        i <= s@.len(),
    ensures
        match (r, compound_at(s@, i as int)) {
            (Some((st, e)), Some((sv, f))) => step_view(st) == sv && e == f,
            (None, None) => true,
            _ => false,
        },
        r matches Some((st, e)) ==> i < e <= s@.len() && st.combinator is None,
    decreases s@.len() - i, 5int,
{
    let mut tag: Option<String> = None;
    let mut j = i;
    if i < s.len() && s[i] == '*' {
        j = i + 1;
    } else {
        let e = ident_end_at(s, i);
        if e > i {
            let raw = subrange_chars(s, i, e);
            let unescaped = unescape_chars(raw.as_slice());
            let lowered = to_unicode_lowercase(unescaped.as_slice());
            tag = Some(chars_to_string(&lowered));
            j = e;
        }
    }
    assert(type_at(s@, i as int) == (opt_str_view(tag), j as int));
    let ghost j0 = j;
    let mut step = ParsedCssStep {
        combinator: None,
        tag,
        id: None,
        classes: Vec::new(),
        attrs: Vec::new(),
        pseudos: Vec::new(),
    };
    proof {
        assert(strings_view(step.classes@) =~= Seq::<Seq<char>>::empty());
        assert(crate::css::attrs_view(step.attrs@) =~= Seq::<crate::css::AttrV>::empty());
        assert(step_view(step) == empty_step(opt_str_view(step.tag)));
    }
    let ghost start = step_view(step);
    loop
        invariant
            i <= j0 <= j <= s@.len(),
            step.combinator is None,
            compound_rest(s@, j as int, step_view(step)) == compound_rest(s@, j0 as int, start),
        decreases s@.len() - j,
    {
        match subclass_at_pos(s, j) {
            None => {
                break;
            },
            Some((sub, k)) => {
                let ghost before = step_view(step);
                match sub {
                    Subclass::Id(v) => {
                        step.id = Some(v);
                    },
                    Subclass::Class(v) => {
                        proof {
                            assert(strings_view(step.classes@.push(v)) =~= strings_view(
                                step.classes@,
                            ).push(v@));
                        }
                        step.classes.push(v);
                    },
                    Subclass::Attr(a) => {
                        proof {
                            assert(crate::css::attrs_view(step.attrs@.push(a)) =~= crate::css::attrs_view(
                                step.attrs@,
                            ).push(attr_view(a)));
                        }
                        step.attrs.push(a);
                    },
                    Subclass::Pseudo(p) => {
                        proof {
                            lemma_pseudos_view_push(step.pseudos@, p);
                        }
                        step.pseudos.push(p);
                    },
                }
                j = k;
            },
        }
    }
    if j > i {
        Some((step, j))
    } else {
        None
    }
}

fn comb_at_pos(s: &[char], j: usize) -> (r: Option<(CssCombinator, usize)>)
    requires
        j <= s@.len(),
    ensures
        match (r, comb_at(s@, j as int)) {
            (Some((c, k)), Some((c2, k2))) => c == c2 && k == k2,
            (None, None) => true,
            _ => false,
        },
        r matches Some((_, k)) ==> j < k <= s@.len(),
{
    let a = skip_ws_at(s, j);
    if a < s.len() && (s[a] == '>' || s[a] == '+' || s[a] == '~') {
        let c = if s[a] == '>' {
            CssCombinator::Child
        } else if s[a] == '+' {
            CssCombinator::NextSibling
        } else {
            CssCombinator::SubsequentSibling
        };
        Some((c, skip_ws_at(s, a + 1)))
    } else if a > j {
        Some((CssCombinator::Descendant, a))
    } else {
        None
    }
}

/// The complex selector starting at `i`.
#[verifier::loop_isolation(false)]
fn complex_at_pos(s: &[char], i: usize) -> (r: Option<(ComplexSelector, usize)>)
    requires
        i <= s@.len(),
    ensures
        match (r, complex_at(s@, i as int)) {
            (Some((c, e)), Some((cv, f))) => complex_view(c) == cv && e == f,
            (None, None) => true,
            _ => false,
        },
        r matches Some((_, e)) ==> i < e <= s@.len(),
    decreases s@.len() - i, 7int,
{
    let (first, j1) = match compound_at_pos(s, i) {
        None => {
            return None;
        },
        Some(x) => x,
    };
    let mut steps: Vec<ParsedCssStep> = Vec::new();
    proof {
        lemma_steps_view_push(steps@, first);
        assert(steps_view(steps@) =~= Seq::<crate::css::StepV>::empty());
    }
    let ghost first_v = step_view(first);
    steps.push(first);
    assert(steps_view(steps@) =~= seq![first_v]);
    let mut j = j1;
    loop
        invariant
            i < j1 <= j <= s@.len(),
            complex_rest(s@, j as int, steps_view(steps@)) == complex_rest(
                s@,
                j1 as int,
                seq![first_v],
            ),
        decreases s@.len() - j,
    {
        match comb_at_pos(s, j) {
            None => {
                break;
            },
            Some((c, k)) => {
                match compound_at_pos(s, k) {
                    None => {
                        break;
                    },
                    Some((st, m)) => {
                        let mut st = st;
                        st.combinator = Some(c);
                        proof {
                            lemma_steps_view_push(steps@, st);
                        }
                        steps.push(st);
                        j = m;
                    },
                }
            },
        }
    }
    Some((ComplexSelector { steps }, j))
}

/// The selector list starting at `i`.
#[verifier::loop_isolation(false)]
fn list_at_pos(s: &[char], i: usize) -> (r: Option<(Vec<ComplexSelector>, usize)>)
    requires
        i <= s@.len(),
    ensures
        match (r, list_at(s@, i as int)) {
            (Some((cs, e)), Some((csv, f))) => complexes_view(cs@) == csv && e == f,
            (None, None) => true,
            _ => false,
        },
        r matches Some((_, e)) ==> i < e <= s@.len(),
    decreases s@.len() - i, 9int,
{
    let (first, j1) = match complex_at_pos(s, i) {
        None => {
            return None;
        },
        Some(x) => x,
    };
    let mut cs: Vec<ComplexSelector> = Vec::new();
    proof {
        lemma_complexes_view_push(cs@, first);
        assert(complexes_view(cs@) =~= Seq::<crate::css::ComplexV>::empty());
    }
    let ghost first_v = complex_view(first);
    cs.push(first);
    assert(complexes_view(cs@) =~= seq![first_v]);
    let mut j = j1;
    loop
        invariant
            i < j1 <= j <= s@.len(),
            list_rest(s@, j as int, complexes_view(cs@)) == list_rest(s@, j1 as int, seq![first_v]),
        decreases s@.len() - j,
    {
        let a = skip_ws_at(s, j);
        if !(a < s.len() && s[a] == ',') {
            break;
        }
        let b = skip_ws_at(s, a + 1);
        match complex_at_pos(s, b) {
            None => {
                break;
            },
            Some((c, k)) => {
                proof {
                    lemma_complexes_view_push(cs@, c);
                }
                cs.push(c);
                j = k;
            },
        }
    }
    Some((cs, j))
}

/// What parsing a selector list gives: the list, or the parse error, which
/// quotes the selector.
pub open spec fn selector_list_outcome(s: Seq<char>) -> Result<Seq<ComplexV>, Seq<char>> {
    match parse_query(s) {
        Some(cs) => Ok(cs),
        None => Err("CSS selector parse error: "@ + s),
    }
}

/// The compound selectors of the first complex selector of `cs` (none for
/// an empty list).
pub open spec fn first_steps(cs: Seq<ComplexV>) -> Seq<StepV> {
    if cs.len() > 0 {
        cs[0].steps
    } else {
        Seq::empty()
    }
}

/// What parsing one selector gives: the compound selectors of the first
/// selector of the list that `s` parses to, or the parse error.
pub open spec fn first_selector_outcome(s: Seq<char>) -> Result<Seq<StepV>, Seq<char>> {
    match parse_query(s) {
        Some(cs) => Ok(first_steps(cs)),
        None => Err("CSS selector parse error: "@ + s),
    }
}

/// Parsing one selector keeps the first selector of the parsed list, and
/// passes a list's parse error on unchanged.
pub proof fn lemma_first_selector_kept(s: Seq<char>)
    ensures
        first_selector_outcome(s) == match selector_list_outcome(s) {
            Ok(cs) => Ok(first_steps(cs)),
            Err(e) => Err(e),
        },
{
}

fn parse_error(selector: &str) -> (r: String)
    ensures
        r@ == "CSS selector parse error: "@ + selector@,
{
    let v = concat_chars(chars_of("CSS selector parse error: "), chars_of(selector).as_slice());
    string_from_chars(v.as_slice())
}

/// Parses a comma-separated CSS selector list (see `css_grammar`).
pub fn parse_css_selector_list(selector: &str) -> (r: Result<SelectorList, String>)
    ensures
        match (r, selector_list_outcome(selector@)) {
            (Ok(l), Ok(cs)) => list_view(l) == cs,
            (Err(e), Err(m)) => e@ == m,
            _ => false,
        },
{
    let s = chars_of(selector);
    let a = skip_ws_at(s.as_slice(), 0);
    match list_at_pos(s.as_slice(), a) {
        None => Err(parse_error(selector)),
        Some((cs, j)) => {
            if skip_ws_at(s.as_slice(), j) == s.len() {
                Ok(SelectorList { selectors: cs })
            } else {
                Err(parse_error(selector))
            }
        },
    }
}


/// The compound selectors of the first complex selector of a list.
pub fn parse_css_selector(selector: &str) -> (r: Result<Vec<ParsedCssStep>, String>)
    ensures
        match (r, first_selector_outcome(selector@)) {
            (Ok(v), Ok(steps)) => steps_view(v@) == steps,
            (Err(e), Err(m)) => e@ == m,
            _ => false,
        },
{
    let list = match parse_css_selector_list(selector) {
        Ok(l) => l,
        Err(e) => return Err(e),
    };
    proof {
        lemma_complexes_view_index(list.selectors@);
    }
    let mut selectors = list.selectors;
    if selectors.len() > 0 {
        let first = selectors.remove(0);
        Ok(first.steps)
    } else {
        Ok(Vec::new())
    }
}

} // verus!
