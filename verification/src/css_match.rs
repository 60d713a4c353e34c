//! Evaluation of CSS selectors against an `HtmlDocument`.
use crate::css::{
    ComplexSelector, CssAttrFilter, CssAttrOp, CssCombinator, CssPseudo, ParsedCssStep,
};
use crate::html::{
    attr_lookup, doc_children, doc_parents, doc_wf, element_has_class, forall_ok_doc, forest_ok,
    HtmlDocument, HtmlElement,
};
use crate::text::{
    any_word, chars_eq, chars_of, contains_chars, contains_seq, ends_with_chars, ends_with_seq,
    eq_ignore_ascii_case, eq_ignore_case, has_word, has_word_ignore_case, lower_seq, occurs_at, word_at,
    lowercase_chars, starts_with_chars, starts_with_seq,
};
use vstd::prelude::*;

verus! {

// ---------------------------------------------------------------------------
// Tree relations
// ---------------------------------------------------------------------------

/// The list of siblings of node `n` (its parent's children, or the roots), `n` included.
pub open spec fn siblings(doc: &HtmlDocument, n: int) -> Seq<usize> {
    match doc.nodes@[n].parent {
        Some(p) => doc.nodes@[p as int].children@,
        None => doc.root_children@,
    }
}

/// `m` is a proper ancestor of `n`.
pub open spec fn is_descendant(doc: &HtmlDocument, m: int, n: int) -> bool
    decreases n,
{
    if 0 <= n < doc.nodes@.len() {
        match doc.nodes@[n].parent {
            Some(p) => p < n && (p == m || is_descendant(doc, m, p as int)),
            None => false,
        }
    } else {
        false
    }
}

/// `n` stands in relation `comb` to `m` (`m comb n` in selector syntax).
pub open spec fn related(doc: &HtmlDocument, comb: CssCombinator, m: int, n: int) -> bool {
    match comb {
        CssCombinator::Child => doc.nodes@[m].children@.contains(n as usize),
        CssCombinator::Descendant => is_descendant(doc, m, n),
        CssCombinator::NextSibling => exists|k: int|
            0 <= k && k + 1 < siblings(doc, m).len() && #[trigger] siblings(doc, m)[k] == m
                && siblings(doc, m)[k + 1] == n,
        CssCombinator::SubsequentSibling => exists|k1: int, k2: int|
            0 <= k1 < k2 < siblings(doc, m).len() && #[trigger] siblings(doc, m)[k1] == m
                && #[trigger] siblings(doc, m)[k2] == n,
    }
}

// ---------------------------------------------------------------------------
// Selector semantics
// ---------------------------------------------------------------------------

/// `An+B` accepts the 1-based position `idx` (some `k >= 0` has `idx == a*k + b`).
pub open spec fn nth_ok(a: int, b: int, idx: int) -> bool {
    if a == 0 {
        idx == b
    } else if a > 0 {
        idx >= b && (idx - b) % a == 0
    } else {
        idx <= b && (b - idx) % (-a) == 0
    }
}

pub open spec fn expected_value(f: CssAttrFilter) -> Seq<char> {
    match f.value {
        Some(v) => v@,
        None => Seq::empty(),
    }
}

/// How an attribute operator compares the actual value with the expected one;
/// without the `s` flag the comparison ignores ASCII case.
pub open spec fn attr_value_matches(
    op: CssAttrOp,
    actual: Seq<char>,
    expected: Seq<char>,
    case_sensitive: Option<bool>,
) -> bool {
    if case_sensitive == Some(true) {
        match op {
            CssAttrOp::Exact => actual == expected,
            CssAttrOp::Contains => contains_seq(actual, expected),
            CssAttrOp::StartsWith => starts_with_seq(actual, expected),
            CssAttrOp::EndsWith => ends_with_seq(actual, expected),
            CssAttrOp::WordMatch => has_word(actual, expected),
            CssAttrOp::HyphenPrefix => actual == expected || starts_with_seq(
                actual,
                expected.push('-'),
            ),
            CssAttrOp::Exists => true,
        }
    } else {
        let a = lower_seq(actual);
        let e = lower_seq(expected);
        match op {
            CssAttrOp::Exact => a == e,
            CssAttrOp::Contains => contains_seq(a, e),
            CssAttrOp::StartsWith => starts_with_seq(a, e),
            CssAttrOp::EndsWith => ends_with_seq(a, e),
            CssAttrOp::WordMatch => has_word_ignore_case(actual, expected),
            CssAttrOp::HyphenPrefix => a == e || starts_with_seq(a, e.push('-')),
            CssAttrOp::Exists => true,
        }
    }
}

/// A value as the attribute operators compare it: as it is with the `s`
/// flag, ASCII-lowercased otherwise.
pub open spec fn compared_form(v: Seq<char>, cs: Option<bool>) -> Seq<char> {
    if cs == Some(true) {
        v
    } else {
        lower_seq(v)
    }
}

/// What each attribute operator asks of the attribute's value `actual`
/// against the expected value `expected`, both taken in their compared
/// form (`a` and `e`): `=` asks that they be equal; `^=` that `e` begin
/// `a`; `$=` that `e` end `a`; `*=` that `e` occur somewhere in `a`, at any
/// position; `|=` that they be equal or that `e` followed by `-` begin `a`;
/// a bare `[name]` asks nothing of the value.
pub proof fn lemma_attr_operators(actual: Seq<char>, expected: Seq<char>, cs: Option<bool>)
    ensures
        ({
            let a = compared_form(actual, cs);
            let e = compared_form(expected, cs);
            &&& attr_value_matches(CssAttrOp::Exact, actual, expected, cs) == (a == e)
            &&& attr_value_matches(CssAttrOp::StartsWith, actual, expected, cs) == (e.len() <= a.len()
                && a.subrange(0, e.len() as int) == e)
            &&& attr_value_matches(CssAttrOp::EndsWith, actual, expected, cs) == (e.len() <= a.len()
                && a.subrange(a.len() - e.len(), a.len() as int) == e)
            &&& attr_value_matches(CssAttrOp::Contains, actual, expected, cs) == (exists|k: int|
                0 <= k && k + e.len() <= a.len() && #[trigger] a.subrange(k, k + e.len()) == e)
            &&& attr_value_matches(CssAttrOp::HyphenPrefix, actual, expected, cs) == (a == e || (e.len()
                < a.len() && a.subrange(0, e.len() as int) == e && a[e.len() as int] == '-'))
            &&& attr_value_matches(CssAttrOp::Exists, actual, expected, cs)
        }),
{
    let a = compared_form(actual, cs);
    let e = compared_form(expected, cs);
    if contains_seq(a, e) {
        let k = choose|k: int| occurs_at(a, e, k);
        assert(0 <= k && k + e.len() <= a.len() && a.subrange(k, k + e.len()) == e);
    }
    if exists|k: int| 0 <= k && k + e.len() <= a.len() && #[trigger] a.subrange(k, k + e.len()) == e {
        let k = choose|k: int| 0 <= k && k + e.len() <= a.len() && #[trigger] a.subrange(k, k + e.len()) == e;
        assert(occurs_at(a, e, k));
    }
    let ep = e.push('-');
    if starts_with_seq(a, ep) {
        assert(a.subrange(0, e.len() as int) =~= ep.subrange(0, e.len() as int));
        assert(ep.subrange(0, e.len() as int) =~= e);
        assert(a[e.len() as int] == a.subrange(0, ep.len() as int)[e.len() as int]);
    }
    if e.len() < a.len() && a.subrange(0, e.len() as int) == e && a[e.len() as int] == '-' {
        assert(a.subrange(0, ep.len() as int) =~= ep) by {
            assert forall|j: int| 0 <= j < ep.len() implies a.subrange(0, ep.len() as int)[j] == ep[j] by {
                if j < e.len() {
                    assert(a.subrange(0, e.len() as int)[j] == a[j]);
                }
            }
        }
    }
}

/// `*=` asks least of the substring operators: whatever `=`, `^=` or `$=`
/// accepts, `*=` accepts too (with the same flag), and so does a
/// case-sensitive `~=`; whatever `|=` accepts, `^=` accepts.
pub proof fn lemma_attr_contains_weakest(actual: Seq<char>, expected: Seq<char>, cs: Option<bool>)
    ensures
        attr_value_matches(CssAttrOp::WordMatch, actual, expected, Some(true)) ==> attr_value_matches(
            CssAttrOp::Contains,
            actual,
            expected,
            Some(true),
        ),
        attr_value_matches(CssAttrOp::HyphenPrefix, actual, expected, cs) ==> attr_value_matches(
            CssAttrOp::StartsWith,
            actual,
            expected,
            cs,
        ),
        attr_value_matches(CssAttrOp::Exact, actual, expected, cs) ==> attr_value_matches(
            CssAttrOp::Contains,
            actual,
            expected,
            cs,
        ),
        attr_value_matches(CssAttrOp::StartsWith, actual, expected, cs) ==> attr_value_matches(
            CssAttrOp::Contains,
            actual,
            expected,
            cs,
        ),
        attr_value_matches(CssAttrOp::EndsWith, actual, expected, cs) ==> attr_value_matches(
            CssAttrOp::Contains,
            actual,
            expected,
            cs,
        ),
{
    lemma_attr_operators(actual, expected, cs);
    lemma_attr_operators(actual, expected, Some(true));
    if has_word(actual, expected) {
        let i = choose|i: int| word_at(actual, expected, i);
        assert(actual.subrange(i, i + expected.len()) == expected);
    }
    let a = compared_form(actual, cs);
    let e = compared_form(expected, cs);
    if a.len() > e.len() && a.subrange(0, e.len() as int) == e && a[e.len() as int] == '-' {
        assert(a.subrange(0, e.len() as int) == e);
    }
    if a == e {
        assert(a.subrange(0, e.len() as int) =~= e);
    }
    if e.len() <= a.len() && a.subrange(0, e.len() as int) == e {
        assert(a.subrange(0int, 0int + e.len()) == e);
    }
    if e.len() <= a.len() && a.subrange(a.len() - e.len(), a.len() as int) == e {
        let k = a.len() - e.len();
        assert(a.subrange(k, k + e.len()) == e);
    }
}

/// The element carries the attribute and, unless only its presence is
/// asked for, its value satisfies the operator.
pub open spec fn attr_filter_matches(el: HtmlElement, f: CssAttrFilter) -> bool {
    match attr_lookup(el.attributes@, f.name@) {
        Some(v) => f.op == CssAttrOp::Exists || attr_value_matches(
            f.op,
            v,
            expected_value(f),
            f.case_sensitive,
        ),
        None => false,
    }
}

pub open spec fn comb_of(step: ParsedCssStep) -> CssCombinator {
    match step.combinator {
        Some(c) => c,
        None => CssCombinator::Descendant,
    }
}

/// Node `n` satisfies every part of one compound selector.
pub open spec fn compound_matches(doc: &HtmlDocument, n: int, step: ParsedCssStep) -> bool
    decreases step, 0int,
{
    let el = doc.nodes@[n];
    &&& (step.tag matches Some(t) ==> eq_ignore_case(el.tag@, t@))
    &&& (step.id matches Some(i) ==> attr_lookup(el.attributes@, "id"@) == Some(i@))
    &&& forall|k: int|
        0 <= k < step.classes@.len() ==> element_has_class(el, (#[trigger] step.classes@[k])@)
    &&& forall|k: int| 0 <= k < step.attrs@.len() ==> attr_filter_matches(el, #[trigger] step.attrs@[k])
    &&& forall|k: int|
        0 <= k < step.pseudos@.len() ==> pseudo_matches(doc, n, #[trigger] step.pseudos@[k])
}

/// Node `n` satisfies a pseudo-class.
pub open spec fn pseudo_matches(doc: &HtmlDocument, n: int, p: CssPseudo) -> bool
    decreases p, 0int,
{
    let sib = siblings(doc, n);
    match p {
        CssPseudo::FirstChild => sib.len() > 0 && sib[0] == n,
        CssPseudo::LastChild => sib.len() > 0 && sib.last() == n,
        CssPseudo::OnlyChild => sib.len() == 1,
        CssPseudo::NthChild { a, b } => exists|k: int|
            0 <= k < sib.len() && #[trigger] sib[k] == n && nth_ok(a as int, b as int, k + 1),
        CssPseudo::First => n == 0,
        CssPseudo::Last => n + 1 == doc.nodes@.len(),
        CssPseudo::Contains(needle) => contains_seq(
            lower_seq(doc.nodes@[n].outer_html@),
            lower_seq(needle@),
        ),
        CssPseudo::Not(v) => !exists|i: int|
            0 <= i < v@.len() && complex_matches(doc, #[trigger] v@[i], n),
        CssPseudo::Is(v) => exists|i: int|
            0 <= i < v@.len() && complex_matches(doc, #[trigger] v@[i], n),
        CssPseudo::Where(v) => exists|i: int|
            0 <= i < v@.len() && complex_matches(doc, #[trigger] v@[i], n),
    }
}

/// Node `n` is the subject of a complex selector.
pub open spec fn complex_matches(doc: &HtmlDocument, c: ComplexSelector, n: int) -> bool
    decreases c, c.steps@.len(),
{
    c.steps@.len() > 0 && chain_matches(doc, c, c.steps@.len() - 1, n)
}

/// Node `n` matches step `k` of `c`, reached from a node matching steps `0..k`
/// through step `k`'s combinator.
pub open spec fn chain_matches(doc: &HtmlDocument, c: ComplexSelector, k: int, n: int) -> bool
    decreases c, k,
{
    if 0 <= k < c.steps@.len() && 0 <= n < doc.nodes@.len() {
        compound_matches(doc, n, c.steps@[k]) && (k == 0 || exists|m: int|
            #![trigger related(doc, comb_of(c.steps@[k]), m, n)]
            0 <= m < doc.nodes@.len() && chain_matches(doc, c, k - 1, m) && related(
                doc,
                comb_of(c.steps@[k]),
                m,
                n,
            ))
    } else {
        false
    }
}

/// `:where(..)` selects what `:is(..)` selects, and `:not(..)` its
/// complement.
pub proof fn lemma_logical_pseudos(doc: &HtmlDocument, n: int, v: Vec<ComplexSelector>)
    ensures
        pseudo_matches(doc, n, CssPseudo::Where(v)) == pseudo_matches(doc, n, CssPseudo::Is(v)),
        pseudo_matches(doc, n, CssPseudo::Not(v)) == !pseudo_matches(doc, n, CssPseudo::Is(v)),
{
    let is_p = CssPseudo::Is(v);
    let where_p = CssPseudo::Where(v);
    let not_p = CssPseudo::Not(v);
    assert(is_p->Is_0@ =~= v@);
    assert(where_p->Where_0@ =~= v@);
    assert(not_p->Not_0@ =~= v@);
}

/// `v` holds, without repetition, exactly the nodes satisfying `p`.
pub open spec fn node_set(v: Seq<usize>, len: nat, p: spec_fn(int) -> bool) -> bool {
    &&& v.no_duplicates()
    &&& forall|k: int| 0 <= k < v.len() ==> #[trigger] v[k] < len
    &&& forall|x: int| 0 <= x < len ==> (v.contains(x as usize) <==> #[trigger] p(x))
}

pub proof fn lemma_chain_unfold(doc: &HtmlDocument, c: ComplexSelector, k: int, n: int)
    requires
        1 <= k < c.steps@.len(),
        0 <= n < doc.nodes@.len(),
    ensures
        chain_matches(doc, c, k, n) <==> (compound_matches(doc, n, c.steps@[k]) && exists|m: int|
            #![trigger related(doc, comb_of(c.steps@[k]), m, n)]
            0 <= m < doc.nodes@.len() && chain_matches(doc, c, k - 1, m) && related(
                doc,
                comb_of(c.steps@[k]),
                m,
                n,
            )),
{
}

pub proof fn lemma_node_set(v: Seq<usize>, len: nat, p: spec_fn(int) -> bool, x: int)
    requires
        node_set(v, len, p),
        0 <= x < len,
    ensures
        v.contains(x as usize) <==> p(x),
{
}

// ---------------------------------------------------------------------------
// Lemmas about well-formed documents
// ---------------------------------------------------------------------------

pub proof fn lemma_siblings(doc: &HtmlDocument, n: int)
    requires
        doc_wf(doc),
        0 <= n < doc.nodes@.len(),
    ensures
        siblings(doc, n).contains(n as usize),
        forall|k: int|
            0 <= k < siblings(doc, n).len() ==> #[trigger] siblings(doc, n)[k] < doc.nodes@.len(),
        forall|k1: int, k2: int|
            0 <= k1 < k2 < siblings(doc, n).len() ==> #[trigger] siblings(doc, n)[k1]
                < #[trigger] siblings(doc, n)[k2],
{
    let parents = doc_parents(doc);
    let ch = doc_children(doc);
    assert(forest_ok(parents, ch, doc.root_children@));
    assert(parents[n] == doc.nodes@[n].parent);
    match doc.nodes@[n].parent {
        Some(p) => {
            assert(ch[p as int] == doc.nodes@[p as int].children@);
            assert forall|k: int| 0 <= k < siblings(doc, n).len() implies #[trigger] siblings(
                doc,
                n,
            )[k] < doc.nodes@.len() by {
                assert(ch[p as int][k] == siblings(doc, n)[k]);
            }
            assert forall|k1: int, k2: int|
                0 <= k1 < k2 < siblings(doc, n).len() implies #[trigger] siblings(doc, n)[k1]
                < #[trigger] siblings(doc, n)[k2] by {
                assert(ch[p as int][k1] < ch[p as int][k2]);
            }
        },
        None => {},
    }
}

pub proof fn lemma_children(doc: &HtmlDocument, m: int)
    requires
        doc_wf(doc),
        0 <= m < doc.nodes@.len(),
    ensures
        forall|k: int|
            0 <= k < doc.nodes@[m].children@.len() ==> m < #[trigger] doc.nodes@[m].children@[k]
                < doc.nodes@.len() && doc.nodes@[doc.nodes@[m].children@[k] as int].parent == Some(
                m as usize,
            ),
{
    let parents = doc_parents(doc);
    let ch = doc_children(doc);
    assert(forest_ok(parents, ch, doc.root_children@));
    assert(ch[m] == doc.nodes@[m].children@);
    assert forall|k: int| 0 <= k < doc.nodes@[m].children@.len() implies m
        < #[trigger] doc.nodes@[m].children@[k] < doc.nodes@.len()
        && doc.nodes@[doc.nodes@[m].children@[k] as int].parent == Some(m as usize) by {
        assert(ch[m][k] == doc.nodes@[m].children@[k]);
        assert(parents[ch[m][k] as int] == doc.nodes@[ch[m][k] as int].parent);
    }
}

pub proof fn lemma_parent_child(doc: &HtmlDocument, d: int)
    requires
        doc_wf(doc),
        0 <= d < doc.nodes@.len(),
    ensures
        doc.nodes@[d].parent matches Some(p) ==> p < d && doc.nodes@[p as int].children@.contains(
            d as usize,
        ),
{
    let parents = doc_parents(doc);
    let ch = doc_children(doc);
    assert(forest_ok(parents, ch, doc.root_children@));
    assert(parents[d] == doc.nodes@[d].parent);
    match doc.nodes@[d].parent {
        Some(p) => {
            assert(ch[p as int] == doc.nodes@[p as int].children@);
        },
        None => {},
    }
}

/// Descendants of `m` are its children and their descendants.
pub proof fn lemma_descendant_step(doc: &HtmlDocument, m: int, d: int)
    requires
        doc_wf(doc),
        0 <= m < doc.nodes@.len(),
    ensures
        is_descendant(doc, m, d) <==> exists|k: int|
            0 <= k < doc.nodes@[m].children@.len() && (#[trigger] doc.nodes@[m].children@[k] == d
                || is_descendant(doc, doc.nodes@[m].children@[k] as int, d)),
    decreases d,
{
    lemma_children(doc, m);
    let ch = doc.nodes@[m].children@;
    if 0 <= d < doc.nodes@.len() {
        lemma_parent_child(doc, d);
        match doc.nodes@[d].parent {
            Some(p) => {
                if is_descendant(doc, m, d) {
                    if p == m {
                        assert(ch.contains(d as usize));
                        let k = choose|k: int| 0 <= k < ch.len() && #[trigger] ch[k] == d as usize;
                        assert(doc.nodes@[m].children@[k] == d);
                    } else {
                        lemma_descendant_step(doc, m, p as int);
                        let k = choose|k: int|
                            0 <= k < ch.len() && (#[trigger] ch[k] == p || is_descendant(
                                doc,
                                ch[k] as int,
                                p as int,
                            ));
                        assert(is_descendant(doc, ch[k] as int, d));
                    }
                } else {
                    assert forall|k: int| 0 <= k < ch.len() implies !(#[trigger] ch[k] == d
                        || is_descendant(doc, ch[k] as int, d)) by {
                        if ch[k] == d {
                            assert(doc.nodes@[ch[k] as int].parent == Some(m as usize));
                        }
                        if is_descendant(doc, ch[k] as int, d) {
                            if p == ch[k] {
                                assert(is_descendant(doc, m, p as int));
                            } else {
                                lemma_descendant_step(doc, m, p as int);
                                assert(is_descendant(doc, m, p as int));
                            }
                        }
                    }
                }
            },
            None => {
                assert forall|k: int| 0 <= k < ch.len() implies !(#[trigger] ch[k] == d
                    || is_descendant(doc, ch[k] as int, d)) by {
                    if ch[k] == d {
                        assert(doc.nodes@[ch[k] as int].parent == Some(m as usize));
                    }
                }
            },
        }
    } else {
        assert forall|k: int| 0 <= k < ch.len() implies !(#[trigger] ch[k] == d
            || is_descendant(doc, ch[k] as int, d)) by {}
    }
}

proof fn lemma_sorted_unique(v: Seq<usize>, k1: int, k2: int)
    requires
        forall|a: int, b: int| 0 <= a < b < v.len() ==> #[trigger] v[a] < #[trigger] v[b],
        0 <= k1 < v.len(),
        0 <= k2 < v.len(),
        v[k1] == v[k2],
    ensures
        k1 == k2,
{
    if k1 < k2 {
        assert(v[k1] < v[k2]);
    } else if k2 < k1 {
        assert(v[k2] < v[k1]);
    }
}

// ---------------------------------------------------------------------------
// Exec helpers
// ---------------------------------------------------------------------------

pub(crate) fn vec_contains(v: &Vec<usize>, x: usize) -> (r: bool)
    ensures
        r == v@.contains(x),
{
    let mut i: usize = 0;
    while i < v.len()
        invariant
            i <= v.len(),
            forall|k: int| 0 <= k < i ==> v@[k] != x,
        decreases v.len() - i,
    {
        if v[i] == x {
            return true;
        }
        i += 1;
    }
    false
}

fn position_of(v: &Vec<usize>, x: usize) -> (r: Option<usize>)
    ensures
        match r {
            Some(k) => k < v.len() && v@[k as int] == x,
            None => !v@.contains(x),
        },
{
    let mut i: usize = 0;
    while i < v.len()
        invariant
            i <= v.len(),
            forall|k: int| 0 <= k < i ==> v@[k] != x,
        decreases v.len() - i,
    {
        if v[i] == x {
            return Some(i);
        }
        i += 1;
    }
    None
}

fn sibling_list<'a>(doc: &'a HtmlDocument, n: usize) -> (r: &'a Vec<usize>)
    requires
        doc_wf(doc),
        n < doc.nodes@.len(),
    ensures
        r@ == siblings(doc, n as int),
{
    match doc.nodes[n].parent {
        Some(p) => {
            proof {
                lemma_parent_child(doc, n as int);
            }
            &doc.nodes[p].children
        },
        None => &doc.root_children,
    }
}

/// Appends the descendants of `root_id` (children first, depth-first) to `out`.
fn collect_all_descendants(doc: &HtmlDocument, root_id: usize, out: &mut Vec<usize>)
    requires
        doc_wf(doc),
        root_id < doc.nodes@.len(),
        forall|k: int| 0 <= k < old(out)@.len() ==> #[trigger] old(out)@[k] < doc.nodes@.len(),
    ensures
        forall|k: int| 0 <= k < final(out)@.len() ==> #[trigger] final(out)@[k] < doc.nodes@.len(),
        forall|x: usize|
            #[trigger] final(out)@.contains(x) <==> (old(out)@.contains(x) || is_descendant(
                doc,
                root_id as int,
                x as int,
            )),
    decreases doc.nodes@.len() - root_id,
{
    proof {
        lemma_children(doc, root_id as int);
    }
    let ghost out0 = out@;
    let children = &doc.nodes[root_id].children;
    let mut i: usize = 0;
    while i < children.len()
        invariant
            doc_wf(doc),
            root_id < doc.nodes@.len(),
            children@ == doc.nodes@[root_id as int].children@,
            i <= children.len(),
            forall|k: int| 0 <= k < out@.len() ==> #[trigger] out@[k] < doc.nodes@.len(),
            forall|k: int|
                0 <= k < children@.len() ==> root_id < #[trigger] children@[k] < doc.nodes@.len(),
            forall|x: usize|
                #[trigger] out@.contains(x) <==> (out0.contains(x) || exists|k: int|
                    0 <= k < i && (#[trigger] children@[k] == x || is_descendant(
                        doc,
                        children@[k] as int,
                        x as int,
                    ))),
        decreases children.len() - i,
    {
        let child_id = children[i];
        let ghost before = out@;
        out.push(child_id);
        let ghost mid = out@;
        proof {
            assert forall|x: usize| #[trigger] mid.contains(x) <==> (before.contains(x) || x
                == child_id) by {
                if mid.contains(x) {
                    let j = choose|j: int| #![auto] 0 <= j < mid.len() && mid[j] == x;
                    if j < before.len() {
                        assert(before[j] == x);
                    }
                }
                if before.contains(x) {
                    let j = choose|j: int| #![auto] 0 <= j < before.len() && before[j] == x;
                    assert(mid[j] == x);
                }
                if x == child_id {
                    assert(mid[before.len() as int] == x);
                }
            }
        }
        collect_all_descendants(doc, child_id, out);
        proof {
            assert forall|x: usize| #[trigger] out@.contains(x) <==> (out0.contains(x) || exists|
                k: int,
            |
                0 <= k < i + 1 && (#[trigger] children@[k] == x || is_descendant(
                    doc,
                    children@[k] as int,
                    x as int,
                ))) by {
                if out@.contains(x) && !out0.contains(x) {
                    if !(exists|k: int|
                        0 <= k < i && (#[trigger] children@[k] == x || is_descendant(
                            doc,
                            children@[k] as int,
                            x as int,
                        ))) {
                        assert(children@[i as int] == x || is_descendant(
                            doc,
                            children@[i as int] as int,
                            x as int,
                        ));
                    }
                }
            }
        }
        i += 1;
    }
    proof {
        assert forall|x: usize| #[trigger] out@.contains(x) <==> (out0.contains(x) || is_descendant(
            doc,
            root_id as int,
            x as int,
        )) by {
            lemma_descendant_step(doc, root_id as int, x as int);
        }
    }
}

fn nth_matches(a: isize, b: isize, idx: usize) -> (r: bool)
    ensures
        r == nth_ok(a as int, b as int, idx as int),
{
    let idx = idx as i128;
    let a = a as i128;
    let b = b as i128;
    if a == 0 {
        idx == b
    } else if a > 0 {
        idx >= b && ((idx - b) as u128) % (a as u128) == 0
    } else {
        idx <= b && ((b - idx) as u128) % ((0 - a) as u128) == 0
    }
}

fn attr_matches(el: &HtmlElement, f: &CssAttrFilter) -> (r: bool)
    ensures
        r == attr_filter_matches(*el, *f),
{
    let actual = match el.get_attr(f.name.as_str()) {
        Some(v) => chars_of(v),
        None => {
            return false;
        },
    };
    if f.op == CssAttrOp::Exists {
        return true;
    }
    let expected: Vec<char> = match &f.value {
        Some(v) => chars_of(v.as_str()),
        None => Vec::new(),
    };
    if f.case_sensitive == Some(true) {
        match f.op {
            CssAttrOp::Exact => chars_eq(&actual, &expected),
            CssAttrOp::Contains => contains_chars(&actual, &expected),
            CssAttrOp::StartsWith => starts_with_chars(&actual, &expected),
            CssAttrOp::EndsWith => ends_with_chars(&actual, &expected),
            CssAttrOp::WordMatch => any_word(&actual, &expected, false),
            CssAttrOp::HyphenPrefix => {
                let mut prefix = expected.clone();
                prefix.push('-');
                proof {
                    assert(prefix@ == expected@.push('-'));
                }
                chars_eq(&actual, &expected) || starts_with_chars(&actual, &prefix)
            },
            CssAttrOp::Exists => true,
        }
    } else {
        let al = lowercase_chars(&actual);
        let el_ = lowercase_chars(&expected);
        match f.op {
            CssAttrOp::Exact => chars_eq(&al, &el_),
            CssAttrOp::Contains => contains_chars(&al, &el_),
            CssAttrOp::StartsWith => starts_with_chars(&al, &el_),
            CssAttrOp::EndsWith => ends_with_chars(&al, &el_),
            CssAttrOp::WordMatch => any_word(&actual, &expected, true),
            CssAttrOp::HyphenPrefix => {
                let mut prefix = el_.clone();
                prefix.push('-');
                proof {
                    assert(prefix@ == el_@.push('-'));
                }
                chars_eq(&al, &el_) || starts_with_chars(&al, &prefix)
            },
            CssAttrOp::Exists => true,
        }
    }
}

// ---------------------------------------------------------------------------
// Matching
// ---------------------------------------------------------------------------

/// Whether node `node_id` satisfies the compound selector `step`.
#[verifier::loop_isolation(false)]
pub fn matches_compound_selector(doc: &HtmlDocument, node_id: usize, step: &ParsedCssStep) -> (r:
    bool)
    requires
        doc_wf(doc),
        node_id < doc.nodes@.len(),
    ensures
        r == compound_matches(doc, node_id as int, *step),
    decreases *step, 0int,
{
    let node = &doc.nodes[node_id];

    // Tag check
    if let Some(required_tag) = &step.tag {
        let have = chars_of(node.tag.as_str());
        let want = chars_of(required_tag.as_str());
        if !eq_ignore_ascii_case(&have, &want) {
            return false;
        }
    }
    // ID check

    if let Some(required_id) = &step.id {
        match node.get_attr("id") {
            Some(v) => {
                let have = chars_of(v);
                let want = chars_of(required_id.as_str());
                if !chars_eq(&have, &want) {
                    return false;
                }
            },
            None => {
                return false;
            },
        }
    }
    // Classes check

    let mut k: usize = 0;
    while k < step.classes.len()
        invariant
            k <= step.classes@.len(),
            forall|j: int| 0 <= j < k ==> element_has_class(*node, (#[trigger] step.classes@[j])@),
        decreases step.classes@.len() - k,
    {
        if !node.has_class(step.classes[k].as_str()) {
            proof {
                assert(!element_has_class(doc.nodes@[node_id as int], step.classes@[k as int]@));
            }
            return false;
        }
        k += 1;
    }
    // Attributes check

    let mut k: usize = 0;
    while k < step.attrs.len()
        invariant
            k <= step.attrs@.len(),
            forall|j: int| 0 <= j < k ==> attr_filter_matches(*node, #[trigger] step.attrs@[j]),
        decreases step.attrs@.len() - k,
    {
        if !attr_matches(node, &step.attrs[k]) {
            proof {
                assert(!attr_filter_matches(doc.nodes@[node_id as int], step.attrs@[k as int]));
            }
            return false;
        }
        k += 1;
    }
    // Pseudos check

    let mut k: usize = 0;
    while k < step.pseudos.len()
        invariant
            doc_wf(doc),
            node_id < doc.nodes@.len(),
            k <= step.pseudos@.len(),
            forall|j: int|
                0 <= j < k ==> pseudo_matches(doc, node_id as int, #[trigger] step.pseudos@[j]),
        decreases step.pseudos@.len() - k,
    {
        proof {
            assert(decreases_to!(*step => step.pseudos@[k as int]));
        }
        if !matches_pseudo(doc, node_id, &step.pseudos[k]) {
            proof {
                assert(!pseudo_matches(doc, node_id as int, step.pseudos@[k as int]));
            }
            return false;
        }
        k += 1;
    }
    true
}

/// Whether node `node_id` satisfies the pseudo-class `pseudo`.
pub fn matches_pseudo(doc: &HtmlDocument, node_id: usize, pseudo: &CssPseudo) -> (r: bool)
    requires
        doc_wf(doc),
        node_id < doc.nodes@.len(),
    ensures
        r == pseudo_matches(doc, node_id as int, *pseudo),
    decreases *pseudo, 0int,
{
    proof {
        lemma_siblings(doc, node_id as int);
    }
    let sib = sibling_list(doc, node_id);
    match pseudo {
        CssPseudo::FirstChild => {
            let r = sib.len() > 0 && sib[0] == node_id;
            assert(r == pseudo_matches(doc, node_id as int, *pseudo));
            r
        },
        CssPseudo::LastChild => {
            let r = sib.len() > 0 && sib[sib.len() - 1] == node_id;
            assert(r == pseudo_matches(doc, node_id as int, *pseudo));
            r
        },
        CssPseudo::OnlyChild => {
            let r = sib.len() == 1;
            assert(r == pseudo_matches(doc, node_id as int, *pseudo));
            r
        },
        CssPseudo::NthChild { a, b } => {
            match position_of(sib, node_id) {
                Some(pos) => {
                    proof {
                        assert forall|k: int|
                            0 <= k < sib@.len() && #[trigger] sib@[k] == node_id implies k
                            == pos by {
                            lemma_sorted_unique(sib@, k, pos as int);
                        }
                    }
                    let r = nth_matches(*a, *b, pos + 1);
                    assert(r == pseudo_matches(doc, node_id as int, *pseudo));
                    r
                },
                None => {
                    assert(!pseudo_matches(doc, node_id as int, *pseudo));
                    false
                },
            }
        },
        CssPseudo::First => {
            let r = node_id == 0;
            assert(r == pseudo_matches(doc, node_id as int, *pseudo));
            r
        },
        CssPseudo::Last => {
            let r = node_id == doc.nodes.len() - 1;
            assert(r == pseudo_matches(doc, node_id as int, *pseudo));
            r
        },
        CssPseudo::Contains(needle) => {
            let outer = chars_of(doc.nodes[node_id].outer_html.as_str());
            let hay = lowercase_chars(&outer);
            let nd = chars_of(needle.as_str());
            let nl = lowercase_chars(&nd);
            let r = contains_chars(&hay, &nl);
            assert(r == pseudo_matches(doc, node_id as int, *pseudo));
            r
        },
        CssPseudo::Not(selectors) => {
            let r = !any_complex_contains(doc, selectors, node_id);
            assert(r == pseudo_matches(doc, node_id as int, *pseudo));
            r
        },
        CssPseudo::Is(selectors) => {
            let r = any_complex_contains(doc, selectors, node_id);
            assert(r == pseudo_matches(doc, node_id as int, *pseudo));
            r
        },
        CssPseudo::Where(selectors) => {
            let r = any_complex_contains(doc, selectors, node_id);
            assert(r == pseudo_matches(doc, node_id as int, *pseudo));
            r
        },
    }
}

/// Whether some selector of `selectors` has `node_id` among its matches.
#[verifier::loop_isolation(false)]
fn any_complex_contains(doc: &HtmlDocument, selectors: &Vec<ComplexSelector>, node_id: usize) -> (r:
    bool)
    requires
        doc_wf(doc),
        node_id < doc.nodes@.len(),
    ensures
        r == exists|i: int|
            0 <= i < selectors@.len() && complex_matches(
                doc,
                #[trigger] selectors@[i],
                node_id as int,
            ),
    decreases *selectors, 0int,
{
    let mut i: usize = 0;
    while i < selectors.len()
        invariant
            doc_wf(doc),
            node_id < doc.nodes@.len(),
            i <= selectors@.len(),
            forall|j: int|
                0 <= j < i ==> !#[trigger] complex_matches(doc, selectors@[j], node_id as int),
        decreases selectors@.len() - i,
    {
        proof {
            assert(decreases_to!(*selectors => selectors@[i as int]));
        }
        let matches = match_complex_selector(doc, &selectors[i]);
        proof {
            lemma_node_set(
                matches@,
                doc.nodes@.len(),
                |x: int| complex_matches(doc, selectors@[i as int], x),
                node_id as int,
            );
        }
        if vec_contains(&matches, node_id) {
            return true;
        }
        i += 1;
    }
    false
}

/// All nodes that are subjects of `complex`, each once.
#[verifier::loop_isolation(false)]
pub fn match_complex_selector(doc: &HtmlDocument, complex: &ComplexSelector) -> (r: Vec<usize>)
    requires
        doc_wf(doc),
    ensures
        node_set(r@, doc.nodes@.len(), |x: int| complex_matches(doc, *complex, x)),
    decreases *complex, 1int,
{
    if complex.steps.len() == 0 {
        let r: Vec<usize> = Vec::new();
        proof {
            assert(r@.no_duplicates());
        }
        return r;
    }
    let len = doc.nodes.len();
    let mut current: Vec<usize> = Vec::new();
    let first_step = &complex.steps[0];
    let mut id: usize = 0;
    proof {
        assert(decreases_to!(*complex => complex.steps@[0]));
    }
    while id < len
        invariant
            doc_wf(doc),
            len == doc.nodes@.len(),
            complex.steps@.len() > 0,
            first_step == complex.steps@[0],
            id <= len,
            current@.no_duplicates(),
            forall|k: int| 0 <= k < current@.len() ==> #[trigger] current@[k] < id,
            forall|x: int|
                0 <= x < len ==> (current@.contains(x as usize) <==> (x < id && #[trigger] chain_matches(
                    doc,
                    *complex,
                    0,
                    x,
                ))),
        decreases len - id,
    {
        if matches_compound_selector(doc, id, first_step) {
            let ghost before = current@;
            current.push(id);
            proof {
                assert forall|x: int| 0 <= x < len implies (current@.contains(x as usize) <==> (x
                    < id + 1 && #[trigger] chain_matches(doc, *complex, 0, x))) by {
                    if x == id {
                        assert(current@[before.len() as int] == id);
                    } else if current@.contains(x as usize) {
                        let j = choose|j: int| #![auto] 0 <= j < current@.len() && current@[j] == x;
                        if j < before.len() {
                            assert(before[j] == x);
                        }
                    } else if before.contains(x as usize) {
                        let j = choose|j: int| #![auto] 0 <= j < before.len() && before[j] == x;
                        assert(current@[j] == x);
                    }
                }
            }
        } else {
            proof {
                assert(!chain_matches(doc, *complex, 0, id as int));
            }
        }
        id += 1;
    }
    let mut k: usize = 1;
    while k < complex.steps.len()
        invariant
            doc_wf(doc),
            len == doc.nodes@.len(),
            1 <= k <= complex.steps@.len(),
            node_set(current@, len as nat, |x: int| chain_matches(doc, *complex, k - 1, x)),
        decreases complex.steps@.len() - k,
    {
        let step = &complex.steps[k];
        proof {
            assert(decreases_to!(*complex => complex.steps@[k as int]));
        }
        let next = advance_step(doc, complex, k, &current);
        current = next;
        k += 1;
    }
    proof {
        assert forall|x: int| 0 <= x < len implies (current@.contains(x as usize)
            <==> #[trigger] complex_matches(doc, *complex, x)) by {
            assert(chain_matches(doc, *complex, k - 1, x) == (|y: int|
                chain_matches(doc, *complex, k - 1, y))(x));
        }
    }
    current
}

/// The nodes in relation `comb` to `curr_id`.
fn related_nodes(doc: &HtmlDocument, comb: CssCombinator, curr_id: usize) -> (cands: Vec<usize>)
    requires
        doc_wf(doc),
        curr_id < doc.nodes@.len(),
    ensures
        forall|j: int| 0 <= j < cands@.len() ==> #[trigger] cands@[j] < doc.nodes@.len(),
        forall|x: usize| #[trigger]
            cands@.contains(x) <==> related(doc, comb, curr_id as int, x as int),
{
    let mut cands: Vec<usize> = Vec::new();
    match comb {
        CssCombinator::Child => {
            proof {
                lemma_children(doc, curr_id as int);
            }
            let children = &doc.nodes[curr_id].children;
            let mut c: usize = 0;
            while c < children.len()
                invariant
                    c <= children@.len(),
                    children@ == doc.nodes@[curr_id as int].children@,
                    cands@ == children@.take(c as int),
                decreases children@.len() - c,
            {
                cands.push(children[c]);
                proof {
                    assert(children@.take(c + 1) == children@.take(c as int).push(
                        children@[c as int],
                    ));
                }
                c += 1;
            }
            proof {
                assert(children@.take(children@.len() as int) == children@);
            }
        },
        CssCombinator::Descendant => {
            collect_all_descendants(doc, curr_id, &mut cands);
        },
        CssCombinator::NextSibling => {
            proof {
                lemma_siblings(doc, curr_id as int);
            }
            let siblings_v = sibling_list(doc, curr_id);
            if let Some(pos) = position_of(siblings_v, curr_id) {
                if pos + 1 < siblings_v.len() {
                    cands.push(siblings_v[pos + 1]);
                }
                proof {
                    assert forall|x: usize| #[trigger] cands@.contains(x) <==> related(
                        doc,
                        comb,
                        curr_id as int,
                        x as int,
                    ) by {
                        if related(doc, comb, curr_id as int, x as int) {
                            let t = choose|t: int|
                                0 <= t && t + 1 < siblings(doc, curr_id as int).len()
                                    && #[trigger] siblings(doc, curr_id as int)[t] == curr_id
                                    && siblings(doc, curr_id as int)[t + 1] == x;
                            lemma_sorted_unique(siblings_v@, t, pos as int);
                            assert(cands@[0] == x);
                        }
                        if cands@.contains(x) {
                            assert(cands@[0] == x);
                            assert(siblings(doc, curr_id as int)[pos as int] == curr_id);
                        }
                    }
                }
            }
        },
        CssCombinator::SubsequentSibling => {
            proof {
                lemma_siblings(doc, curr_id as int);
            }
            let siblings_v = sibling_list(doc, curr_id);
            if let Some(pos) = position_of(siblings_v, curr_id) {
                let mut s = pos + 1;
                while s < siblings_v.len()
                    invariant
                        pos < s <= siblings_v@.len(),
                        cands@ == siblings_v@.subrange(pos + 1, s as int),
                    decreases siblings_v@.len() - s,
                {
                    cands.push(siblings_v[s]);
                    s += 1;
                }
                proof {
                    assert forall|x: usize| #[trigger] cands@.contains(x) <==> related(
                        doc,
                        comb,
                        curr_id as int,
                        x as int,
                    ) by {
                        if related(doc, comb, curr_id as int, x as int) {
                            let (t1, t2) = choose|t1: int, t2: int|
                                0 <= t1 < t2 < siblings(doc, curr_id as int).len()
                                    && #[trigger] siblings(doc, curr_id as int)[t1] == curr_id
                                    && #[trigger] siblings(doc, curr_id as int)[t2] == x;
                            lemma_sorted_unique(siblings_v@, t1, pos as int);
                            assert(cands@[t2 - pos - 1] == x);
                        }
                        if cands@.contains(x) {
                            let j = choose|j: int| 0 <= j < cands@.len() && cands@[j] == x;
                            assert(siblings(doc, curr_id as int)[pos as int] == curr_id);
                            assert(siblings(doc, curr_id as int)[pos + 1 + j] == x);
                        }
                    }
                }
            }
        },
    }
    cands
}

/// From the nodes matching steps `0..k`, the nodes that match step `k` through its combinator.
#[verifier::loop_isolation(false)]
fn advance_step(doc: &HtmlDocument, complex: &ComplexSelector, k: usize, current: &Vec<usize>) -> (r:
    Vec<usize>)
    requires
        doc_wf(doc),
        1 <= k < complex.steps@.len(),
        node_set(current@, doc.nodes@.len(), |x: int| chain_matches(doc, *complex, k - 1, x)),
    ensures
        node_set(r@, doc.nodes@.len(), |x: int| chain_matches(doc, *complex, k as int, x)),
    decreases *complex, 0int,
{
    let len = doc.nodes.len();
    let step = &complex.steps[k];
    proof {
        assert(decreases_to!(*complex => complex.steps@[k as int]));
    }
    let comb = match step.combinator {
        Some(c) => c,
        None => CssCombinator::Descendant,
    };
    let mut next: Vec<usize> = Vec::new();
    let mut i: usize = 0;
    while i < current.len()
        invariant
            doc_wf(doc),
            len == doc.nodes@.len(),
            1 <= k < complex.steps@.len(),
            step == complex.steps@[k as int],
            comb == comb_of(*step),
            i <= current@.len(),
            node_set(current@, len as nat, |x: int| chain_matches(doc, *complex, k - 1, x)),
            next@.no_duplicates(),
            forall|j: int| 0 <= j < next@.len() ==> #[trigger] next@[j] < len,
            forall|x: int|
                0 <= x < len ==> (#[trigger] next@.contains(x as usize) <==> (compound_matches(
                    doc,
                    x,
                    *step,
                ) && exists|j: int|
                    0 <= j < i && #[trigger] related(doc, comb, current@[j] as int, x))),
        decreases current@.len() - i,
    {
        let curr_id = current[i];
        proof {
            assert(current@[i as int] < len);
        }
        let cands = related_nodes(doc, comb, curr_id);
        let ghost next0 = next@;
        let mut c: usize = 0;
        while c < cands.len()
            invariant
                doc_wf(doc),
                len == doc.nodes@.len(),
                step == complex.steps@[k as int],
                c <= cands@.len(),
                forall|j: int| 0 <= j < cands@.len() ==> #[trigger] cands@[j] < len,
                next@.no_duplicates(),
                forall|j: int| 0 <= j < next@.len() ==> #[trigger] next@[j] < len,
                forall|x: int|
                    0 <= x < len ==> (#[trigger] next@.contains(x as usize) <==> (next0.contains(x as usize)
                        || (compound_matches(doc, x, *step) && cands@.take(c as int).contains(
                        x as usize,
                    )))),
            decreases cands@.len() - c,
        {
            let cand = cands[c];
            let ghost before = next@;
            proof {
                assert(cands@.take(c + 1) == cands@.take(c as int).push(cand));
                assert(cands@.take(c + 1)[c as int] == cand);
                assert forall|t: int| 0 <= t < c implies cands@.take(c + 1)[t] == cands@.take(c as int)[t] by {}
            }
            let m = matches_compound_selector(doc, cand, step);
            let present = vec_contains(&next, cand);
            if m && !present {
                next.push(cand);
            }
            proof {
                assert forall|x: int| 0 <= x < len implies (#[trigger] next@.contains(x as usize) <==> (
                next0.contains(x as usize) || (compound_matches(doc, x, *step)
                    && cands@.take(c + 1).contains(x as usize)))) by {
                    if next@.contains(x as usize) {
                        let j = choose|j: int| 0 <= j < next@.len() && next@[j] == x;
                        if j < before.len() {
                            assert(before[j] == x);
                            assert(before.contains(x as usize));
                            if !next0.contains(x as usize) {
                                let t = choose|t: int| 0 <= t < c && #[trigger] cands@.take(c as int)[t] == x;
                                assert(cands@.take(c + 1)[t] == x);
                            }
                        } else {
                            assert(cands@.take(c + 1)[c as int] == x);
                        }
                    }
                    if next0.contains(x as usize) {
                        assert(before.contains(x as usize));
                        let j = choose|j: int| 0 <= j < before.len() && before[j] == x;
                        assert(next@[j] == x);
                    }
                    if compound_matches(doc, x, *step) && cands@.take(c + 1).contains(x as usize) {
                        let t = choose|t: int| 0 <= t < c + 1 && #[trigger] cands@.take(c + 1)[t] == x;
                        if t < c {
                            assert(cands@.take(c as int)[t] == x);
                            assert(before.contains(x as usize));
                            let j = choose|j: int| 0 <= j < before.len() && before[j] == x;
                            assert(next@[j] == x);
                        } else {
                            assert(x == cand);
                            if present {
                                let j = choose|j: int| 0 <= j < before.len() && before[j] == x;
                                assert(next@[j] == x);
                            } else {
                                assert(next@[before.len() as int] == x);
                            }
                        }
                    }
                }
                if m && !present {
                    assert forall|a: int, bb: int| 0 <= a < bb < next@.len() implies next@[a] != next@[bb] by {
                        if bb == before.len() {
                            assert(next@[a] == before[a]);
                            assert(before.contains(before[a]));
                        } else {
                            assert(next@[a] == before[a]);
                            assert(next@[bb] == before[bb]);
                        }
                    }
                }
            }
            c += 1;
        }
        proof {
            assert(cands@.take(cands@.len() as int) == cands@);
            assert forall|x: int| 0 <= x < len implies (#[trigger] next@.contains(x as usize) <==> (compound_matches(
                doc,
                x,
                *step,
            ) && exists|j: int| 0 <= j < i + 1 && related(doc, comb, current@[j] as int, x))) by {
                if next@.contains(x as usize) && !next0.contains(x as usize) {
                    assert(cands@.contains(x as usize));
                    assert(related(doc, comb, curr_id as int, x));
                    assert(related(doc, comb, current@[i as int] as int, x));
                }
                if compound_matches(doc, x, *step) && exists|j: int| 0 <= j < i + 1 && related(doc, comb, current@[j] as int, x) {
                    let j = choose|j: int| 0 <= j < i + 1 && related(doc, comb, current@[j] as int, x);
                    if j == i {
                        assert(cands@.contains(x as usize));
                    } else {
                        assert(next0.contains(x as usize));
                    }
                }
            }
        }
        i += 1;
    }
    proof {
        assert forall|x: int| 0 <= x < len implies (next@.contains(x as usize) <==> #[trigger] chain_matches(doc, *complex, k as int, x)) by {
            assert(next@.contains(x as usize) <==> (compound_matches(doc, x, *step) && exists|j: int|
                0 <= j < current@.len() && related(doc, comb, current@[j] as int, x)));
            if next@.contains(x as usize) {
                let j = choose|j: int| 0 <= j < current@.len() && related(doc, comb, current@[j] as int, x);
                let m = current@[j] as int;
                assert(current@[j] < len);
                assert(current@.contains(m as usize));
                lemma_node_set(current@, len as nat, |y: int| chain_matches(doc, *complex, k - 1, y), m);
                assert(chain_matches(doc, *complex, k - 1, m));
            }
            if chain_matches(doc, *complex, k as int, x) {
                lemma_chain_unfold(doc, *complex, k as int, x);
                let m = choose|m: int| 0 <= m < len && chain_matches(doc, *complex, k - 1, m) && #[trigger] related(doc, comb_of(complex.steps@[k as int]), m, x);
                lemma_node_set(current@, len as nat, |y: int| chain_matches(doc, *complex, k - 1, y), m);
                let j = choose|j: int| 0 <= j < current@.len() && current@[j] == m as usize;
                assert(related(doc, comb, current@[j] as int, x));
            }
        }
    }
    next
}

} // verus!
