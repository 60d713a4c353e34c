//! CSS selector syntax tree.
use vstd::prelude::*;

verus! {

/// Unit marker for the CSS selector grammar (the parser itself is
/// `parse_css_selector_list`).
#[derive(Debug, Clone, Copy, Default)]
pub struct CssParser;

#[derive(Debug, Clone, Copy, PartialEq, Eq, Structural)]
pub enum CssCombinator {
    Descendant,
    Child,
    NextSibling,
    SubsequentSibling,
}

#[derive(Debug, Clone, Copy, PartialEq, Eq, Structural)]
pub enum CssAttrOp {
    Exact,
    Contains,
    StartsWith,
    EndsWith,
    WordMatch,
    HyphenPrefix,
    Exists,
}

#[derive(Debug, PartialEq, Eq, Clone)]
pub struct CssAttrFilter {
    pub name: String,
    pub op: CssAttrOp,
    pub value: Option<String>,
    pub case_sensitive: Option<bool>,
}

#[derive(Debug)]
pub enum CssPseudo {
    FirstChild,
    LastChild,
    OnlyChild,
    NthChild { a: isize, b: isize },
    First,
    Last,
    Contains(String),
    Not(Vec<ComplexSelector>),
    Is(Vec<ComplexSelector>),
    Where(Vec<ComplexSelector>),
}

#[derive(Debug, Default)]
pub struct ParsedCssStep {
    pub combinator: Option<CssCombinator>,
    pub tag: Option<String>,
    pub id: Option<String>,
    pub classes: Vec<String>,
    pub attrs: Vec<CssAttrFilter>,
    pub pseudos: Vec<CssPseudo>,
}

#[derive(Debug, Default)]
pub struct ComplexSelector {
    pub steps: Vec<ParsedCssStep>,
}

#[derive(Debug, Default)]
pub struct SelectorList {
    pub selectors: Vec<ComplexSelector>,
}


// ---------------------------------------------------------------------------
// Mathematical views of the syntax tree
// ---------------------------------------------------------------------------

pub enum PseudoV {
    FirstChild,
    LastChild,
    OnlyChild,
    NthChild(int, int),
    First,
    Last,
    Contains(Seq<char>),
    Not(Seq<ComplexV>),
    Is(Seq<ComplexV>),
    Where(Seq<ComplexV>),
}

pub struct AttrV {
    pub name: Seq<char>,
    pub op: CssAttrOp,
    pub value: Option<Seq<char>>,
    pub case_sensitive: Option<bool>,
}

pub struct StepV {
    pub combinator: Option<CssCombinator>,
    pub tag: Option<Seq<char>>,
    pub id: Option<Seq<char>>,
    pub classes: Seq<Seq<char>>,
    pub attrs: Seq<AttrV>,
    pub pseudos: Seq<PseudoV>,
}

pub struct ComplexV {
    pub steps: Seq<StepV>,
}

pub open spec fn opt_str_view(o: Option<String>) -> Option<Seq<char>> {
    match o {
        Some(s) => Some(s@),
        None => None,
    }
}

pub open spec fn attr_view(a: CssAttrFilter) -> AttrV {
    AttrV {
        name: a.name@,
        op: a.op,
        value: opt_str_view(a.value),
        case_sensitive: a.case_sensitive,
    }
}

pub open spec fn attrs_view(v: Seq<CssAttrFilter>) -> Seq<AttrV> {
    Seq::new(v.len(), |i: int| attr_view(v[i]))
}

pub open spec fn strings_view(v: Seq<String>) -> Seq<Seq<char>> {
    Seq::new(v.len(), |i: int| v[i]@)
}

pub open spec fn pseudo_view(p: CssPseudo) -> PseudoV
    decreases p,
{
    match p {
        CssPseudo::FirstChild => PseudoV::FirstChild,
        CssPseudo::LastChild => PseudoV::LastChild,
        CssPseudo::OnlyChild => PseudoV::OnlyChild,
        CssPseudo::NthChild { a, b } => PseudoV::NthChild(a as int, b as int),
        CssPseudo::First => PseudoV::First,
        CssPseudo::Last => PseudoV::Last,
        CssPseudo::Contains(s) => PseudoV::Contains(s@),
        CssPseudo::Not(v) => PseudoV::Not(complexes_view(v@)),
        CssPseudo::Is(v) => PseudoV::Is(complexes_view(v@)),
        CssPseudo::Where(v) => PseudoV::Where(complexes_view(v@)),
    }
}

pub open spec fn pseudos_view(s: Seq<CssPseudo>) -> Seq<PseudoV>
    decreases s,
{
    if s.len() == 0 {
        Seq::empty()
    } else {
        pseudos_view(s.subrange(0, s.len() - 1)).push(pseudo_view(s[s.len() - 1]))
    }
}

pub open spec fn step_view(st: ParsedCssStep) -> StepV
    decreases st,
{
    StepV {
        combinator: st.combinator,
        tag: opt_str_view(st.tag),
        id: opt_str_view(st.id),
        classes: strings_view(st.classes@),
        attrs: attrs_view(st.attrs@),
        pseudos: pseudos_view(st.pseudos@),
    }
}

pub open spec fn steps_view(s: Seq<ParsedCssStep>) -> Seq<StepV>
    decreases s,
{
    if s.len() == 0 {
        Seq::empty()
    } else {
        steps_view(s.subrange(0, s.len() - 1)).push(step_view(s[s.len() - 1]))
    }
}

pub open spec fn complex_view(c: ComplexSelector) -> ComplexV
    decreases c,
{
    ComplexV { steps: steps_view(c.steps@) }
}

pub open spec fn complexes_view(s: Seq<ComplexSelector>) -> Seq<ComplexV>
    decreases s,
{
    if s.len() == 0 {
        Seq::empty()
    } else {
        complexes_view(s.subrange(0, s.len() - 1)).push(complex_view(s[s.len() - 1]))
    }
}

pub proof fn lemma_pseudos_view_push(v: Seq<CssPseudo>, p: CssPseudo)
    ensures
        pseudos_view(v.push(p)) == pseudos_view(v).push(pseudo_view(p)),
{
    assert(v.push(p).subrange(0, v.len() as int) =~= v);
}

pub proof fn lemma_steps_view_push(v: Seq<ParsedCssStep>, st: ParsedCssStep)
    ensures
        steps_view(v.push(st)) == steps_view(v).push(step_view(st)),
{
    assert(v.push(st).subrange(0, v.len() as int) =~= v);
}

pub proof fn lemma_complexes_view_push(v: Seq<ComplexSelector>, c: ComplexSelector)
    ensures
        complexes_view(v.push(c)) == complexes_view(v).push(complex_view(c)),
{
    assert(v.push(c).subrange(0, v.len() as int) =~= v);
}

pub proof fn lemma_steps_view_index(v: Seq<ParsedCssStep>)
    ensures
        steps_view(v).len() == v.len(),
        forall|k: int| 0 <= k < v.len() ==> #[trigger] steps_view(v)[k] == step_view(v[k]),
    decreases v.len(),
{
    if v.len() > 0 {
        let w = v.subrange(0, v.len() - 1);
        lemma_steps_view_index(w);
        assert forall|k: int| 0 <= k < v.len() implies #[trigger] steps_view(v)[k] == step_view(
            v[k],
        ) by {
            if k < v.len() - 1 {
                assert(w[k] == v[k]);
            }
        }
    }
}

pub proof fn lemma_complexes_view_index(v: Seq<ComplexSelector>)
    ensures
        complexes_view(v).len() == v.len(),
        forall|k: int|
            0 <= k < v.len() ==> #[trigger] complexes_view(v)[k] == complex_view(v[k]),
    decreases v.len(),
{
    if v.len() > 0 {
        let w = v.subrange(0, v.len() - 1);
        lemma_complexes_view_index(w);
        assert forall|k: int| 0 <= k < v.len() implies #[trigger] complexes_view(v)[k]
            == complex_view(v[k]) by {
            if k < v.len() - 1 {
                assert(w[k] == v[k]);
            }
        }
    }
}

pub open spec fn list_view(l: SelectorList) -> Seq<ComplexV> {
    complexes_view(l.selectors@)
}

} // verus!
