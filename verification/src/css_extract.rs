//! Selecting the elements of an HTML document that a selector list matches.
use crate::css::{list_view, ComplexV, CssPseudo, ComplexSelector, ParsedCssStep, SelectorList};
use crate::css_grammar::parse_query;
use crate::css_match::{
    chain_matches, comb_of, complex_matches, compound_matches, related, lemma_logical_pseudos, match_complex_selector, node_set,
    pseudo_matches, vec_contains,
};
use crate::css_parse::{parse_css_selector_list, selector_list_outcome};
use crate::html::{doc_wf, parse_html_document, parsed_document, parsed_from, HtmlDocument};
use crate::text::{chars_of, string_from_chars, trim_chars, trim_seq};
use vstd::prelude::*;

verus! {

/// Node `n` is the subject of at least one selector of `sels`.
pub open spec fn list_matches(doc: &HtmlDocument, sels: Seq<ComplexSelector>, n: int) -> bool {
    exists|i: int| 0 <= i < sels.len() && complex_matches(doc, #[trigger] sels[i], n)
}

/// The nodes below `n` that some selector of `sels` matches, in document order.
pub open spec fn selected_upto(doc: &HtmlDocument, sels: Seq<ComplexSelector>, n: int) -> Seq<usize>
    decreases n,
{
    if n <= 0 {
        Seq::empty()
    } else if list_matches(doc, sels, n - 1) {
        selected_upto(doc, sels, n - 1).push((n - 1) as usize)
    } else {
        selected_upto(doc, sels, n - 1)
    }
}

/// The nodes of `doc` that some selector of `sels` matches, in document order.
pub open spec fn selected_nodes(doc: &HtmlDocument, sels: Seq<ComplexSelector>) -> Seq<usize> {
    selected_upto(doc, sels, doc.nodes@.len() as int)
}

/// The trimmed source text of each of the nodes `ids`.
pub open spec fn outer_texts(doc: &HtmlDocument, ids: Seq<usize>) -> Seq<Seq<char>> {
    Seq::new(ids.len(), |k: int| trim_seq(doc.nodes@[ids[k] as int].outer_html@))
}

pub open spec fn texts_of(v: Seq<String>) -> Seq<Seq<char>> {
    Seq::new(v.len(), |k: int| v[k]@)
}

/// The selection is in strictly increasing document order and holds
/// exactly the matching nodes: each matched element is reported once.
pub proof fn lemma_selected_upto(doc: &HtmlDocument, sels: Seq<ComplexSelector>, n: int)
    requires
        0 <= n <= usize::MAX + 1,
    ensures
        forall|k1: int, k2: int|
            0 <= k1 < k2 < selected_upto(doc, sels, n).len() ==> #[trigger] selected_upto(
                doc,
                sels,
                n,
            )[k1] < #[trigger] selected_upto(doc, sels, n)[k2],
        forall|k: int|
            0 <= k < selected_upto(doc, sels, n).len() ==> #[trigger] selected_upto(doc, sels, n)[k]
                < n,
        forall|x: int|
            0 <= x < n ==> (selected_upto(doc, sels, n).contains(x as usize) <==> #[trigger] list_matches(
                doc,
                sels,
                x,
            )),
    decreases n,
{
    if n > 0 {
        lemma_selected_upto(doc, sels, n - 1);
        let prev = selected_upto(doc, sels, n - 1);
        let cur = selected_upto(doc, sels, n);
        if list_matches(doc, sels, n - 1) {
            assert(cur == prev.push((n - 1) as usize));
            assert forall|k1: int, k2: int| 0 <= k1 < k2 < cur.len() implies #[trigger] cur[k1]
                < #[trigger] cur[k2] by {
                if k2 == prev.len() {
                    assert(prev[k1] < n - 1);
                } else {
                    assert(prev[k1] < prev[k2]);
                }
            }
        } else {
            assert(cur == prev);
        }
        assert forall|x: int| 0 <= x < n implies (cur.contains(x as usize) <==> #[trigger] list_matches(
            doc,
            sels,
            x,
        )) by {
            if x < n - 1 {
                if cur.contains(x as usize) {
                    let j = choose|j: int| 0 <= j < cur.len() && cur[j] == x as usize;
                    if j < prev.len() {
                        assert(prev[j] == cur[j]);
                    }
                } else if prev.contains(x as usize) {
                    let j = choose|j: int| 0 <= j < prev.len() && prev[j] == x as usize;
                    assert(cur[j] == prev[j]);
                }
            } else {
                if list_matches(doc, sels, n - 1) {
                    assert(cur[prev.len() as int] == (n - 1) as usize);
                } else if cur.contains(x as usize) {
                    let j = choose|j: int| 0 <= j < cur.len() && cur[j] == x as usize;
                    assert(prev[j] < n - 1);
                }
            }
        }
    }
}

/// The elements of `doc` matched by any selector of `list`: their source
/// text, trimmed, in document order, each once.
pub fn select_in_document(doc: &HtmlDocument, list: &SelectorList) -> (r: Vec<String>)
    requires
        doc_wf(doc),
    ensures
        texts_of(r@) == outer_texts(doc, selected_nodes(doc, list.selectors@)),
{
    let sels = &list.selectors;
    let mut per: Vec<Vec<usize>> = Vec::new();
    let mut i: usize = 0;
    while i < sels.len()
        invariant
            doc_wf(doc),
            i <= sels@.len(),
            per@.len() == i,
            forall|j: int|
                0 <= j < i ==> node_set(
                    #[trigger] per@[j]@,
                    doc.nodes@.len(),
                    |x: int| complex_matches(doc, sels@[j], x),
                ),
        decreases sels@.len() - i,
    {
        let m = match_complex_selector(doc, &sels[i]);
        per.push(m);
        i += 1;
    }
    let len = doc.nodes.len();
    let mut out: Vec<String> = Vec::new();
    let mut id: usize = 0;
    while id < len
        invariant
            doc_wf(doc),
            len == doc.nodes@.len(),
            id <= len,
            per@.len() == sels@.len(),
            forall|j: int|
                0 <= j < sels@.len() ==> node_set(
                    #[trigger] per@[j]@,
                    doc.nodes@.len(),
                    |x: int| complex_matches(doc, sels@[j], x),
                ),
            texts_of(out@) == outer_texts(doc, selected_upto(doc, sels@, id as int)),
        decreases len - id,
    {
        let mut found = false;
        let mut j: usize = 0;
        while j < per.len() && !found
            invariant
                j <= per@.len(),
                per@.len() == sels@.len(),
                id < len == doc.nodes@.len(),
                forall|j: int|
                    0 <= j < sels@.len() ==> node_set(
                        #[trigger] per@[j]@,
                        doc.nodes@.len(),
                        |x: int| complex_matches(doc, sels@[j], x),
                    ),
                found ==> list_matches(doc, sels@, id as int),
                !found ==> forall|t: int| 0 <= t < j ==> !complex_matches(doc, #[trigger] sels@[t], id as int),
            decreases per@.len() - j,
        {
            proof {
                let p = |x: int| complex_matches(doc, sels@[j as int], x);
                assert(node_set(per@[j as int]@, doc.nodes@.len(), p));
                assert(per@[j as int]@.contains(id) <==> p(id as int));
            }
            if vec_contains(&per[j], id) {
                found = true;
            }
            j += 1;
        }
        let ghost prev = out@;
        if found {
            proof {
                assert(selected_upto(doc, sels@, id + 1) == selected_upto(doc, sels@, id as int).push(id));
            }
            let text = trim_chars(chars_of(doc.nodes[id].outer_html.as_str()).as_slice());
            out.push(string_from_chars(text.as_slice()));
            proof {
                let ids = selected_upto(doc, sels@, id as int);
                assert(outer_texts(doc, ids.push(id)) =~= outer_texts(doc, ids).push(trim_seq(doc.nodes@[id as int].outer_html@)));
                assert(texts_of(out@) =~= texts_of(prev).push(out@[prev.len() as int]@));
            }
        } else {
            proof {
                assert(!list_matches(doc, sels@, id as int));
                assert(selected_upto(doc, sels@, id + 1) == selected_upto(doc, sels@, id as int));
            }
        }
        id += 1;
    }
    out
}

/// Selections by lists that split the matches of a third between them add
/// up to its selection.
pub proof fn lemma_selection_split(
    doc: &HtmlDocument,
    a: Seq<ComplexSelector>,
    b: Seq<ComplexSelector>,
    c: Seq<ComplexSelector>,
    n: int,
)
    requires
        forall|m: int|
            0 <= m < n ==> (#[trigger] list_matches(doc, c, m) == (list_matches(doc, a, m) || list_matches(doc, b, m)))
                && !(list_matches(doc, a, m) && list_matches(doc, b, m)),
    ensures
        selected_upto(doc, a, n).len() + selected_upto(doc, b, n).len() == selected_upto(doc, c, n).len(),
    decreases n,
{
    if n > 0 {
        lemma_selection_split(doc, a, b, c, n - 1);
        assert(list_matches(doc, c, n - 1) == (list_matches(doc, a, n - 1) || list_matches(doc, b, n - 1)));
    }
}

/// `y` is the complex selector `x` with its last compound selector narrowed
/// by the pseudo-class `p`: the same steps, the last one with `p` appended
/// to its pseudo-classes.
pub open spec fn narrowed_last(x: ComplexSelector, y: ComplexSelector, p: CssPseudo) -> bool {
    &&& x.steps@.len() > 0
    &&& y.steps@.len() == x.steps@.len()
    &&& forall|k: int| 0 <= k < x.steps@.len() - 1 ==> #[trigger] y.steps@[k] == x.steps@[k]
    &&& same_but_pseudos(x.steps@.last(), y.steps@.last())
    &&& y.steps@.last().pseudos@ == x.steps@.last().pseudos@.push(p)
}

/// Two complex selectors that share their steps up to `j` match the same
/// nodes at every step up to `j`.
proof fn lemma_chain_prefix(doc: &HtmlDocument, c1: ComplexSelector, c2: ComplexSelector, j: int, k: int)
    requires
        0 <= k <= j < c1.steps@.len(),
        j < c2.steps@.len(),
        forall|i: int| 0 <= i <= j ==> #[trigger] c1.steps@[i] == c2.steps@[i],
    ensures
        forall|m: int| chain_matches(doc, c1, k, m) == #[trigger] chain_matches(doc, c2, k, m),
    decreases k,
{
    if k > 0 {
        lemma_chain_prefix(doc, c1, c2, j, k - 1);
    }
    assert(c1.steps@[k] == c2.steps@[k]);
    assert forall|m: int| chain_matches(doc, c1, k, m) == #[trigger] chain_matches(doc, c2, k, m) by {
        if k > 0 && 0 <= m < doc.nodes@.len() {
            if chain_matches(doc, c1, k, m) {
                let w = choose|w: int|
                    #![trigger related(doc, comb_of(c1.steps@[k]), w, m)]
                    0 <= w < doc.nodes@.len() && chain_matches(doc, c1, k - 1, w) && related(
                        doc,
                        comb_of(c1.steps@[k]),
                        w,
                        m,
                    );
                assert(chain_matches(doc, c2, k - 1, w));
            }
            if chain_matches(doc, c2, k, m) {
                let w = choose|w: int|
                    #![trigger related(doc, comb_of(c2.steps@[k]), w, m)]
                    0 <= w < doc.nodes@.len() && chain_matches(doc, c2, k - 1, w) && related(
                        doc,
                        comb_of(c2.steps@[k]),
                        w,
                        m,
                    );
                assert(chain_matches(doc, c1, k - 1, w));
            }
        }
    }
}

/// A compound selector with `p` appended to its pseudo-classes matches a
/// node exactly when the selector matches it and so does `p`.
proof fn lemma_narrowed_compound(doc: &HtmlDocument, m: int, c: ParsedCssStep, a: ParsedCssStep, p: CssPseudo)
    requires
        same_but_pseudos(c, a),
        a.pseudos@ == c.pseudos@.push(p),
    ensures
        compound_matches(doc, m, a) == (compound_matches(doc, m, c) && pseudo_matches(doc, m, p)),
{
    if compound_matches(doc, m, c) && pseudo_matches(doc, m, p) {
        assert forall|k: int| 0 <= k < a.pseudos@.len() implies pseudo_matches(doc, m, #[trigger] a.pseudos@[k]) by {
            if k < c.pseudos@.len() {
                assert(a.pseudos@[k] == c.pseudos@[k]);
            }
        }
    }
    if compound_matches(doc, m, a) {
        assert(pseudo_matches(doc, m, a.pseudos@[c.pseudos@.len() as int]));
        assert forall|k: int| 0 <= k < c.pseudos@.len() implies pseudo_matches(doc, m, #[trigger] c.pseudos@[k]) by {
            assert(a.pseudos@[k] == c.pseudos@[k]);
        }
    }
}

/// A complex selector whose last step is narrowed by `p` matches a node
/// exactly when the selector matches it and so does `p`.
pub proof fn lemma_narrowed_complex(doc: &HtmlDocument, x: ComplexSelector, y: ComplexSelector, p: CssPseudo, m: int)
    requires
        narrowed_last(x, y, p),
    ensures
        complex_matches(doc, y, m) == (complex_matches(doc, x, m) && pseudo_matches(doc, m, p)),
{
    let last = x.steps@.len() - 1;
    lemma_narrowed_compound(doc, m, x.steps@[last], y.steps@[last], p);
    if 0 <= m < doc.nodes@.len() && last > 0 {
        assert forall|i: int| 0 <= i <= last - 1 implies #[trigger] x.steps@[i] == y.steps@[i] by {
            assert(y.steps@[i] == x.steps@[i]);
        }
        lemma_chain_prefix(doc, x, y, last - 1, last - 1);
        assert(comb_of(x.steps@[last]) == comb_of(y.steps@[last]));
        if chain_matches(doc, x, last, m) {
            let w = choose|w: int|
                #![trigger related(doc, comb_of(x.steps@[last]), w, m)]
                0 <= w < doc.nodes@.len() && chain_matches(doc, x, last - 1, w) && related(
                    doc,
                    comb_of(x.steps@[last]),
                    w,
                    m,
                );
            assert(chain_matches(doc, y, last - 1, w));
        }
        if chain_matches(doc, y, last, m) {
            let w = choose|w: int|
                #![trigger related(doc, comb_of(y.steps@[last]), w, m)]
                0 <= w < doc.nodes@.len() && chain_matches(doc, y, last - 1, w) && related(
                    doc,
                    comb_of(y.steps@[last]),
                    w,
                    m,
                );
            assert(chain_matches(doc, x, last - 1, w));
        }
    }
}

/// A one-selector list matches a node when its selector does.
proof fn lemma_single_list(doc: &HtmlDocument, x: ComplexSelector, m: int)
    ensures
        list_matches(doc, seq![x], m) == complex_matches(doc, x, m),
{
    if list_matches(doc, seq![x], m) {
        let i = choose|i: int| 0 <= i < 1 && complex_matches(doc, #[trigger] seq![x][i], m);
        assert(seq![x][i] == x);
    }
    if complex_matches(doc, x, m) {
        assert(complex_matches(doc, seq![x][0], m));
    }
}

/// A complex selector `x`, and `x` with its last step narrowed by
/// `:not(v)` and by `:is(v)`: every element that `x` matches is matched by
/// exactly one of the narrowed selectors and they match nothing else, so
/// their selections are disjoint, together hold that of `x`, and their
/// sizes add up to its size.
pub proof fn lemma_not_is_split(
    doc: &HtmlDocument,
    x: ComplexSelector,
    x_not: ComplexSelector,
    x_is: ComplexSelector,
    v: Vec<ComplexSelector>,
)
    requires
        narrowed_last(x, x_not, CssPseudo::Not(v)),
        narrowed_last(x, x_is, CssPseudo::Is(v)),
    ensures
        selected_nodes(doc, seq![x_not]).len() + selected_nodes(doc, seq![x_is]).len()
            == selected_nodes(doc, seq![x]).len(),
        forall|id: usize|
            #![trigger selected_nodes(doc, seq![x]).contains(id)]
            selected_nodes(doc, seq![x]).contains(id) <==> (selected_nodes(doc, seq![x_not]).contains(id)
                || selected_nodes(doc, seq![x_is]).contains(id)),
        forall|id: usize|
            #![trigger selected_nodes(doc, seq![x_not]).contains(id)]
            !(selected_nodes(doc, seq![x_not]).contains(id) && selected_nodes(doc, seq![x_is]).contains(id)),
{
    let n = doc.nodes@.len() as int;
    assert(n <= usize::MAX) by {
        assert(doc.nodes@.len() == doc.nodes.len());
    }
    assert forall|m: int| 0 <= m < n implies (#[trigger] list_matches(doc, seq![x], m) == (list_matches(
        doc,
        seq![x_not],
        m,
    ) || list_matches(doc, seq![x_is], m))) && !(list_matches(doc, seq![x_not], m) && list_matches(
        doc,
        seq![x_is],
        m,
    )) by {
        lemma_logical_pseudos(doc, m, v);
        lemma_single_list(doc, x, m);
        lemma_single_list(doc, x_not, m);
        lemma_single_list(doc, x_is, m);
        lemma_narrowed_complex(doc, x, x_not, CssPseudo::Not(v), m);
        lemma_narrowed_complex(doc, x, x_is, CssPseudo::Is(v), m);
    }
    lemma_selection_split(doc, seq![x_not], seq![x_is], seq![x], n);
    lemma_selected_upto(doc, seq![x], n);
    lemma_selected_upto(doc, seq![x_not], n);
    lemma_selected_upto(doc, seq![x_is], n);
    assert forall|id: usize| #![trigger selected_nodes(doc, seq![x]).contains(id)]
        selected_nodes(doc, seq![x]).contains(id) <==> (selected_nodes(doc, seq![x_not]).contains(id)
            || selected_nodes(doc, seq![x_is]).contains(id)) by {
        if id < n {
            assert(list_matches(doc, seq![x], id as int) == (list_matches(doc, seq![x_not], id as int)
                || list_matches(doc, seq![x_is], id as int)));
        } else {
            lemma_selected_bound(doc, seq![x], n, id);
            lemma_selected_bound(doc, seq![x_not], n, id);
            lemma_selected_bound(doc, seq![x_is], n, id);
        }
    }
    assert forall|id: usize| #![trigger selected_nodes(doc, seq![x_not]).contains(id)]
        !(selected_nodes(doc, seq![x_not]).contains(id) && selected_nodes(doc, seq![x_is]).contains(id)) by {
        if id < n {
            assert(list_matches(doc, seq![x], id as int) == (list_matches(doc, seq![x_not], id as int)
                || list_matches(doc, seq![x_is], id as int)));
        } else {
            lemma_selected_bound(doc, seq![x_not], n, id);
        }
    }
}

/// Nothing at or past `n` is selected below `n`.
proof fn lemma_selected_bound(doc: &HtmlDocument, sels: Seq<ComplexSelector>, n: int, id: usize)
    requires
        0 <= n <= usize::MAX + 1,
        id >= n,
    ensures
        !selected_upto(doc, sels, n).contains(id),
{
    lemma_selected_upto(doc, sels, n);
    if selected_upto(doc, sels, n).contains(id) {
        let j = choose|j: int| 0 <= j < selected_upto(doc, sels, n).len() && selected_upto(doc, sels, n)[j] == id;
        assert(selected_upto(doc, sels, n)[j] < n);
    }
}

/// The two steps differ in their pseudo-classes alone.
pub open spec fn same_but_pseudos(s: ParsedCssStep, t: ParsedCssStep) -> bool {
    &&& s.combinator == t.combinator
    &&& s.tag == t.tag
    &&& s.id == t.id
    &&& s.classes@ == t.classes@
    &&& s.attrs@ == t.attrs@
}

/// `texts` is what selecting `selector` in the document parsed from `html`
/// (`parsed_document`, which `lemma_parsed_document_unique` shows to be
/// one document) gives.
pub open spec fn css_result(html: Seq<char>, selector: Seq<char>, texts: Seq<Seq<char>>) -> bool {
    exists|doc: HtmlDocument, list: SelectorList|
        #![trigger parsed_document(&doc, html), list_view(list)]
        parsed_document(&doc, html) && parse_query(selector) == Some(list_view(list)) && texts
            == outer_texts(&doc, selected_nodes(&doc, list.selectors@))
}

/// The elements of `html` that `selector` matches (see `select_in_document`);
/// fails exactly when `selector` does not parse, with the selector in the
/// message.
pub fn extract_css_selector(html: &str, selector: &str) -> (r: Result<Vec<String>, String>)
    ensures
        match r {
            Ok(v) => selector_list_outcome(selector@) is Ok && css_result(html@, selector@, texts_of(v@)),
            Err(e) => selector_list_outcome(selector@) == Err::<Seq<ComplexV>, Seq<char>>(e@),
        },
{
    let list = match parse_css_selector_list(selector) {
        Ok(l) => l,
        Err(e) => return Err(e),
    };
    let doc = parse_html_document(html);
    let v = select_in_document(&doc, &list);
    proof {
        assert(parsed_document(&doc, html@) && list_view(list) == list_view(list));
    }
    Ok(v)
}

} // verus!
