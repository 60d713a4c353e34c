//! A forgiving HTML tokenizer that builds an element tree, and the
//! element-level queries the CSS engine needs.
use crate::text::{
    ascii_lower, any_word, chars_eq, chars_of, eq_ignore_ascii_case, eq_ignore_case, has_word, is_alphanumeric,
    is_whitespace, is_ws, lower_seq, lowercase_chars, string_from_chars, subrange_chars, to_ascii_lower,
    unicode_alphanumeric,
};
use vstd::prelude::*;

verus! {

#[derive(Debug, Clone)]
pub struct HtmlElement {
    pub id: usize,
    pub parent: Option<usize>,
    pub children: Vec<usize>,
    pub tag: String,
    pub attributes: Vec<(String, String)>,
    pub text: String,
    pub outer_html: String,
}

#[derive(Debug, Default)]
pub struct HtmlDocument {
    pub nodes: Vec<HtmlElement>,
    pub root_children: Vec<usize>,
}

pub const MAX_ELEMENTS: usize = 50000;

pub const MAX_DEPTH: usize = 512;

// ---------------------------------------------------------------------------
// Attribute lookup
// ---------------------------------------------------------------------------

/// The value of the first attribute whose name equals `name` ignoring ASCII case.
pub open spec fn attr_lookup(attrs: Seq<(String, String)>, name: Seq<char>) -> Option<Seq<char>>
    decreases attrs.len(),
{
    if attrs.len() == 0 {
        None
    } else if eq_ignore_case(attrs[0].0@, name) {
        Some(attrs[0].1@)
    } else {
        attr_lookup(attrs.drop_first(), name)
    }
}

/// The element's `class` attribute lists `class_name` among its words.
pub open spec fn element_has_class(el: HtmlElement, class_name: Seq<char>) -> bool {
    match attr_lookup(el.attributes@, "class"@) {
        Some(v) => has_word(v, class_name),
        None => false,
    }
}

impl HtmlElement {
    pub fn get_attr(&self, name: &str) -> (r: Option<&str>)
        ensures
            match r {
                Some(v) => attr_lookup(self.attributes@, name@) == Some(v@),
                None => attr_lookup(self.attributes@, name@) is None,
            },
    {
        let name_chars = chars_of(name);
        let mut i: usize = 0;
        assert(self.attributes@.skip(0) =~= self.attributes@);
        while i < self.attributes.len()
            invariant
                i <= self.attributes.len(),
                name_chars@ == name@,
                attr_lookup(self.attributes@, name@) == attr_lookup(
                    self.attributes@.skip(i as int),
                    name@,
                ),
            decreases self.attributes.len() - i,
        {
            let key = chars_of(self.attributes[i].0.as_str());
            assert(self.attributes@.skip(i as int)[0] == self.attributes@[i as int]);
            if eq_ignore_ascii_case(&key, &name_chars) {
                return Some(self.attributes[i].1.as_str());
            }
            assert(self.attributes@.skip(i as int).drop_first() =~= self.attributes@.skip(i + 1));
            i += 1;
        }
        None
    }

    pub fn has_class(&self, class_name: &str) -> (r: bool)
        ensures
            r == element_has_class(*self, class_name@),
    {
        match self.get_attr("class") {
            Some(cls) => {
                let words = chars_of(cls);
                let wanted = chars_of(class_name);
                any_word(&words, &wanted, false)
            },
            None => false,
        }
    }
}

// ---------------------------------------------------------------------------
// Document well-formedness
// ---------------------------------------------------------------------------

/// Parent links, child lists and the root list describe one forest whose
/// children always come after their parent, in increasing id order.
pub open spec fn forest_ok(
    parents: Seq<Option<usize>>,
    children: Seq<Seq<usize>>,
    roots: Seq<usize>,
) -> bool {
    let n = parents.len();
    &&& children.len() == n
    &&& forall|i: int|
        0 <= i < n ==> match #[trigger] parents[i] {
            Some(p) => p < i && children[p as int].contains(i as usize),
            None => roots.contains(i as usize),
        }
    &&& forall|i: int, k: int|
        0 <= i < n && 0 <= k < children[i].len() ==> i < #[trigger] children[i][k] < n
            && parents[children[i][k] as int] == Some(i as usize)
    &&& forall|i: int, k1: int, k2: int|
        0 <= i < n && 0 <= k1 < k2 < children[i].len() ==> #[trigger] children[i][k1]
            < #[trigger] children[i][k2]
    &&& forall|k: int|
        0 <= k < roots.len() ==> #[trigger] roots[k] < n && parents[roots[k] as int] is None
    &&& forall|k1: int, k2: int|
        0 <= k1 < k2 < roots.len() ==> #[trigger] roots[k1] < #[trigger] roots[k2]
}

pub open spec fn doc_parents(doc: &HtmlDocument) -> Seq<Option<usize>> {
    doc.nodes@.map_values(|e: HtmlElement| e.parent)
}

pub open spec fn doc_children(doc: &HtmlDocument) -> Seq<Seq<usize>> {
    doc.nodes@.map_values(|e: HtmlElement| e.children@)
}

/// Every node's `id` is its index and the links form a forest.
pub open spec fn doc_wf(doc: &HtmlDocument) -> bool {
    &&& doc.nodes@.len() <= usize::MAX
    &&& forall|i: int| 0 <= i < doc.nodes@.len() ==> #[trigger] doc.nodes@[i].id == i
    &&& forall_ok_doc(doc)
}

pub open spec fn forall_ok_doc(doc: &HtmlDocument) -> bool {
    forest_ok(doc_parents(doc), doc_children(doc), doc.root_children@)
}

/// Tag characters: Unicode alphanumerics and `-`, `_`, `:`.
pub open spec fn tag_char(c: char) -> bool {
    unicode_alphanumeric(c) || c == '-' || c == '_' || c == ':'
}

/// The element starts with `<` at `start` followed by its tag name, and its
/// outer HTML is the input from `start` to `end`.
pub open spec fn source_element(src: Seq<char>, start: int, end: int, tag: Seq<char>) -> bool {
    &&& 0 <= start
    &&& start + 1 + tag.len() <= end <= src.len()
    &&& src[start] == '<'
    &&& tag.len() > 0
    &&& tag == lower_seq(src.subrange(start + 1, start + 1 + tag.len()))
    &&& forall|k: int| 0 <= k < tag.len() ==> tag_char(#[trigger] src[start + 1 + k])
}

pub open spec fn void_tag(t: Seq<char>) -> bool {
    ||| t == "area"@
    ||| t == "base"@
    ||| t == "br"@
    ||| t == "col"@
    ||| t == "embed"@
    ||| t == "hr"@
    ||| t == "img"@
    ||| t == "input"@
    ||| t == "link"@
    ||| t == "meta"@
    ||| t == "param"@
    ||| t == "source"@
    ||| t == "track"@
    ||| t == "wbr"@
}

pub open spec fn raw_text_tag(t: Seq<char>) -> bool {
    t == "script"@ || t == "style"@
}

/// The element's outer HTML is the input slice that starts with its tag.
pub open spec fn element_from(src: Seq<char>, el: HtmlElement) -> bool {
    exists|start: int, end: int|
        source_element(src, start, end, el.tag@) && el.outer_html@ == src.subrange(start, end)
}

/// What the tokenizer guarantees of the document it builds from `src`.
pub open spec fn parsed_from(doc: &HtmlDocument, src: Seq<char>) -> bool {
    &&& doc_wf(doc)
    &&& doc.nodes@.len() <= MAX_ELEMENTS
    &&& forall|i: int| 0 <= i < doc.nodes@.len() ==> element_from(src, #[trigger] doc.nodes@[i])
    &&& forall|i: int|
        0 <= i < doc.nodes@.len() && (void_tag(doc.nodes@[i].tag@) || raw_text_tag(
            doc.nodes@[i].tag@,
        )) ==> (#[trigger] doc.nodes@[i]).children@.len() == 0
}

// ---------------------------------------------------------------------------
// Where the tokenizer finds elements
// ---------------------------------------------------------------------------

/// Which characters end a run the tokenizer scans over.
pub enum Stop {
    Gt,
    Lt,
    NotTag,
    NotWs,
    AttrName,
    Quote(char),
    Unquoted,
}

pub open spec fn stops(k: Stop, c: char) -> bool {
    match k {
        Stop::Gt => c == '>',
        Stop::Lt => c == '<',
        Stop::NotTag => !tag_char(c),
        Stop::NotWs => !is_ws(c),
        Stop::AttrName => is_ws(c) || c == '=' || c == '>' || c == '/',
        Stop::Quote(q) => c == q,
        Stop::Unquoted => is_ws(c) || c == '>',
    }
}

/// The first position at or after `p` whose character stops a run of kind
/// `k` (the end of `s` when none does).
pub open spec fn first_stop(s: Seq<char>, p: int, k: Stop) -> int
    decreases s.len() - p,
{
    if p < 0 || p >= s.len() || stops(k, s[p]) {
        p
    } else {
        first_stop(s, p + 1, k)
    }
}

pub proof fn lemma_first_stop(s: Seq<char>, p: int, q: int, k: Stop)
    requires
        0 <= p <= q <= s.len(),
        forall|j: int| p <= j < q ==> !stops(k, #[trigger] s[j]),
        q == s.len() || stops(k, s[q]),
    ensures
        first_stop(s, p, k) == q,
    decreases q - p,
{
    if p < q {
        lemma_first_stop(s, p + 1, q, k);
    }
}

pub proof fn lemma_first_stop_range(s: Seq<char>, p: int, k: Stop)
    requires
        0 <= p <= s.len(),
    ensures
        p <= first_stop(s, p, k) <= s.len(),
    decreases s.len() - p,
{
    if p < s.len() && !stops(k, s[p]) {
        lemma_first_stop_range(s, p + 1, k);
    }
}

/// Where a comment whose body starts at `p` ends: after its `-->`, or
/// where fewer than three characters are left.
pub open spec fn comment_end(s: Seq<char>, p: int) -> int
    decreases s.len() - p,
{
    if 0 <= p && s.len() - p > 2 {
        if s[p] == '-' && s[p + 1] == '-' && s[p + 2] == '>' {
            p + 3
        } else {
            comment_end(s, p + 1)
        }
    } else {
        p
    }
}

pub proof fn lemma_comment_end_range(s: Seq<char>, p: int)
    requires
        0 <= p <= s.len(),
    ensures
        p <= comment_end(s, p) <= s.len(),
    decreases s.len() - p,
{
    if s.len() - p > 2 && !(s[p] == '-' && s[p + 1] == '-' && s[p + 2] == '>') {
        lemma_comment_end_range(s, p + 1);
    }
}

/// The position after the next `>` at or after `p` (the end of `s` when
/// there is none).
pub open spec fn arrow_end(s: Seq<char>, p: int) -> int {
    let q = first_stop(s, p, Stop::Gt);
    if q < s.len() {
        q + 1
    } else {
        q
    }
}

pub proof fn lemma_arrow_end_range(s: Seq<char>, p: int)
    requires
        0 <= p <= s.len(),
    ensures
        p <= arrow_end(s, p) <= s.len(),
{
    lemma_first_stop_range(s, p, Stop::Gt);
}

/// Where an attribute whose name ends at `n` ends: after its `=` and its
/// quoted or unquoted value, if it has one.
pub open spec fn after_attr(s: Seq<char>, n: int) -> int {
    let w = first_stop(s, n, Stop::NotWs);
    if w < s.len() && s[w] == '=' {
        let v = first_stop(s, w + 1, Stop::NotWs);
        if v < s.len() && (s[v] == '"' || s[v] == '\'') {
            let e = first_stop(s, v + 1, Stop::Quote(s[v]));
            if e < s.len() {
                e + 1
            } else {
                e
            }
        } else {
            first_stop(s, v, Stop::Unquoted)
        }
    } else {
        w
    }
}

pub proof fn lemma_after_attr_range(s: Seq<char>, n: int)
    requires
        0 <= n <= s.len(),
    ensures
        n <= after_attr(s, n) <= s.len(),
{
    let w = first_stop(s, n, Stop::NotWs);
    lemma_first_stop_range(s, n, Stop::NotWs);
    if w < s.len() && s[w] == '=' {
        let v = first_stop(s, w + 1, Stop::NotWs);
        lemma_first_stop_range(s, w + 1, Stop::NotWs);
        if v < s.len() && (s[v] == '"' || s[v] == '\'') {
            lemma_first_stop_range(s, v + 1, Stop::Quote(s[v]));
        } else {
            lemma_first_stop_range(s, v, Stop::Unquoted);
        }
    }
}

/// Where the attributes of an open tag end, from `p`, and whether the tag
/// closes itself with `/>`.
pub open spec fn attrs_end(s: Seq<char>, p: int) -> (int, bool)
    decreases s.len() - p,
{
    if p < 0 || p >= s.len() || s[p] == '>' {
        (p, false)
    } else if s[p] == '/' && p + 1 < s.len() && s[p + 1] == '>' {
        (p + 2, true)
    } else if is_ws(s[p]) {
        attrs_end(s, p + 1)
    } else {
        let n = first_stop(s, p, Stop::AttrName);
        if n <= p {
            attrs_end(s, p + 1)
        } else {
            proof {
                lemma_first_stop_range(s, p, Stop::AttrName);
                lemma_after_attr_range(s, n);
            }
            attrs_end(s, after_attr(s, n))
        }
    }
}

pub proof fn lemma_attrs_end_range(s: Seq<char>, p: int)
    requires
        0 <= p <= s.len(),
    ensures
        p <= attrs_end(s, p).0 <= s.len(),
    decreases s.len() - p,
{
    if p >= s.len() || s[p] == '>' {
    } else if s[p] == '/' && p + 1 < s.len() && s[p + 1] == '>' {
    } else if is_ws(s[p]) {
        lemma_attrs_end_range(s, p + 1);
    } else {
        let n = first_stop(s, p, Stop::AttrName);
        lemma_first_stop_range(s, p, Stop::AttrName);
        if n <= p {
            lemma_attrs_end_range(s, p + 1);
        } else {
            lemma_after_attr_range(s, n);
            lemma_attrs_end_range(s, after_attr(s, n));
        }
    }
}

/// The value of an attribute whose name ends at `n`: its quoted or unquoted
/// value after `=`, empty when it has none.
pub open spec fn attr_value(s: Seq<char>, n: int) -> Seq<char> {
    let w = first_stop(s, n, Stop::NotWs);
    if w < s.len() && s[w] == '=' {
        let v = first_stop(s, w + 1, Stop::NotWs);
        if v < s.len() && (s[v] == '"' || s[v] == '\'') {
            s.subrange(v + 1, first_stop(s, v + 1, Stop::Quote(s[v])))
        } else {
            s.subrange(v, first_stop(s, v, Stop::Unquoted))
        }
    } else {
        Seq::empty()
    }
}

/// The attributes (name and value, in order) of an open tag read from `p`
/// (see `attrs_end`).
pub open spec fn attrs_list(s: Seq<char>, p: int) -> Seq<(Seq<char>, Seq<char>)>
    decreases s.len() - p,
{
    if p < 0 || p >= s.len() || s[p] == '>' {
        Seq::empty()
    } else if s[p] == '/' && p + 1 < s.len() && s[p + 1] == '>' {
        Seq::empty()
    } else if is_ws(s[p]) {
        attrs_list(s, p + 1)
    } else {
        let n = first_stop(s, p, Stop::AttrName);
        if n <= p {
            attrs_list(s, p + 1)
        } else {
            proof {
                lemma_first_stop_range(s, p, Stop::AttrName);
                lemma_after_attr_range(s, n);
            }
            seq![(s.subrange(p, n), attr_value(s, n))] + attrs_list(s, after_attr(s, n))
        }
    }
}

pub open spec fn attrs_view(v: Seq<(String, String)>) -> Seq<(Seq<char>, Seq<char>)> {
    Seq::new(v.len(), |k: int| (v[k].0@, v[k].1@))
}

/// `close` occurs at `p`, ignoring ASCII case.
pub open spec fn close_at(s: Seq<char>, p: int, close: Seq<char>) -> bool {
    forall|j: int| 0 <= j < close.len() ==> ascii_lower(#[trigger] s[p + j]) == ascii_lower(close[j])
}

/// Where the raw text of a `script` or `style` element that starts at `p`
/// ends: after its `close` tag, or where too few characters are left for it.
pub open spec fn raw_end(s: Seq<char>, p: int, close: Seq<char>) -> int
    decreases s.len() - p,
{
    if 0 < close.len() <= s.len() && 0 <= p <= s.len() - close.len() {
        if close_at(s, p, close) {
            p + close.len()
        } else {
            raw_end(s, p + 1, close)
        }
    } else {
        p
    }
}

pub proof fn lemma_raw_end_range(s: Seq<char>, p: int, close: Seq<char>)
    requires
        0 <= p <= s.len(),
    ensures
        p <= raw_end(s, p, close) <= s.len(),
    decreases s.len() - p,
{
    if 0 < close.len() <= s.len() && 0 <= p <= s.len() - close.len() && !close_at(s, p, close) {
        lemma_raw_end_range(s, p + 1, close);
    }
}

/// The tag name of an open tag at `p`, in lower case.
pub open spec fn tag_at(s: Seq<char>, p: int) -> Seq<char> {
    lower_seq(s.subrange(p + 1, first_stop(s, p + 1, Stop::NotTag)))
}

pub open spec fn comment_at(s: Seq<char>, p: int) -> bool {
    s.len() - (p + 1) > 2 && s[p + 1] == '!' && s[p + 2] == '-' && s[p + 3] == '-'
}

/// An element starts at `p`: `<` and a tag name, not a comment, doctype or
/// close tag.
pub open spec fn opens_at(s: Seq<char>, p: int) -> bool {
    &&& s[p] == '<'
    &&& !comment_at(s, p)
    &&& !(p + 1 < s.len() && s[p + 1] == '!')
    &&& !(p + 1 < s.len() && s[p + 1] == '/')
    &&& first_stop(s, p + 1, Stop::NotTag) > p + 1
}

/// Where the open tag at `p` ends (after its `>`).
pub open spec fn open_tag_end(s: Seq<char>, p: int) -> int {
    let e = attrs_end(s, first_stop(s, p + 1, Stop::NotTag)).0;
    if e < s.len() && s[e] == '>' {
        e + 1
    } else {
        e
    }
}

/// Where the tokenizer goes on after the construct at `p`: a comment, a
/// doctype, a close tag, an open tag (with the raw text of a `script` or
/// `style` element that neither is void nor closes itself), or a run of
/// text.
pub open spec fn step_next(s: Seq<char>, p: int) -> int {
    if s[p] == '<' {
        if comment_at(s, p) {
            comment_end(s, p + 4)
        } else if p + 1 < s.len() && s[p + 1] == '!' {
            arrow_end(s, p + 1)
        } else if p + 1 < s.len() && s[p + 1] == '/' {
            arrow_end(s, first_stop(s, p + 2, Stop::NotTag))
        } else if first_stop(s, p + 1, Stop::NotTag) <= p + 1 {
            p + 1
        } else {
            let tag = tag_at(s, p);
            let q = open_tag_end(s, p);
            if void_tag(tag) || attrs_end(s, first_stop(s, p + 1, Stop::NotTag)).1 {
                q
            } else if raw_text_tag(tag) {
                raw_end(s, q, seq!['<', '/'] + tag + seq!['>'])
            } else {
                q
            }
        }
    } else {
        first_stop(s, p, Stop::Lt)
    }
}

pub proof fn lemma_step_next_range(s: Seq<char>, p: int)
    requires
        0 <= p < s.len(),
    ensures
        p < step_next(s, p) <= s.len(),
{
    if s[p] == '<' {
        if comment_at(s, p) {
            lemma_comment_end_range(s, p + 4);
        } else if p + 1 < s.len() && s[p + 1] == '!' {
            lemma_arrow_end_range(s, p + 1);
        } else if p + 1 < s.len() && s[p + 1] == '/' {
            lemma_first_stop_range(s, p + 2, Stop::NotTag);
            lemma_arrow_end_range(s, first_stop(s, p + 2, Stop::NotTag));
        } else {
            let t = first_stop(s, p + 1, Stop::NotTag);
            lemma_first_stop_range(s, p + 1, Stop::NotTag);
            if t > p + 1 {
                lemma_attrs_end_range(s, t);
                let q = open_tag_end(s, p);
                lemma_raw_end_range(s, q, seq!['<', '/'] + tag_at(s, p) + seq!['>']);
            }
        }
    } else {
        assert(first_stop(s, p, Stop::Lt) == first_stop(s, p + 1, Stop::Lt));
        lemma_first_stop_range(s, p + 1, Stop::Lt);
    }
}

/// The positions, from `p` on, at which the tokenizer finds elements, in
/// order.
pub open spec fn element_starts(s: Seq<char>, p: int) -> Seq<int>
    decreases s.len() - p,
{
    if p < 0 || p >= s.len() {
        Seq::empty()
    } else {
        proof {
            lemma_step_next_range(s, p);
        }
        let rest = element_starts(s, step_next(s, p));
        if opens_at(s, p) {
            seq![p] + rest
        } else {
            rest
        }
    }
}

// ---------------------------------------------------------------------------
// How the tokenizer builds the tree
// ---------------------------------------------------------------------------

/// What the tokenizer has built at some point of the input: per element its
/// parent, tag, text and end, and the stack of open elements (innermost
/// last).
#[verifier::ext_equal]
pub struct ScanState {
    pub parents: Seq<Option<usize>>,
    pub tags: Seq<Seq<char>>,
    pub texts: Seq<Seq<char>>,
    pub ends: Seq<usize>,
    pub stack: Seq<usize>,
}

/// The position in `stack`, below `k`, of the innermost open element whose
/// tag is `name` ignoring ASCII case.
pub open spec fn innermost(stack: Seq<usize>, tags: Seq<Seq<char>>, name: Seq<char>, k: int) -> Option<int>
    decreases k,
{
    if k <= 0 {
        None
    } else if eq_ignore_case(tags[stack[k - 1] as int], name) {
        Some(k - 1)
    } else {
        innermost(stack, tags, name, k - 1)
    }
}

/// `ends` with the elements of `stack` from position `k` on ending at `q`.
pub open spec fn close_from(ends: Seq<usize>, stack: Seq<usize>, k: int, q: usize) -> Seq<usize>
    decreases stack.len() - k,
{
    if k < 0 || k >= stack.len() {
        ends
    } else {
        close_from(ends.update(stack[k] as int, q), stack, k + 1, q)
    }
}

/// Where the close tag `close` of a raw-text element starts, searching from
/// `p` as `raw_end` does.
pub open spec fn raw_close_pos(s: Seq<char>, p: int, close: Seq<char>) -> Option<int>
    decreases s.len() - p,
{
    if 0 < close.len() <= s.len() && 0 <= p <= s.len() - close.len() {
        if close_at(s, p, close) {
            Some(p)
        } else {
            raw_close_pos(s, p + 1, close)
        }
    } else {
        None
    }
}

/// What the construct at `p` does to the tree: a close tag ends the
/// innermost open element of its name and every element opened inside it;
/// an open tag adds an element under the innermost open one (ending after
/// its start tag), a `script` or `style` element takes the raw text up to
/// its close tag and ends after it, and any other element that is neither
/// void nor self-closing is opened (unless `MAX_DEPTH` elements are open);
/// a run of text is added to the text of the innermost open element.
pub open spec fn scan_step(s: Seq<char>, p: int, st: ScanState) -> ScanState {
    if s[p] == '<' {
        if comment_at(s, p) || (p + 1 < s.len() && s[p + 1] == '!') {
            st
        } else if p + 1 < s.len() && s[p + 1] == '/' {
            let t = first_stop(s, p + 2, Stop::NotTag);
            let name = lower_seq(s.subrange(p + 2, t));
            let q = arrow_end(s, t);
            match innermost(st.stack, st.tags, name, st.stack.len() as int) {
                Some(k) => ScanState {
                    ends: close_from(st.ends, st.stack, k, q as usize),
                    stack: st.stack.take(k),
                    ..st
                },
                None => st,
            }
        } else if first_stop(s, p + 1, Stop::NotTag) <= p + 1 {
            st
        } else {
            let n = st.parents.len();
            let parent = if st.stack.len() > 0 {
                Some(st.stack.last())
            } else {
                None
            };
            let tag = tag_at(s, p);
            let q = open_tag_end(s, p);
            let base = ScanState {
                parents: st.parents.push(parent),
                tags: st.tags.push(tag),
                texts: st.texts.push(Seq::empty()),
                ends: st.ends.push(q as usize),
                stack: st.stack,
            };
            if void_tag(tag) || attrs_end(s, first_stop(s, p + 1, Stop::NotTag)).1 {
                base
            } else if raw_text_tag(tag) {
                let close = seq!['<', '/'] + tag + seq!['>'];
                match raw_close_pos(s, q, close) {
                    Some(at) => ScanState {
                        texts: base.texts.update(n as int, s.subrange(q, at)),
                        ends: base.ends.update(n as int, (at + close.len()) as usize),
                        ..base
                    },
                    None => base,
                }
            } else if st.stack.len() < MAX_DEPTH {
                ScanState { stack: st.stack.push(n as usize), ..base }
            } else {
                base
            }
        }
    } else {
        let q = first_stop(s, p, Stop::Lt);
        if st.stack.len() > 0 {
            let top = st.stack.last() as int;
            ScanState { texts: st.texts.update(top, st.texts[top] + s.subrange(p, q)), ..st }
        } else {
            st
        }
    }
}

/// The tree built from `p` on, until the input or the element limit runs
/// out.
pub open spec fn scan_tree(s: Seq<char>, p: int, st: ScanState) -> ScanState
    decreases s.len() - p,
{
    if p < 0 || p >= s.len() || st.parents.len() >= MAX_ELEMENTS {
        st
    } else {
        proof {
            lemma_step_next_range(s, p);
        }
        scan_tree(s, step_next(s, p), scan_step(s, p, st))
    }
}

pub open spec fn empty_scan() -> ScanState {
    ScanState {
        parents: Seq::empty(),
        tags: Seq::empty(),
        texts: Seq::empty(),
        ends: Seq::empty(),
        stack: Seq::empty(),
    }
}

/// The tree of `s`: the scan from the start, with the elements still open
/// at the end ending at the end of the input.
pub open spec fn document_tree(s: Seq<char>) -> ScanState {
    let st = scan_tree(s, 0, empty_scan());
    ScanState { ends: close_from(st.ends, st.stack, 0, s.len() as usize), stack: Seq::empty(), ..st }
}

/// `doc` is the document parsed from `s`: a forest of the first
/// `MAX_ELEMENTS` elements that `element_starts` finds, each with the tag
/// and attributes found there, and the parent, text and end that
/// `document_tree` gives; child lists and roots list ids in increasing
/// order (`forest_ok`).
pub open spec fn parsed_document(doc: &HtmlDocument, s: Seq<char>) -> bool {
    let starts = element_starts(s, 0);
    &&& parsed_from(doc, s)
    &&& doc.nodes@.len() == (if starts.len() <= MAX_ELEMENTS {
        starts.len()
    } else {
        MAX_ELEMENTS as nat
    })
    &&& forall|i: int| 0 <= i < doc.nodes@.len() ==> element_at(s, starts[i], #[trigger] doc.nodes@[i])
    &&& forall|i: int|
        0 <= i < doc.nodes@.len() ==> tree_node(s, document_tree(s), starts, i, #[trigger] doc.nodes@[i])
}

/// Two strictly increasing lists with the same elements are the same list.
pub proof fn lemma_sorted_same(a: Seq<usize>, b: Seq<usize>)
    requires
        forall|i: int, j: int| 0 <= i < j < a.len() ==> #[trigger] a[i] < #[trigger] a[j],
        forall|i: int, j: int| 0 <= i < j < b.len() ==> #[trigger] b[i] < #[trigger] b[j],
        forall|x: usize| a.contains(x) <==> b.contains(x),
    ensures
        a == b,
    decreases a.len(),
{
    if a.len() == 0 {
        if b.len() > 0 {
            assert(b.contains(b[0]));
        }
    } else if b.len() == 0 {
        assert(a.contains(a[0]));
    } else {
        assert(a.contains(a[0]));
        assert(b.contains(b[0]));
        let ka = choose|k: int| 0 <= k < a.len() && a[k] == b[0];
        let kb = choose|k: int| 0 <= k < b.len() && b[k] == a[0];
        if ka > 0 {
            assert(a[0] < a[ka]);
        }
        if kb > 0 {
            assert(b[0] < b[kb]);
        }
        assert(a[0] == b[0]);
        let a1 = a.drop_first();
        let b1 = b.drop_first();
        assert forall|x: usize| a1.contains(x) <==> b1.contains(x) by {
            if a1.contains(x) {
                let k = choose|k: int| 0 <= k < a1.len() && a1[k] == x;
                assert(a[k + 1] == x && a[0] < a[k + 1]);
                assert(a.contains(x));
                let m = choose|m: int| 0 <= m < b.len() && b[m] == x;
                assert(m != 0);
                assert(b1[m - 1] == x);
            }
            if b1.contains(x) {
                let k = choose|k: int| 0 <= k < b1.len() && b1[k] == x;
                assert(b[k + 1] == x && b[0] < b[k + 1]);
                assert(b.contains(x));
                let m = choose|m: int| 0 <= m < a.len() && a[m] == x;
                assert(m != 0);
                assert(a1[m - 1] == x);
            }
        }
        lemma_sorted_same(a1, b1);
        assert(a =~= seq![a[0]] + a1);
        assert(b =~= seq![b[0]] + b1);
    }
}

/// The document parsed from an input is determined by it: any two documents
/// that meet `parsed_document` for the same input have the same elements,
/// links, tags, attributes, texts and outer HTML.
pub proof fn lemma_parsed_document_unique(d1: &HtmlDocument, d2: &HtmlDocument, s: Seq<char>)
    requires
        parsed_document(d1, s),
        parsed_document(d2, s),
    ensures
        d1.nodes@.len() == d2.nodes@.len(),
        d1.root_children@ == d2.root_children@,
        forall|i: int|
            0 <= i < d1.nodes@.len() ==> {
                let (e1, e2) = (#[trigger] d1.nodes@[i], d2.nodes@[i]);
                &&& e1.id == e2.id
                &&& e1.parent == e2.parent
                &&& e1.children@ == e2.children@
                &&& e1.tag@ == e2.tag@
                &&& attrs_view(e1.attributes@) == attrs_view(e2.attributes@)
                &&& e1.text@ == e2.text@
                &&& e1.outer_html@ == e2.outer_html@
            },
{
    let n = d1.nodes@.len();
    let starts = element_starts(s, 0);
    let p1 = doc_parents(d1);
    let p2 = doc_parents(d2);
    let c1 = doc_children(d1);
    let c2 = doc_children(d2);
    assert forall|i: int| 0 <= i < n implies #[trigger] p1[i] == p2[i] by {
        assert(tree_node(s, document_tree(s), starts, i, d1.nodes@[i]));
        assert(tree_node(s, document_tree(s), starts, i, d2.nodes@[i]));
    }
    assert forall|i: int| 0 <= i < n implies #[trigger] c1[i] == c2[i] by {
        assert forall|x: usize| c1[i].contains(x) <==> c2[i].contains(x) by {
            if c1[i].contains(x) {
                let k = choose|k: int| 0 <= k < c1[i].len() && c1[i][k] == x;
                assert(p1[x as int] == Some(i as usize));
                assert(p2[x as int] == Some(i as usize));
            }
            if c2[i].contains(x) {
                let k = choose|k: int| 0 <= k < c2[i].len() && c2[i][k] == x;
                assert(p2[x as int] == Some(i as usize));
                assert(p1[x as int] == Some(i as usize));
            }
        }
        lemma_sorted_same(c1[i], c2[i]);
    }
    assert forall|x: usize| d1.root_children@.contains(x) <==> d2.root_children@.contains(x) by {
        if d1.root_children@.contains(x) {
            let k = choose|k: int| 0 <= k < d1.root_children@.len() && d1.root_children@[k] == x;
            assert(p1[x as int] is None);
            assert(p2[x as int] is None);
        }
        if d2.root_children@.contains(x) {
            let k = choose|k: int| 0 <= k < d2.root_children@.len() && d2.root_children@[k] == x;
            assert(p2[x as int] is None);
            assert(p1[x as int] is None);
        }
    }
    lemma_sorted_same(d1.root_children@, d2.root_children@);
    assert forall|i: int| 0 <= i < n implies {
        let (e1, e2) = (#[trigger] d1.nodes@[i], d2.nodes@[i]);
        &&& e1.id == e2.id
        &&& e1.parent == e2.parent
        &&& e1.children@ == e2.children@
        &&& e1.tag@ == e2.tag@
        &&& attrs_view(e1.attributes@) == attrs_view(e2.attributes@)
        &&& e1.text@ == e2.text@
        &&& e1.outer_html@ == e2.outer_html@
    } by {
        assert(element_at(s, starts[i], d1.nodes@[i]));
        assert(element_at(s, starts[i], d2.nodes@[i]));
        assert(tree_node(s, document_tree(s), starts, i, d1.nodes@[i]));
        assert(tree_node(s, document_tree(s), starts, i, d2.nodes@[i]));
        assert(p1[i] == d1.nodes@[i].parent);
        assert(c1[i] == d1.nodes@[i].children@);
        assert(c2[i] == d2.nodes@[i].children@);
    }
}

/// `el` is element `i` of the tree `t` of `s`, whose elements start at
/// `starts`: its parent and text are the tree's, and its outer HTML runs
/// from its start to its end in the tree.
pub open spec fn tree_node(s: Seq<char>, t: ScanState, starts: Seq<int>, i: int, el: HtmlElement) -> bool {
    &&& el.parent == t.parents[i]
    &&& el.text@ == t.texts[i]
    &&& el.outer_html@ == s.subrange(starts[i], t.ends[i] as int)
}

/// `el` is the element found at `start`: its tag is the tag name there, its
/// attributes are those of the tag there, and its outer HTML is the input
/// from `start` on.
pub open spec fn element_at(s: Seq<char>, start: int, el: HtmlElement) -> bool {
    &&& el.tag@ == tag_at(s, start)
    &&& attrs_view(el.attributes@) == attrs_list(s, first_stop(s, start + 1, Stop::NotTag))
    &&& exists|end: int| start < end <= s.len() && el.outer_html@ == #[trigger] s.subrange(start, end)
}

// ---------------------------------------------------------------------------
// Tokenizer helpers
// ---------------------------------------------------------------------------

fn literal_is(t: &[char], lit: &str) -> (r: bool)
    ensures
        r == (t@ == lit@),
{
    let l = chars_of(lit);
    chars_eq(t, &l)
}

pub(crate) fn is_void_element(tag: &[char]) -> (r: bool)
    ensures
        r == void_tag(lower_seq(tag@)),
{
    let t = lowercase_chars(tag);
    literal_is(&t, "area") || literal_is(&t, "base") || literal_is(&t, "br") || literal_is(&t, "col")
        || literal_is(&t, "embed") || literal_is(&t, "hr") || literal_is(&t, "img") || literal_is(
        &t,
        "input",
    ) || literal_is(&t, "link") || literal_is(&t, "meta") || literal_is(&t, "param")
        || literal_is(&t, "source") || literal_is(&t, "track") || literal_is(&t, "wbr")
}

pub(crate) fn is_raw_text_element(tag: &[char]) -> (r: bool)
    ensures
        r == raw_text_tag(lower_seq(tag@)),
{
    let t = lowercase_chars(tag);
    literal_is(&t, "script") || literal_is(&t, "style")
}

fn is_tag_char(c: char) -> (r: bool)
    ensures
        r == tag_char(c),
{
    is_alphanumeric(c) || c == '-' || c == '_' || c == ':'
}

/// Advances past tag characters.
fn scan_tag(chars: &Vec<char>, pos: usize) -> (e: usize)
    requires
        pos <= chars.len(),
    ensures
        pos <= e <= chars.len(),
        forall|k: int| pos <= k < e ==> tag_char(#[trigger] chars@[k]),
        e == chars.len() || !tag_char(chars@[e as int]),
        e == first_stop(chars@, pos as int, Stop::NotTag),
{
    let mut e = pos;
    while e < chars.len() && is_tag_char(chars[e])
        invariant
            pos <= e <= chars.len(),
            forall|k: int| pos <= k < e ==> tag_char(#[trigger] chars@[k]),
        decreases chars.len() - e,
    {
        e += 1;
    }
    proof {
        lemma_first_stop(chars@, pos as int, e as int, Stop::NotTag);
    }
    e
}

fn skip_ws(chars: &Vec<char>, pos: usize) -> (e: usize)
    requires
        pos <= chars.len(),
    ensures
        pos <= e <= chars.len(),
        forall|k: int| pos <= k < e ==> is_ws(#[trigger] chars@[k]),
        e == chars.len() || !is_ws(chars@[e as int]),
        e == first_stop(chars@, pos as int, Stop::NotWs),
{
    let mut e = pos;
    while e < chars.len() && is_whitespace(chars[e])
        invariant
            pos <= e <= chars.len(),
            forall|k: int| pos <= k < e ==> is_ws(#[trigger] chars@[k]),
        decreases chars.len() - e,
    {
        e += 1;
    }
    proof {
        lemma_first_stop(chars@, pos as int, e as int, Stop::NotWs);
    }
    e
}

/// Adds a node under `parent` (or as a root) to the forest.
fn add_node(
    parents: &mut Vec<Option<usize>>,
    children: &mut Vec<Vec<usize>>,
    roots: &mut Vec<usize>,
    parent: Option<usize>,
)
    requires
        forest_ok(old(parents)@, old(children)@.map_values(|c: Vec<usize>| c@), old(roots)@),
        old(parents)@.len() < usize::MAX,
        parent matches Some(p) ==> p < old(parents)@.len(),
    ensures
        forest_ok(final(parents)@, final(children)@.map_values(|c: Vec<usize>| c@), final(roots)@),
        final(parents)@ == old(parents)@.push(parent),
        final(children)@.len() == old(children)@.len() + 1,
        final(children)@[old(children)@.len() as int]@.len() == 0,
        forall|i: int|
            0 <= i < old(children)@.len() && parent != Some(i as usize) ==> (
            #[trigger] final(children)@[i])@ == old(children)@[i]@,
        parent matches Some(p) ==> final(children)@[p as int]@ == old(children)@[p as int]@.push(
            old(parents)@.len() as usize,
        ),
{
    let ghost n = parents@.len();
    let ghost old_children = children@.map_values(|c: Vec<usize>| c@);
    let id = parents.len();
    parents.push(parent);
    children.push(Vec::new());
    match parent {
        Some(p) => {
            children[p].push(id);
        },
        None => {
            roots.push(id);
        },
    }
    proof {
        let ch = children@.map_values(|c: Vec<usize>| c@);
        assert forall|i: int| 0 <= i < n + 1 implies match #[trigger] parents@[i] {
            Some(p) => p < i && ch[p as int].contains(i as usize),
            None => roots@.contains(i as usize),
        } by {
            if i < n {
                match parents@[i] {
                    Some(q) => {
                        let k = choose|k: int|
                            0 <= k < old_children[q as int].len() && old_children[q as int][k]
                                == i as usize;
                        assert(ch[q as int][k] == i as usize);
                    },
                    None => {
                        let k = choose|k: int|
                            0 <= k < old(roots)@.len() && old(roots)@[k] == i as usize;
                        assert(roots@[k] == i as usize);
                    },
                }
            } else {
                match parent {
                    Some(p) => {
                        assert(ch[p as int].last() == id);
                    },
                    None => {
                        assert(roots@.last() == id);
                    },
                }
            }
        }
        assert forall|i: int, k: int| 0 <= i < n + 1 && 0 <= k < ch[i].len() implies i
            < #[trigger] ch[i][k] < n + 1 && parents@[ch[i][k] as int] == Some(i as usize) by {
            if i < n && k < old_children[i].len() {
                assert(ch[i][k] == old_children[i][k]);
            }
        }
        assert forall|i: int, k1: int, k2: int|
            0 <= i < n + 1 && 0 <= k1 < k2 < ch[i].len() implies #[trigger] ch[i][k1]
            < #[trigger] ch[i][k2] by {
            if i < n {
                assert(ch[i][k1] == old_children[i][k1]);
                if k2 < old_children[i].len() {
                    assert(ch[i][k2] == old_children[i][k2]);
                } else {
                    assert(old_children[i][k1] < n);
                }
            }
        }
        assert forall|k1: int, k2: int| 0 <= k1 < k2 < roots@.len() implies #[trigger] roots@[k1]
            < #[trigger] roots@[k2] by {
            assert(roots@[k1] == old(roots)@[k1]);
            if k2 < old(roots)@.len() {
                assert(roots@[k2] == old(roots)@[k2]);
            } else {
                assert(old(roots)@[k1] < n);
            }
        }
        assert forall|k: int| 0 <= k < roots@.len() implies #[trigger] roots@[k] < n + 1
            && parents@[roots@[k] as int] is None by {
            if k < old(roots)@.len() {
                assert(roots@[k] == old(roots)@[k]);
            }
        }
    }
}

/// The tokenizer's working state, kept apart from the final elements.
struct Builder {
    parents: Vec<Option<usize>>,
    children: Vec<Vec<usize>>,
    roots: Vec<usize>,
    tags: Vec<Vec<char>>,
    attrs: Vec<Vec<(String, String)>>,
    texts: Vec<Vec<char>>,
    starts: Vec<usize>,
    ends: Vec<usize>,
}

impl Builder {
    spec fn len(&self) -> nat {
        self.parents@.len()
    }

    spec fn child_seqs(&self) -> Seq<Seq<usize>> {
        self.children@.map_values(|c: Vec<usize>| c@)
    }

    /// Structural and provenance invariant, with every recorded end at or before `pos`.
    spec fn inv(&self, src: Seq<char>) -> bool {
        let n = self.len();
        &&& forest_ok(self.parents@, self.child_seqs(), self.roots@)
        &&& self.tags@.len() == n
        &&& self.attrs@.len() == n
        &&& self.texts@.len() == n
        &&& self.starts@.len() == n
        &&& self.ends@.len() == n
        &&& n <= MAX_ELEMENTS
        &&& forall|i: int|
            0 <= i < n ==> source_element(
                src,
                #[trigger] self.starts@[i] as int,
                self.ends@[i] as int,
                self.tags@[i]@,
            )
        &&& forall|i: int|
            0 <= i < n && (void_tag(#[trigger] self.tags@[i]@) || raw_text_tag(self.tags@[i]@))
                ==> self.children@[i]@.len() == 0
    }

    spec fn stack_ok(&self, stack: Seq<(usize, usize)>) -> bool {
        forall|k: int|
            0 <= k < stack.len() ==> {
                let (id, start) = #[trigger] stack[k];
                &&& id < self.len()
                &&& !void_tag(self.tags@[id as int]@)
                &&& !raw_text_tag(self.tags@[id as int]@)
                &&& start == self.starts@[id as int]
            }
    }
}

/// What the builder and its stack of open elements hold, as a scan state.
spec fn state_of(b: &Builder, stack: Seq<(usize, usize)>) -> ScanState {
    ScanState {
        parents: b.parents@,
        tags: b.tags@.map_values(|t: Vec<char>| t@),
        texts: b.texts@.map_values(|t: Vec<char>| t@),
        ends: b.ends@,
        stack: stack.map_values(|e: (usize, usize)| e.0),
    }
}

spec fn ends_le(b: &Builder, p: int) -> bool {
    forall|i: int| 0 <= i < b.len() ==> #[trigger] b.ends@[i] <= p
}

/// Sets the recorded end of element `id` to `end`.
fn set_end(b: &mut Builder, src: &Vec<char>, id: usize, end: usize, p: Ghost<int>)
    requires
        old(b).inv(src@),
        ends_le(old(b), p@),
        id < old(b).len(),
        old(b).starts@[id as int] + 1 + old(b).tags@[id as int]@.len() <= end <= src@.len(),
        end <= p@,
    ensures
        final(b).inv(src@),
        ends_le(final(b), p@),
        final(b).len() == old(b).len(),
        final(b).tags@ == old(b).tags@,
        final(b).starts@ == old(b).starts@,
        final(b).texts@ == old(b).texts@,
        final(b).ends@ == old(b).ends@.update(id as int, end),
        final(b).parents@ == old(b).parents@,
        final(b).children@ == old(b).children@,
        final(b).roots@ == old(b).roots@,
        final(b).attrs@ == old(b).attrs@,
{
    let ghost old_ends = b.ends@;
    b.ends.set(id, end);
    proof {
        assert forall|j: int| 0 <= j < b.len() implies source_element(
            src@,
            #[trigger] b.starts@[j] as int,
            b.ends@[j] as int,
            b.tags@[j]@,
        ) by {
            assert(source_element(src@, b.starts@[j] as int, old_ends[j] as int, b.tags@[j]@));
        }
    }
}

/// Looks for the close tag `close` of a raw-text element from `from` on,
/// ignoring ASCII case: where it starts if found, else where the search
/// stopped.
fn find_raw_close(chars: &Vec<char>, from: usize, close: &Vec<char>) -> (r: (bool, usize))
    requires
        from <= chars.len(),
        close@.len() >= 1,
    ensures
        from <= r.1 <= chars.len(),
        r.0 ==> r.1 + close@.len() <= chars.len() && raw_end(chars@, from as int, close@) == r.1
            + close@.len(),
        !r.0 ==> raw_end(chars@, from as int, close@) == r.1,
        r.0 ==> raw_close_pos(chars@, from as int, close@) == Some(r.1 as int),
        !r.0 ==> raw_close_pos(chars@, from as int, close@) is None,
{
    let len = chars.len();
    let cl = close.len();
    let mut pos = from;
    while cl <= len && pos <= len - cl
        invariant
            from <= pos <= len,
            len == chars@.len(),
            cl == close@.len(),
            cl >= 1,
            raw_end(chars@, pos as int, close@) == raw_end(chars@, from as int, close@),
            raw_close_pos(chars@, pos as int, close@) == raw_close_pos(chars@, from as int, close@),
        decreases len - pos,
    {
        let mut matches = true;
        let mut k: usize = 0;
        while k < cl && matches
            invariant
                from <= pos,
                pos + cl <= len,
                len == chars@.len(),
                cl == close@.len(),
                k <= cl,
                forall|j: int| 0 <= j < k ==> ascii_lower(#[trigger] chars@[pos + j]) == ascii_lower(close@[j]),
                !matches ==> k < cl && ascii_lower(chars@[pos + k]) != ascii_lower(close@[k as int]),
            decreases cl - k, (if matches { 1int } else { 0int }),
        {
            if to_ascii_lower(chars[pos + k]) != to_ascii_lower(close[k]) {
                matches = false;
            } else {
                k += 1;
            }
        }
        if matches {
            assert(close_at(chars@, pos as int, close@));
            return (true, pos);
        }
        assert(!close_at(chars@, pos as int, close@));
        pos += 1;
    }
    (false, pos)
}

/// Reads the attributes of an open tag from `from` up to its `>` (or
/// through its closing `/>`).
#[verifier::loop_isolation(false)]
fn read_attributes(chars: &Vec<char>, from: usize) -> (r: (Vec<(String, String)>, usize, bool))
    requires
        from <= chars.len(),
    ensures
        (r.1 as int, r.2) == attrs_end(chars@, from as int),
        from <= r.1 <= chars.len(),
        attrs_view(r.0@) == attrs_list(chars@, from as int),
{
    let len = chars.len();
    let mut pos = from;
    let mut attributes: Vec<(String, String)> = Vec::new();
    while pos < len && chars[pos] != '>'
        invariant
            from <= pos <= len,
            attrs_end(chars@, pos as int) == attrs_end(chars@, from as int),
            attrs_view(attributes@) + attrs_list(chars@, pos as int) == attrs_list(chars@, from as int),
        decreases len - pos,
    {
        if chars[pos] == '/' && pos + 1 < len && chars[pos + 1] == '>' {
            proof {
                assert(attrs_view(attributes@) =~= attrs_view(attributes@) + attrs_list(chars@, pos as int));
            }
            return (attributes, pos + 2, true);
        }
        if is_whitespace(chars[pos]) {
            pos += 1;
            continue;
        }
        // Attribute name
        let attr_name_start = pos;
        while pos < len && !is_whitespace(chars[pos]) && chars[pos] != '=' && chars[pos] != '>'
            && chars[pos] != '/'
            invariant
                attr_name_start <= pos <= len,
                forall|k: int|
                    attr_name_start <= k < pos ==> !stops(Stop::AttrName, #[trigger] chars@[k]),
            decreases len - pos,
        {
            pos += 1;
        }
        proof {
            lemma_first_stop(chars@, attr_name_start as int, pos as int, Stop::AttrName);
        }
        if attr_name_start == pos {
            pos += 1;
            continue;
        }
        let ghost n = pos as int;
        let attr_name = subrange_chars(chars, attr_name_start, pos);
        pos = skip_ws(chars, pos);
        let mut attr_val: Vec<char> = Vec::new();
        if pos < len && chars[pos] == '=' {
            pos += 1;
            pos = skip_ws(chars, pos);
            if pos < len && (chars[pos] == '"' || chars[pos] == '\'') {
                let quote = chars[pos];
                pos += 1;
                let val_start = pos;
                while pos < len && chars[pos] != quote
                    invariant
                        val_start <= pos <= len,
                        forall|k: int|
                            val_start <= k < pos ==> !stops(Stop::Quote(quote), #[trigger] chars@[k]),
                    decreases len - pos,
                {
                    pos += 1;
                }
                proof {
                    lemma_first_stop(chars@, val_start as int, pos as int, Stop::Quote(quote));
                }
                attr_val = subrange_chars(chars, val_start, pos);
                if pos < len {
                    pos += 1;
                }
            } else {
                let val_start = pos;
                while pos < len && !is_whitespace(chars[pos]) && chars[pos] != '>'
                    invariant
                        val_start <= pos <= len,
                        forall|k: int|
                            val_start <= k < pos ==> !stops(Stop::Unquoted, #[trigger] chars@[k]),
                    decreases len - pos,
                {
                    pos += 1;
                }
                proof {
                    lemma_first_stop(chars@, val_start as int, pos as int, Stop::Unquoted);
                }
                attr_val = subrange_chars(chars, val_start, pos);
            }
        }
        proof {
            assert(pos as int == after_attr(chars@, n));
            assert(attr_val@ == attr_value(chars@, n));
        }
        let ghost before = attributes@;
        attributes.push((string_from_chars(&attr_name), string_from_chars(&attr_val)));
        proof {
            assert(attrs_view(attributes@) =~= attrs_view(before).push(
                (chars@.subrange(attr_name_start as int, n), attr_value(chars@, n)),
            ));
            assert(attrs_view(attributes@) + attrs_list(chars@, pos as int) =~= attrs_view(before)
                + attrs_list(chars@, attr_name_start as int));
        }
    }
    proof {
        assert(attrs_view(attributes@) =~= attrs_view(attributes@) + attrs_list(chars@, pos as int));
    }
    (attributes, pos, false)
}

/// Reads one construct (comment, doctype, close tag, open tag or text run)
/// starting at `pos0` and returns the position after it.
#[verifier::loop_isolation(false)]
#[verifier::rlimit(60)]
fn step(b: &mut Builder, stack: &mut Vec<(usize, usize)>, chars: &Vec<char>, pos0: usize) -> (r: usize)
    requires
        pos0 < chars.len(),
        old(b).len() < MAX_ELEMENTS,
        old(b).inv(chars@),
        ends_le(old(b), pos0 as int),
        old(b).stack_ok(old(stack)@),
    ensures
        pos0 < r <= chars.len(),
        final(b).inv(chars@),
        ends_le(final(b), r as int),
        final(b).stack_ok(final(stack)@),
        r == step_next(chars@, pos0 as int),
        final(b).len() == old(b).len() + (if opens_at(chars@, pos0 as int) {
            1int
        } else {
            0int
        }),
        forall|i: int|
            0 <= i < old(b).len() ==> final(b).starts@[i] == old(b).starts@[i]
                && #[trigger] final(b).tags@[i] == old(b).tags@[i] && final(b).attrs@[i]
                == old(b).attrs@[i],
        state_of(final(b), final(stack)@) == scan_step(chars@, pos0 as int, state_of(old(b), old(stack)@)),
        opens_at(chars@, pos0 as int) ==> final(b).starts@[old(b).len() as int] == pos0
            && final(b).tags@[old(b).len() as int]@ == tag_at(chars@, pos0 as int) && attrs_view(
            final(b).attrs@[old(b).len() as int]@,
        ) == attrs_list(chars@, first_stop(chars@, pos0 + 1, Stop::NotTag)),
{
    let ghost b0 = *b;
    let len = chars.len();
    let mut pos = pos0;
    if chars[pos] == '<' {
        let start = pos;
        pos += 1;

        // Comment <!-- ... -->
        if len - pos > 2 && chars[pos] == '!' && chars[pos + 1] == '-' && chars[pos + 2] == '-' {
            pos += 3;
            proof {
                assert(comment_at(chars@, pos0 as int));
            }
            while len - pos > 2
                invariant
                    pos0 < pos <= len,
                    comment_end(chars@, pos as int) == comment_end(chars@, pos0 + 4),
                decreases len - pos,
            {
                if chars[pos] == '-' && chars[pos + 1] == '-' && chars[pos + 2] == '>' {
                    pos += 3;
                    break;
                }
                pos += 1;
            }
            return pos;
        }
        // DOCTYPE or CDATA

        if pos < len && chars[pos] == '!' {
            while pos < len && chars[pos] != '>'
                invariant
                    pos0 < pos <= len,
                    forall|k: int| pos0 + 1 <= k < pos ==> !stops(Stop::Gt, #[trigger] chars@[k]),
                decreases len - pos,
            {
                pos += 1;
            }
            proof {
                lemma_first_stop(chars@, pos0 + 1, pos as int, Stop::Gt);
            }
            if pos < len {
                pos += 1;
            }
            return pos;
        }
        // Close tag </tag>

        if pos < len && chars[pos] == '/' {
            pos += 1;
            let tag_start = pos;
            pos = scan_tag(chars, pos);
            let raw_close = subrange_chars(chars, tag_start, pos);
            let close_tag = lowercase_chars(&raw_close);
            let ghost t = pos as int;
            while pos < len && chars[pos] != '>'
                invariant
                    pos0 < pos <= len,
                    t <= pos,
                    forall|k: int| t <= k < pos ==> !stops(Stop::Gt, #[trigger] chars@[k]),
                decreases len - pos,
            {
                pos += 1;
            }
            proof {
                lemma_first_stop(chars@, t, pos as int, Stop::Gt);
            }
            if pos < len {
                pos += 1;
            }
            // innermost open element with this name
            let ghost st0 = state_of(b, stack@);
            let ghost name = lower_seq(chars@.subrange(pos0 + 2, t));
            proof {
                assert(close_tag@ =~= name);
            }
            let mut idx = stack.len();
            let mut found = false;
            while idx > 0 && !found
                invariant
                    idx <= stack.len(),
                    st0 == state_of(b, stack@),
                    close_tag@ == name,
                    !found ==> innermost(st0.stack, st0.tags, name, stack.len() as int)
                        == innermost(st0.stack, st0.tags, name, idx as int),
                    found ==> innermost(st0.stack, st0.tags, name, stack.len() as int) == Some(
                        idx as int,
                    ),
                decreases idx, (if found { 0int } else { 1int }),
            {
                let id = stack[idx - 1].0;
                proof {
                    let _ = stack@[idx - 1];
                    assert(st0.stack[idx - 1] == id);
                    assert(st0.tags[id as int] == b.tags@[id as int]@);
                }
                if eq_ignore_ascii_case(&b.tags[id], &close_tag) {
                    found = true;
                }
                idx -= 1;
            }
            if found {
                let ghost ends0 = b.ends@;
                let mut i = idx;
                while i < stack.len()
                    invariant
                        idx <= i <= stack.len(),
                        b.inv(chars@),
                        ends_le(b, pos as int),
                        b.stack_ok(stack@),
                        pos0 < pos <= len,
                        b.len() == b0.len(),
                        b.starts@ == b0.starts@,
                        b.tags@ == b0.tags@,
                        b.attrs@ == b0.attrs@,
                        b.parents@ == b0.parents@,
                        b.texts@ == b0.texts@,
                        stack@ == old(stack)@,
                        close_from(b.ends@, st0.stack, i as int, pos) == close_from(
                            ends0,
                            st0.stack,
                            idx as int,
                            pos,
                        ),
                    decreases stack.len() - i,
                {
                    let (closed_id, _) = stack[i];
                    proof {
                        let _ = stack@[i as int];
                        let _ = b.starts@[closed_id as int];
                        assert(ends_le(b, pos as int));
                    }
                    proof {
                        assert(st0.stack[i as int] == closed_id);
                    }
                    set_end(b, chars, closed_id, pos, Ghost(pos as int));
                    i += 1;
                }
                let ghost before = stack@;
                stack.truncate(idx);
                proof {
                    assert(stack@ =~= before.subrange(0, idx as int));
                    assert(state_of(b, stack@).stack =~= st0.stack.take(idx as int));
                    assert(state_of(b, stack@).tags =~= st0.tags);
                    assert(state_of(b, stack@).texts =~= st0.texts);
                }
            }
            return pos;
        }
        // Open tag <tag attrs...>

        let tag_start = pos;
        pos = scan_tag(chars, pos);
        if tag_start == pos {
            return pos;
        }
        let raw_tag = subrange_chars(chars, tag_start, pos);
        let tag_name_lower = lowercase_chars(&raw_tag);
        let tag_end = pos;

        // Parse attributes
        let (attributes, attrs_stop, is_self_closing) = read_attributes(chars, pos);
        pos = attrs_stop;
        if pos < len && chars[pos] == '>' {
            pos += 1;
        }
        proof {
            assert(!comment_at(chars@, pos0 as int));
            assert(tag_end as int == first_stop(chars@, pos0 + 1, Stop::NotTag));
            assert(tag_name_lower@ == tag_at(chars@, pos0 as int));
            assert(pos as int == open_tag_end(chars@, pos0 as int));
            assert(opens_at(chars@, pos0 as int));
            assert(is_self_closing == attrs_end(chars@, tag_end as int).1);
        }

        let node_id = b.parents.len();
        let parent_id = if stack.len() > 0 {
            Some(stack[stack.len() - 1].0)
        } else {
            None
        };
        proof {
            if stack.len() > 0 {
                let _ = stack@[stack.len() - 1];
            }
        }
        let is_void = is_void_element(&tag_name_lower) || is_self_closing;
        let is_raw = is_raw_text_element(&tag_name_lower);
        proof {
            assert(lower_seq(tag_name_lower@) =~= tag_name_lower@);
            assert(tag_name_lower@ =~= lower_seq(
                chars@.subrange(start + 1, start + 1 + tag_name_lower@.len()),
            ));
        }

        let ghost old_b = *b;
        let ghost old_stack = stack@;
        add_node(&mut b.parents, &mut b.children, &mut b.roots, parent_id);
        b.tags.push(tag_name_lower);
        b.attrs.push(attributes);
        b.texts.push(Vec::new());
        b.starts.push(start);
        b.ends.push(pos);
        proof {
            let n = b.len();
            assert forall|i: int| 0 <= i < n implies source_element(
                chars@,
                #[trigger] b.starts@[i] as int,
                b.ends@[i] as int,
                b.tags@[i]@,
            ) by {
                if i < n - 1 {
                    assert(b.starts@[i] == old_b.starts@[i]);
                    assert(b.tags@[i] == old_b.tags@[i]);
                    assert(b.ends@[i] == old_b.ends@[i]);
                } else {
                    assert forall|k: int| 0 <= k < b.tags@[i]@.len() implies tag_char(
                        #[trigger] chars@[start + 1 + k],
                    ) by {}
                }
            }
            assert forall|i: int| 0 <= i < n implies #[trigger] b.ends@[i] <= pos by {
                if i < n - 1 {
                    assert(b.ends@[i] == old_b.ends@[i]);
                }
            }
            assert forall|i: int|
                0 <= i < n && (void_tag(#[trigger] b.tags@[i]@) || raw_text_tag(
                    b.tags@[i]@,
                )) implies b.children@[i]@.len() == 0 by {
                if i < n - 1 {
                    assert(b.tags@[i] == old_b.tags@[i]);
                    if parent_id == Some(i as usize) {
                        assert(!void_tag(b.tags@[i]@));
                    } else {
                        assert(b.children@[i]@ == old_b.children@[i]@);
                    }
                }
            }
            assert forall|k: int| 0 <= k < stack@.len() implies {
                let (id, start) = #[trigger] stack@[k];
                &&& id < b.len()
                &&& !void_tag(b.tags@[id as int]@)
                &&& !raw_text_tag(b.tags@[id as int]@)
                &&& start == b.starts@[id as int]
            } by {
                let (id, st) = old_stack[k];
                assert(b.tags@[id as int] == old_b.tags@[id as int]);
                assert(b.starts@[id as int] == old_b.starts@[id as int]);
            }
        }

        if is_void {
            return pos;
        }
        // Raw text elements: script, style

        if is_raw {
            let mut close_chars: Vec<char> = Vec::new();
            close_chars.push('<');
            close_chars.push('/');
            let mut k: usize = 0;
            while k < b.tags[node_id].len()
                invariant
                    k <= b.tags@[node_id as int]@.len(),
                    close_chars@ == seq!['<', '/'] + b.tags@[node_id as int]@.subrange(0, k as int),
                decreases b.tags@[node_id as int]@.len() - k,
            {
                close_chars.push(b.tags[node_id][k]);
                k += 1;
            }
            close_chars.push('>');
            proof {
                assert(b.tags@[node_id as int]@.subrange(0, k as int) =~= tag_at(chars@, pos0 as int));
                assert(close_chars@ =~= seq!['<', '/'] + tag_at(chars@, pos0 as int) + seq!['>']);
            }
            let cl = close_chars.len();
            let text_start = pos;
            let (found, at) = find_raw_close(chars, pos, &close_chars);
            if found {
                let ghost bb = *b;
                let script_text = subrange_chars(chars, text_start, at);
                b.texts.set(node_id, script_text);
                proof {
                    let _ = b.starts@[node_id as int];
                    assert(b.inv(chars@));
                    assert(ends_le(b, (at + cl) as int));
                }
                set_end(b, chars, node_id, at + cl, Ghost((at + cl) as int));
                pos = at + cl;
            } else {
                pos = at;
            }
            return pos;
        }
        if stack.len() < MAX_DEPTH {
            let ghost old_stack = stack@;
            stack.push((node_id, start));
            proof {
                assert forall|k: int| 0 <= k < stack@.len() implies {
                    let (id, start) = #[trigger] stack@[k];
                    &&& id < b.len()
                    &&& !void_tag(b.tags@[id as int]@)
                    &&& !raw_text_tag(b.tags@[id as int]@)
                    &&& start == b.starts@[id as int]
                } by {
                    if k < stack@.len() - 1 {
                        assert(stack@[k] == old_stack[k]);
                    }
                }
            }
        }
        assert(ends_le(b, pos as int));
        assert(b.stack_ok(stack@));
        pos
    } else {
        // Text node
        let text_start = pos;
        while pos < len && chars[pos] != '<'
            invariant
                text_start <= pos <= len,
                forall|k: int| text_start <= k < pos ==> !stops(Stop::Lt, #[trigger] chars@[k]),
            decreases len - pos,
        {
            pos += 1;
        }
        proof {
            lemma_first_stop(chars@, text_start as int, pos as int, Stop::Lt);
        }
        if stack.len() > 0 {
            let parent_id = stack[stack.len() - 1].0;
            proof {
                let _ = stack@[stack.len() - 1];
            }
            let ghost texts0 = b.texts@;
            let mut k = text_start;
            while k < pos
                invariant
                    text_start <= k <= pos,
                    parent_id < b.texts@.len(),
                    b.texts@.len() == b.len(),
                    b.inv(chars@),
                    ends_le(b, pos as int),
                    b.stack_ok(stack@),
                    b.len() == b0.len(),
                    b.starts@ == b0.starts@,
                    b.tags@ == b0.tags@,
                    b.attrs@ == b0.attrs@,
                    b.parents@ == b0.parents@,
                    b.ends@ == b0.ends@,
                    b.texts@.len() == texts0.len(),
                    forall|j: int| 0 <= j < texts0.len() && j != parent_id ==> #[trigger] b.texts@[j] == texts0[j],
                    b.texts@[parent_id as int]@ == texts0[parent_id as int]@ + chars@.subrange(
                        text_start as int,
                        k as int,
                    ),
                decreases pos - k,
            {
                let ghost before = b.texts@[parent_id as int]@;
                b.texts[parent_id].push(chars[k]);
                proof {
                    assert(chars@.subrange(text_start as int, k + 1) =~= chars@.subrange(
                        text_start as int,
                        k as int,
                    ).push(chars@[k as int]));
                }
                k += 1;
            }
            proof {
                let st = state_of(b, stack@);
                let st0 = state_of(&b0, stack@);
                assert(st.texts =~= st0.texts.update(
                    parent_id as int,
                    st0.texts[parent_id as int] + chars@.subrange(text_start as int, pos as int),
                ));
            }
        } else {
            proof {
                assert(state_of(b, stack@).texts =~= state_of(&b0, stack@).texts);
            }
        }
        pos
    }
}

/// Parses `html` into an element forest.
///
/// Comments, doctypes and CDATA are skipped, `script`/`style` contents are
/// kept as raw text, void and self-closing elements take no children, a close
/// tag closes the innermost open element of the same name together with the
/// elements opened after it, and unclosed elements extend to the end of the
/// input.  At most `MAX_ELEMENTS` elements are read and nesting deeper than
/// `MAX_DEPTH` is flattened.
pub fn parse_html_document(html: &str) -> (doc: HtmlDocument)
    ensures
        parsed_document(&doc, html@),
        parsed_from(&doc, html@),
        doc.nodes@.len() == (if element_starts(html@, 0).len() <= MAX_ELEMENTS {
            element_starts(html@, 0).len()
        } else {
            MAX_ELEMENTS as nat
        }),
        forall|i: int|
            0 <= i < doc.nodes@.len() ==> element_at(
                html@,
                element_starts(html@, 0)[i],
                #[trigger] doc.nodes@[i],
            ),
        forall|i: int|
            0 <= i < doc.nodes@.len() ==> tree_node(html@, document_tree(html@), element_starts(html@, 0), i, #[trigger] doc.nodes@[i]),
{
    let chars = chars_of(html);
    let len = chars.len();
    let mut b = Builder {
        parents: Vec::new(),
        children: Vec::new(),
        roots: Vec::new(),
        tags: Vec::new(),
        attrs: Vec::new(),
        texts: Vec::new(),
        starts: Vec::new(),
        ends: Vec::new(),
    };
    let mut pos: usize = 0;
    let mut stack: Vec<(usize, usize)> = Vec::new();
    proof {
        assert(b.child_seqs() =~= Seq::<Seq<usize>>::empty());
    }
    let ghost all = element_starts(chars@, 0);
    proof {
        assert(all.subrange(0, all.len() as int) =~= all);
    }
    let ghost tree = scan_tree(chars@, 0, empty_scan());
    proof {
        assert(state_of(&b, stack@) =~= empty_scan());
    }
    while pos < len && b.parents.len() < MAX_ELEMENTS
        invariant
            tree == scan_tree(chars@, 0, empty_scan()),
            scan_tree(chars@, pos as int, state_of(&b, stack@)) == tree,
            chars@ == html@,
            len == chars.len(),
            pos <= len,
            b.inv(chars@),
            ends_le(&b, pos as int),
            b.stack_ok(stack@),
            all == element_starts(chars@, 0),
            b.len() <= all.len(),
            all.subrange(b.len() as int, all.len() as int) == element_starts(chars@, pos as int),
            forall|i: int|
                0 <= i < b.len() ==> b.starts@[i] == all[i] && (#[trigger] b.tags@[i])@ == tag_at(
                    chars@,
                    all[i],
                ) && attrs_view(b.attrs@[i]@) == attrs_list(
                    chars@,
                    first_stop(chars@, all[i] + 1, Stop::NotTag),
                ),
        decreases len - pos,
    {
        let ghost n0 = b.len();
        let ghost p0 = pos as int;
        let ghost rest0 = element_starts(chars@, p0);
        pos = step(&mut b, &mut stack, &chars, pos);
        proof {
            let rest = element_starts(chars@, pos as int);
            assert(rest0 == if opens_at(chars@, p0) {
                seq![p0] + rest
            } else {
                rest
            });
            if opens_at(chars@, p0) {
                assert(all[n0 as int] == rest0[0]);
                assert(all.subrange(b.len() as int, all.len() as int) =~= rest0.drop_first());
                assert(rest0.drop_first() =~= rest);
            }
        }
    }
    proof {
        if pos >= len {
            assert(element_starts(chars@, pos as int) =~= Seq::<int>::empty());
        }
        assert(state_of(&b, stack@) == tree);
    }
    let ghost ends0 = b.ends@;
    let ghost b1 = b;
    // Unclosed tags on stack
    let mut s: usize = 0;
    while s < stack.len()
        invariant
            s <= stack.len(),
            state_of(&b1, stack@) == tree,
            b.parents@ == b1.parents@,
            b.texts@ == b1.texts@,
            b.tags@ == b1.tags@,
            close_from(b.ends@, tree.stack, s as int, len) == close_from(ends0, tree.stack, 0, len),
            len == chars.len(),
            b.inv(chars@),
            ends_le(&b, len as int),
            b.stack_ok(stack@),
            all == element_starts(chars@, 0),
            chars@ == html@,
            b.len() == (if all.len() <= MAX_ELEMENTS {
                all.len()
            } else {
                MAX_ELEMENTS as nat
            }),
            forall|i: int|
                0 <= i < b.len() ==> b.starts@[i] == all[i] && (#[trigger] b.tags@[i])@ == tag_at(
                    chars@,
                    all[i],
                ) && attrs_view(b.attrs@[i]@) == attrs_list(
                    chars@,
                    first_stop(chars@, all[i] + 1, Stop::NotTag),
                ),
        decreases stack.len() - s,
    {
        let (unclosed_id, _) = stack[s];
        proof {
            let _ = stack@[s as int];
            let _ = b.starts@[unclosed_id as int];
        }
        proof {
            assert(tree.stack[s as int] == unclosed_id);
        }
        set_end(&mut b, &chars, unclosed_id, len, Ghost(len as int));
        s += 1;
    }
    let ghost bf = b;
    proof {
        assert(bf.ends@ == document_tree(html@).ends);
    }
    let doc = assemble(b, &chars);
    proof {
        assert forall|i: int| 0 <= i < doc.nodes@.len() implies element_at(
            html@,
            all[i],
            #[trigger] doc.nodes@[i],
        ) by {
            let st = bf.starts@[i] as int;
            let en = bf.ends@[i] as int;
            assert(source_element(chars@, st, en, bf.tags@[i]@));
            assert(doc.nodes@[i].outer_html@ == chars@.subrange(st, en));
            assert(tree.texts[i] == bf.texts@[i]@);
            assert(tree.parents[i] == bf.parents@[i]);
            assert(tree_node(html@, document_tree(html@), all, i, doc.nodes@[i]));
        }
    }
    doc
}

/// `doc` holds the builder's elements in order: each with its id, parent,
/// children, tag, attributes and text, its outer HTML the input between its
/// recorded start and end; the roots are the builder's.
spec fn assembled(b: Builder, chars: Seq<char>, doc: &HtmlDocument) -> bool {
    &&& doc.nodes@.len() == b.len()
    &&& doc.root_children@ == b.roots@
    &&& forall|j: int|
        0 <= j < b.len() ==> {
            let e = #[trigger] doc.nodes@[j];
            &&& e.id == j
            &&& e.parent == b.parents@[j]
            &&& e.children@ == b.children@[j]@
            &&& e.tag@ == b.tags@[j]@
            &&& e.attributes == b.attrs@[j]
            &&& e.text@ == b.texts@[j]@
            &&& e.outer_html@ == chars.subrange(b.starts@[j] as int, b.ends@[j] as int)
        }
}

/// Turns the builder into the final document.
fn assemble(b: Builder, chars: &Vec<char>) -> (doc: HtmlDocument)
    requires
        b.inv(chars@),
    ensures
        parsed_from(&doc, chars@),
        assembled(b, chars@, &doc),
{
    let mut b = b;
    let n = b.parents.len();
    let mut nodes: Vec<HtmlElement> = Vec::new();
    let mut i: usize = 0;
    let ghost b0 = b;
    while i < n
        invariant
            n == b0.len(),
            i <= n,
            b0.inv(chars@),
            b.parents@ == b0.parents@,
            b.roots@ == b0.roots@,
            b.starts@ == b0.starts@,
            b.ends@ == b0.ends@,
            b.tags@ == b0.tags@,
            b.children@.len() == n,
            b.attrs@.len() == n,
            b.texts@.len() == n,
            forall|j: int| i <= j < n ==> (#[trigger] b.children@[j])@ == b0.children@[j]@,
            forall|j: int| i <= j < n ==> #[trigger] b.attrs@[j] == b0.attrs@[j],
            b.texts@ == b0.texts@,
            nodes@.len() == i,
            forall|j: int|
                0 <= j < i ==> {
                    let e = #[trigger] nodes@[j];
                    &&& e.id == j
                    &&& e.parent == b0.parents@[j]
                    &&& e.children@ == b0.children@[j]@
                    &&& e.tag@ == b0.tags@[j]@
                    &&& e.attributes == b0.attrs@[j]
                    &&& e.text@ == b0.texts@[j]@
                    &&& e.outer_html@ == chars@.subrange(
                        b0.starts@[j] as int,
                        b0.ends@[j] as int,
                    )
                },
        decreases n - i,
    {
        let mut children: Vec<usize> = Vec::new();
        std::mem::swap(&mut children, &mut b.children[i]);
        let mut attributes: Vec<(String, String)> = Vec::new();
        std::mem::swap(&mut attributes, &mut b.attrs[i]);
        proof {
            let _ = b0.inv(chars@);
            assert(source_element(
                chars@,
                b0.starts@[i as int] as int,
                b0.ends@[i as int] as int,
                b0.tags@[i as int]@,
            ));
        }
        let outer = subrange_chars(chars, b.starts[i], b.ends[i]);
        let el = HtmlElement {
            id: i,
            parent: b.parents[i],
            children,
            tag: string_from_chars(&b.tags[i]),
            attributes,
            text: string_from_chars(&b.texts[i]),
            outer_html: string_from_chars(&outer),
        };
        nodes.push(el);
        i += 1;
    }
    let roots = b.roots;
    let doc = HtmlDocument { nodes, root_children: roots };
    proof {
        assert(doc_parents(&doc) =~= b0.parents@);
        assert(doc_children(&doc) =~= b0.child_seqs());
        assert(doc.root_children@ == b0.roots@);
        assert(forest_ok(doc_parents(&doc), doc_children(&doc), doc.root_children@));
        assert(forall_ok_doc(&doc));
        assert(doc_wf(&doc));
        assert forall|i: int| 0 <= i < doc.nodes@.len() implies element_from(chars@, #[trigger] doc.nodes@[i]) by {
            let st = b0.starts@[i] as int;
            let en = b0.ends@[i] as int;
            assert(source_element(chars@, st, en, b0.tags@[i]@));
            assert(doc.nodes@[i].tag@ == b0.tags@[i]@);
            assert(doc.nodes@[i].outer_html@ == chars@.subrange(st, en));
        }
        assert forall|i: int|
            0 <= i < doc.nodes@.len() && (void_tag(doc.nodes@[i].tag@) || raw_text_tag(
                doc.nodes@[i].tag@,
            )) implies (#[trigger] doc.nodes@[i]).children@.len() == 0 by {
            let _ = b0.tags@[i];
        }
        assert(doc.nodes@.len() <= MAX_ELEMENTS);
        assert(parsed_from(&doc, chars@));
        assert(assembled(b0, chars@, &doc));
    }
    doc
}

} // verus!
