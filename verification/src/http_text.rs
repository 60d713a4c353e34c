//! Splitting HTTP message text: head and body, lines, `name: value` pairs.
use crate::text::{
    chars_of, find_from, is_whitespace, is_ws, lemma_leading_ws, occurs_at, starts_with_seq, string_from_chars,
    subrange_chars, trim_chars, trim_seq,
};
use vstd::prelude::*;

verus! {

// ---------------------------------------------------------------------------
// First occurrences and `split_once`
// ---------------------------------------------------------------------------

/// The first position at or after `i` where `n` occurs in `h`.
pub open spec fn find_seq_from(h: Seq<char>, n: Seq<char>, i: int) -> Option<int>
    decreases h.len() + 1 - i,
{
    if i < 0 || i > h.len() {
        None
    } else if occurs_at(h, n, i) {
        Some(i)
    } else {
        find_seq_from(h, n, i + 1)
    }
}

pub proof fn lemma_find_seq_from(h: Seq<char>, n: Seq<char>, i: int, r: Option<int>)
    requires
        0 <= i,
        match r {
            Some(k) => i <= k && occurs_at(h, n, k) && forall|j: int|
                i <= j < k ==> !occurs_at(h, n, j),
            None => forall|j: int| i <= j ==> !occurs_at(h, n, j),
        },
    ensures
        find_seq_from(h, n, i) == r,
    decreases h.len() + 1 - i,
{
    if i <= h.len() && !occurs_at(h, n, i) {
        lemma_find_seq_from(h, n, i + 1, r);
    } else if i > h.len() {
        if let Some(k) = r {
            assert(occurs_at(h, n, k));
        }
    }
}

/// `str::split_once`: the text before and after the first occurrence of `d`.
pub open spec fn split_once_spec(h: Seq<char>, d: Seq<char>) -> Option<(Seq<char>, Seq<char>)> {
    match find_seq_from(h, d, 0) {
        Some(k) => Some((h.subrange(0, k), h.subrange(k + d.len(), h.len() as int))),
        None => None,
    }
}

pub fn find_first(h: &[char], n: &[char]) -> (r: Option<usize>)
    ensures
        match r {
            Some(k) => find_seq_from(h@, n@, 0) == Some(k as int) && k + n@.len() <= h@.len(),
            None => find_seq_from(h@, n@, 0) is None,
        },
{
    let r = find_from(h, n, 0);
    proof {
        match r {
            Some(k) => lemma_find_seq_from(h@, n@, 0, Some(k as int)),
            None => lemma_find_seq_from(h@, n@, 0, None),
        }
    }
    r
}

pub fn split_once_chars(h: &[char], d: &[char]) -> (r: Option<(Vec<char>, Vec<char>)>)
    ensures
        match (r, split_once_spec(h@, d@)) {
            (Some((a, b)), Some((x, y))) => a@ == x && b@ == y,
            (None, None) => true,
            _ => false,
        },
{
    let n = h.len();
    match find_first(h, d) {
        Some(k) => Some((subrange_chars(h, 0, k), subrange_chars(h, k + d.len(), n))),
        None => None,
    }
}

// ---------------------------------------------------------------------------
// Lines
// ---------------------------------------------------------------------------

/// A line without the `\r` of a `\r\n` ending.
pub open spec fn strip_cr(t: Seq<char>) -> Seq<char> {
    if t.len() > 0 && t.last() == '\r' {
        t.drop_last()
    } else {
        t
    }
}

/// Index of the first `\n` at or after `i`, or `s.len()`.
pub open spec fn next_newline(s: Seq<char>, i: int) -> int
    decreases s.len() - i,
{
    if i < 0 || i >= s.len() {
        s.len() as int
    } else if s[i] == '\n' {
        i
    } else {
        next_newline(s, i + 1)
    }
}

/// `str::lines` from position `i`: lines end at `\n` or `\r\n`; a final
/// line ending adds no empty line.
pub open spec fn lines_from(s: Seq<char>, i: int) -> Seq<Seq<char>>
    decreases s.len() - i,
{
    if i < 0 || i >= s.len() {
        Seq::empty()
    } else {
        let j = next_newline(s, i);
        if j >= s.len() {
            seq![s.subrange(i, s.len() as int)]
        } else {
            proof {
                lemma_next_newline(s, i);
            }
            seq![strip_cr(s.subrange(i, j))] + lines_from(s, j + 1)
        }
    }
}

pub open spec fn lines_spec(s: Seq<char>) -> Seq<Seq<char>> {
    lines_from(s, 0)
}

pub proof fn lemma_next_newline(s: Seq<char>, i: int)
    requires
        0 <= i <= s.len(),
    ensures
        i <= next_newline(s, i) <= s.len(),
        next_newline(s, i) < s.len() ==> s[next_newline(s, i)] == '\n',
        forall|k: int| i <= k < next_newline(s, i) ==> s[k] != '\n',
    decreases s.len() - i,
{
    if i < s.len() && s[i] != '\n' {
        lemma_next_newline(s, i + 1);
    }
}

fn next_newline_at(s: &[char], i: usize) -> (r: usize)
    requires
        i <= s@.len(),
    ensures
        r == next_newline(s@, i as int),
        i <= r <= s@.len(),
{
    let mut k = i;
    while k < s.len() && s[k] != '\n'
        invariant
            i <= k <= s@.len(),
            next_newline(s@, k as int) == next_newline(s@, i as int),
        decreases s@.len() - k,
    {
        k += 1;
    }
    k
}

pub open spec fn vecs_view(v: Seq<Vec<char>>) -> Seq<Seq<char>> {
    Seq::new(v.len(), |k: int| v[k]@)
}

/// The lines of `s` (see `lines_spec`).
pub fn lines_of(s: &[char]) -> (r: Vec<Vec<char>>)
    ensures
        vecs_view(r@) == lines_spec(s@),
{
    let mut out: Vec<Vec<char>> = Vec::new();
    let mut i: usize = 0;
    while i < s.len()
        invariant
            i <= s@.len(),
            vecs_view(out@) + lines_from(s@, i as int) == lines_spec(s@),
        decreases s@.len() - i,
    {
        let j = next_newline_at(s, i);
        let ghost before = vecs_view(out@);
        if j >= s.len() {
            let line = subrange_chars(s, i, s.len());
            out.push(line);
            proof {
                assert(vecs_view(out@) =~= before.push(s@.subrange(i as int, s@.len() as int)));
                assert(lines_from(s@, s@.len() as int) =~= Seq::<Seq<char>>::empty());
                assert(vecs_view(out@) + lines_from(s@, s@.len() as int) =~= before + lines_from(
                    s@,
                    i as int,
                ));
            }
            i = s.len();
        } else {
            let mut line = subrange_chars(s, i, j);
            if line.len() > 0 && line[line.len() - 1] == '\r' {
                line.pop();
            }
            proof {
                assert(line@ =~= strip_cr(s@.subrange(i as int, j as int)));
            }
            out.push(line);
            proof {
                assert(vecs_view(out@) =~= before.push(strip_cr(s@.subrange(i as int, j as int))));
                assert(vecs_view(out@) + lines_from(s@, j + 1) =~= before + lines_from(
                    s@,
                    i as int,
                ));
            }
            i = j + 1;
        }
    }
    proof {
        assert(lines_from(s@, i as int) =~= Seq::<Seq<char>>::empty());
        assert(vecs_view(out@) + Seq::<Seq<char>>::empty() =~= vecs_view(out@));
    }
    out
}

// ---------------------------------------------------------------------------
// Head and body
// ---------------------------------------------------------------------------

pub open spec fn crlf() -> Seq<char> {
    seq!['\r', '\n']
}

pub open spec fn crlf2() -> Seq<char> {
    seq!['\r', '\n', '\r', '\n']
}

pub open spec fn lf2() -> Seq<char> {
    seq!['\n', '\n']
}

/// The blank-line delimiter of a message: `\r\n\r\n` when the text holds
/// any `\r\n`, `\n\n` otherwise.
pub open spec fn blank_line_of(s: Seq<char>) -> Seq<char> {
    if find_seq_from(s, crlf(), 0) is Some {
        crlf2()
    } else {
        lf2()
    }
}

pub fn crlf_chars() -> (r: Vec<char>)
    ensures
        r@ == crlf(),
{
    let mut r: Vec<char> = Vec::new();
    r.push('\r');
    r.push('\n');
    proof {
        assert(r@ =~= crlf());
    }
    r
}

pub fn crlf2_chars() -> (r: Vec<char>)
    ensures
        r@ == crlf2(),
{
    let mut r = crlf_chars();
    r.push('\r');
    r.push('\n');
    proof {
        assert(r@ =~= crlf2());
    }
    r
}

pub fn lf2_chars() -> (r: Vec<char>)
    ensures
        r@ == lf2(),
{
    let mut r: Vec<char> = Vec::new();
    r.push('\n');
    r.push('\n');
    proof {
        assert(r@ =~= lf2());
    }
    r
}

pub fn blank_line_chars(s: &[char]) -> (r: Vec<char>)
    ensures
        r@ == blank_line_of(s@),
{
    let c = crlf_chars();
    if find_first(s, c.as_slice()).is_some() {
        crlf2_chars()
    } else {
        lf2_chars()
    }
}

/// The head of an HTTP message: the text before the first blank line, or
/// all of it when there is none.
pub open spec fn headers_only_spec(s: Seq<char>) -> Seq<char> {
    match split_once_spec(s, blank_line_of(s)) {
        Some((head, _)) => head,
        None => s,
    }
}

/// Keeps only the start line and headers of an HTTP message.
pub fn extract_headers_only(http_text: &str) -> (r: String)
    ensures
        r@ == headers_only_spec(http_text@),
{
    let s = chars_of(http_text);
    let d = blank_line_chars(s.as_slice());
    match split_once_chars(s.as_slice(), d.as_slice()) {
        Some((head, _)) => string_from_chars(head.as_slice()),
        None => string_from_chars(s.as_slice()),
    }
}

// ---------------------------------------------------------------------------
// `name: value` lines
// ---------------------------------------------------------------------------

pub open spec fn colon() -> Seq<char> {
    seq![':']
}

/// The `name: value` pairs of `lines`, trimmed; lines without `:` are skipped.
pub open spec fn header_pairs(lines: Seq<Seq<char>>) -> Seq<(Seq<char>, Seq<char>)>
    decreases lines.len(),
{
    if lines.len() == 0 {
        Seq::empty()
    } else {
        let rest = header_pairs(lines.drop_last());
        match split_once_spec(lines.last(), colon()) {
            Some((k, v)) => rest.push((trim_seq(k), trim_seq(v))),
            None => rest,
        }
    }
}

/// `lines` without the leading lines that start with `HTTP/`.
pub open spec fn skip_status_lines(lines: Seq<Seq<char>>) -> Seq<Seq<char>>
    decreases lines.len(),
{
    if lines.len() > 0 && starts_with_seq(lines[0], "HTTP/"@) {
        skip_status_lines(lines.drop_first())
    } else {
        lines
    }
}

pub open spec fn pairs_view(v: Seq<(String, String)>) -> Seq<(Seq<char>, Seq<char>)> {
    Seq::new(v.len(), |k: int| (v[k].0@, v[k].1@))
}

/// The trimmed `name: value` pairs of `lines` (see `header_pairs`).
pub fn header_pairs_of(lines: &Vec<Vec<char>>, from: usize) -> (r: Vec<(String, String)>)
    requires
        from <= lines@.len(),
    ensures
        pairs_view(r@) == header_pairs(vecs_view(lines@).subrange(from as int, lines@.len() as int)),
{
    let mut out: Vec<(String, String)> = Vec::new();
    let mut i = from;
    let c: Vec<char> = chars_of(":");
    proof {
        reveal_strlit(":");
        assert(c@ =~= colon());
        assert(vecs_view(lines@).subrange(from as int, from as int) =~= Seq::<Seq<char>>::empty());
        assert(pairs_view(out@) =~= Seq::<(Seq<char>, Seq<char>)>::empty());
    }
    while i < lines.len()
        invariant
            from <= i <= lines@.len(),
            c@ == colon(),
            pairs_view(out@) == header_pairs(vecs_view(lines@).subrange(from as int, i as int)),
        decreases lines@.len() - i,
    {
        let ghost before = out@;
        proof {
            let p = vecs_view(lines@).subrange(from as int, i + 1);
            assert(p.drop_last() =~= vecs_view(lines@).subrange(from as int, i as int));
            assert(p.last() == lines@[i as int]@);
        }
        match split_once_chars(lines[i].as_slice(), c.as_slice()) {
            Some((k, v)) => {
                let kt = trim_chars(k.as_slice());
                let vt = trim_chars(v.as_slice());
                out.push((string_from_chars(kt.as_slice()), string_from_chars(vt.as_slice())));
                proof {
                    assert(pairs_view(out@) =~= pairs_view(before).push((kt@, vt@)));
                }
            },
            None => {},
        }
        i += 1;
    }
    out
}


// ---------------------------------------------------------------------------
// Words (`split_whitespace`)
// ---------------------------------------------------------------------------

/// Position of the first non-whitespace character at or after `i`.
pub open spec fn skip_space(s: Seq<char>, i: int) -> int
    decreases s.len() - i,
{
    if 0 <= i < s.len() && is_ws(s[i]) {
        skip_space(s, i + 1)
    } else {
        i
    }
}

/// End of the run of non-whitespace characters starting at `i`.
pub open spec fn word_stop(s: Seq<char>, i: int) -> int
    decreases s.len() - i,
{
    if 0 <= i < s.len() && !is_ws(s[i]) {
        word_stop(s, i + 1)
    } else {
        i
    }
}

pub proof fn lemma_skip_space(s: Seq<char>, i: int)
    requires
        0 <= i <= s.len(),
    ensures
        i <= skip_space(s, i) <= s.len(),
        skip_space(s, i) < s.len() ==> !is_ws(s[skip_space(s, i)]),
    decreases s.len() - i,
{
    if i < s.len() && is_ws(s[i]) {
        lemma_skip_space(s, i + 1);
    }
}

pub proof fn lemma_word_stop(s: Seq<char>, i: int)
    requires
        0 <= i <= s.len(),
    ensures
        i <= word_stop(s, i) <= s.len(),
        i < s.len() && !is_ws(s[i]) ==> i < word_stop(s, i),
    decreases s.len() - i,
{
    if i < s.len() && !is_ws(s[i]) {
        lemma_word_stop(s, i + 1);
    }
}

/// The whitespace-separated words of `s` from position `i` on.
pub open spec fn words_from(s: Seq<char>, i: int) -> Seq<Seq<char>>
    decreases s.len() - i,
{
    let j = skip_space(s, i);
    if i < 0 || i > s.len() || j >= s.len() {
        Seq::empty()
    } else {
        proof {
            lemma_skip_space(s, i);
            lemma_word_stop(s, j);
        }
        seq![s.subrange(j, word_stop(s, j))] + words_from(s, word_stop(s, j))
    }
}

/// `str::split_whitespace`.
pub open spec fn words_spec(s: Seq<char>) -> Seq<Seq<char>> {
    words_from(s, 0)
}

/// The words of `s` (see `words_spec`).
pub fn words_of(s: &[char]) -> (r: Vec<Vec<char>>)
    ensures
        vecs_view(r@) == words_spec(s@),
{
    let mut out: Vec<Vec<char>> = Vec::new();
    let mut i: usize = 0;
    loop
        invariant
            i <= s@.len(),
            vecs_view(out@) + words_from(s@, i as int) == words_spec(s@),
        decreases s@.len() - i,
    {
        let mut j = i;
        while j < s.len() && is_whitespace(s[j])
            invariant
                i <= j <= s@.len(),
                skip_space(s@, j as int) == skip_space(s@, i as int),
            decreases s@.len() - j,
        {
            j += 1;
        }
        if j >= s.len() {
            proof {
                assert(words_from(s@, i as int) =~= Seq::<Seq<char>>::empty());
                assert(vecs_view(out@) + Seq::<Seq<char>>::empty() =~= vecs_view(out@));
            }
            return out;
        }
        let mut e = j;
        while e < s.len() && !is_whitespace(s[e])
            invariant
                j <= e <= s@.len(),
                word_stop(s@, e as int) == word_stop(s@, j as int),
            decreases s@.len() - e,
        {
            e += 1;
        }
        proof {
            lemma_word_stop(s@, j as int);
        }
        let w = subrange_chars(s, j, e);
        let ghost before = vecs_view(out@);
        out.push(w);
        proof {
            assert(vecs_view(out@) =~= before.push(w@));
            assert(vecs_view(out@) + words_from(s@, e as int) =~= before + words_from(s@, i as int));
        }
        i = e;
    }
}

} // verus!
