//! Comparing two HTTP messages: status, headers and body lines.
use crate::css_escape::concat_chars;
use crate::http_text::{
    blank_line_chars, blank_line_of, colon, lines_of, lines_spec, split_once_chars,
    split_once_spec, vecs_view, words_of, words_spec,
};
use crate::text::{
    chars_eq, chars_of, starts_with_chars, starts_with_seq, string_from_chars, to_unicode_lowercase,
    trim_chars, trim_seq, unicode_lowercase,
};
use vstd::prelude::*;

verus! {

// ---------------------------------------------------------------------------
// Lexicographic order of texts (the order of `String`)
// ---------------------------------------------------------------------------

/// `a` sorts before `b`: by the first differing character, or `a` is a
/// proper prefix of `b`.
pub open spec fn lex_lt(a: Seq<char>, b: Seq<char>) -> bool
    decreases a.len(),
{
    if a.len() == 0 {
        b.len() > 0
    } else if b.len() == 0 {
        false
    } else if a[0] != b[0] {
        a[0] < b[0]
    } else {
        lex_lt(a.drop_first(), b.drop_first())
    }
}

pub proof fn lemma_lex_irreflexive(a: Seq<char>)
    ensures
        !lex_lt(a, a),
    decreases a.len(),
{
    if a.len() > 0 {
        lemma_lex_irreflexive(a.drop_first());
    }
}

pub proof fn lemma_lex_transitive(a: Seq<char>, b: Seq<char>, c: Seq<char>)
    requires
        lex_lt(a, b),
        lex_lt(b, c),
    ensures
        lex_lt(a, c),
    decreases a.len(),
{
    if a.len() > 0 && b.len() > 0 && c.len() > 0 && a[0] == b[0] && b[0] == c[0] {
        lemma_lex_transitive(a.drop_first(), b.drop_first(), c.drop_first());
    }
}

pub proof fn lemma_lex_total(a: Seq<char>, b: Seq<char>)
    ensures
        a == b || lex_lt(a, b) || lex_lt(b, a),
    decreases a.len(),
{
    if a.len() > 0 && b.len() > 0 && a[0] == b[0] {
        lemma_lex_total(a.drop_first(), b.drop_first());
        if a.drop_first() == b.drop_first() {
            assert(a =~= seq![a[0]] + a.drop_first());
            assert(b =~= seq![b[0]] + b.drop_first());
        }
    } else if a.len() == 0 && b.len() == 0 {
        assert(a =~= b);
    }
}

pub proof fn lemma_lex_asymmetric(a: Seq<char>, b: Seq<char>)
    requires
        lex_lt(a, b),
    ensures
        !lex_lt(b, a),
{
    if lex_lt(b, a) {
        lemma_lex_transitive(a, b, a);
        lemma_lex_irreflexive(a);
    }
}

/// Compares two texts in the order of `String`.
pub fn lex_less(a: &[char], b: &[char]) -> (r: bool)
    ensures
        r == lex_lt(a@, b@),
{
    let mut i: usize = 0;
    proof {
        assert(a@.subrange(0, a@.len() as int) =~= a@);
        assert(b@.subrange(0, b@.len() as int) =~= b@);
    }
    while i < a.len() && i < b.len() && a[i] == b[i]
        invariant
            i <= a@.len(),
            i <= b@.len(),
            lex_lt(a@.subrange(i as int, a@.len() as int), b@.subrange(i as int, b@.len() as int))
                == lex_lt(a@, b@),
        decreases a@.len() - i,
    {
        proof {
            let x = a@.subrange(i as int, a@.len() as int);
            let y = b@.subrange(i as int, b@.len() as int);
            assert(x.drop_first() =~= a@.subrange(i + 1, a@.len() as int));
            assert(y.drop_first() =~= b@.subrange(i + 1, b@.len() as int));
        }
        i += 1;
    }
    let ghost x = a@.subrange(i as int, a@.len() as int);
    let ghost y = b@.subrange(i as int, b@.len() as int);
    if i == a.len() {
        i < b.len()
    } else if i == b.len() {
        false
    } else {
        assert(x[0] == a@[i as int] && y[0] == b@[i as int]);
        a[i] < b[i]
    }
}

// ---------------------------------------------------------------------------
// Header maps: entries sorted by name, each name once
// ---------------------------------------------------------------------------

pub open spec fn entries_view(v: Seq<(String, String)>) -> Seq<(Seq<char>, Seq<char>)> {
    Seq::new(v.len(), |k: int| (v[k].0@, v[k].1@))
}

/// Entries strictly sorted by name.
pub open spec fn sorted_entries(e: Seq<(Seq<char>, Seq<char>)>) -> bool {
    forall|i: int, j: int| 0 <= i < j < e.len() ==> lex_lt(#[trigger] e[i].0, #[trigger] e[j].0)
}

/// The sorted entries `e` hold exactly the map `m`.
pub open spec fn represents(e: Seq<(Seq<char>, Seq<char>)>, m: Map<Seq<char>, Seq<char>>) -> bool {
    &&& sorted_entries(e)
    &&& forall|i: int| 0 <= i < e.len() ==> m.contains_key(#[trigger] e[i].0) && m[e[i].0] == e[i].1
    &&& forall|k: Seq<char>| #[trigger] m.contains_key(k) ==> exists|i: int| 0 <= i < e.len() && e[i].0 == k
}

/// Sets `name` to `value` in sorted entries.
#[verifier::loop_isolation(false)]
pub(crate) fn put_entry(entries: &mut Vec<(String, String)>, name: String, value: String, Ghost(m): Ghost<Map<Seq<char>, Seq<char>>>)
    requires
        represents(entries_view(old(entries)@), m),
    ensures
        represents(entries_view(final(entries)@), m.insert(name@, value@)),
{
    let nc = chars_of(name.as_str());
    let mut i: usize = 0;
    while i < entries.len()
        invariant
            i <= entries@.len(),
            represents(entries_view(entries@), m),
            nc@ == name@,
            forall|k: int| 0 <= k < i ==> lex_lt(#[trigger] entries@[k].0@, name@),
        decreases entries@.len() - i,
    {
        let kc = chars_of(entries[i].0.as_str());
        if !lex_less(kc.as_slice(), nc.as_slice()) {
            break;
        }
        i += 1;
    }
    let ghost e0 = entries_view(entries@);
    if i < entries.len() && chars_eq(chars_of(entries[i].0.as_str()).as_slice(), nc.as_slice()) {
        let ghost key = entries@[i as int].0;
        entries.set(i, (name, value));
        proof {
            let e1 = entries_view(entries@);
            assert forall|a: int, b: int| 0 <= a < b < e1.len() implies lex_lt(#[trigger] e1[a].0, #[trigger] e1[b].0) by {
                assert(e0[a].0 == e1[a].0 && e0[b].0 == e1[b].0);
            }
            let m2 = m.insert(name@, value@);
            assert forall|k: Seq<char>| #[trigger] m2.contains_key(k) implies exists|j: int| 0 <= j < e1.len() && e1[j].0 == k by {
                if k != name@ {
                    let j = choose|j: int| 0 <= j < e0.len() && e0[j].0 == k;
                    assert(e1[j].0 == k);
                } else {
                    assert(e1[i as int].0 == k);
                }
            }
            assert forall|j: int| 0 <= j < e1.len() implies m2.contains_key(#[trigger] e1[j].0) && m2[e1[j].0] == e1[j].1 by {
                if j != i {
                    assert(e1[j] == e0[j]);
                    if e0[j].0 == name@ {
                        assert(lex_lt(e0[j].0, e0[i as int].0) || lex_lt(e0[i as int].0, e0[j].0));
                        lemma_lex_irreflexive(name@);
                    }
                }
            }
        }
    } else {
        proof {
            if i < entries@.len() {
                lemma_lex_total(entries@[i as int].0@, name@);
                assert(lex_lt(name@, e0[i as int].0));
            }
        }
        entries.insert(i, (name, value));
        proof {
            let e1 = entries_view(entries@);
            assert forall|a: int| 0 <= a < e1.len() implies #[trigger] e1[a] == (if a < i {
                e0[a]
            } else if a == i {
                (name@, value@)
            } else {
                e0[a - 1]
            }) by {}
            assert forall|a: int, b: int| 0 <= a < b < e1.len() implies lex_lt(#[trigger] e1[a].0, #[trigger] e1[b].0) by {
                if b < i {
                } else if b == i {
                } else if a == i {
                    if b - 1 > i {
                        lemma_lex_transitive(name@, e0[i as int].0, e0[b - 1].0);
                    }
                } else if a < i {
                    if b - 1 >= i {
                        lemma_lex_transitive(e0[a].0, name@, e0[i as int].0);
                        if b - 1 > i {
                            lemma_lex_transitive(e0[a].0, e0[i as int].0, e0[b - 1].0);
                        }
                    }
                } else {
                }
            }
            let m2 = m.insert(name@, value@);
            assert forall|j: int| 0 <= j < e1.len() implies m2.contains_key(#[trigger] e1[j].0) && m2[e1[j].0] == e1[j].1 by {
                if j < i {
                    assert(lex_lt(e0[j].0, name@));
                    lemma_lex_irreflexive(name@);
                } else if j > i {
                    if e0[j - 1].0 == name@ {
                        if j - 1 > i {
                            lemma_lex_transitive(name@, e0[i as int].0, e0[j - 1].0);
                        }
                        lemma_lex_irreflexive(name@);
                    }
                }
            }
            assert forall|k: Seq<char>| #[trigger] m2.contains_key(k) implies exists|j: int| 0 <= j < e1.len() && e1[j].0 == k by {
                if k != name@ {
                    let j = choose|j: int| 0 <= j < e0.len() && e0[j].0 == k;
                    if j < i {
                        assert(e1[j].0 == k);
                    } else {
                        assert(e1[j + 1].0 == k);
                    }
                } else {
                    assert(e1[i as int].0 == k);
                }
            }
        }
    }
}


// ---------------------------------------------------------------------------
// Status codes (`str::parse::<u32>`)
// ---------------------------------------------------------------------------

pub open spec fn digit_value(c: char) -> nat {
    (c as int - '0' as int) as nat
}

pub open spec fn digits_value(d: Seq<char>) -> nat
    decreases d.len(),
{
    if d.len() == 0 {
        0
    } else {
        digits_value(d.drop_last()) * 10 + digit_value(d.last())
    }
}

pub open spec fn all_digits(d: Seq<char>) -> bool {
    forall|k: int| 0 <= k < d.len() ==> '0' <= #[trigger] d[k] <= '9'
}

/// `str::parse::<u32>`: an optional `+` and decimal digits that fit.
pub open spec fn u32_parse(s: Seq<char>) -> Option<u32> {
    let d = if s.len() > 0 && s[0] == '+' {
        s.drop_first()
    } else {
        s
    };
    if d.len() > 0 && all_digits(d) && digits_value(d) <= u32::MAX {
        Some(digits_value(d) as u32)
    } else {
        None
    }
}

pub proof fn lemma_digits_grow(d: Seq<char>, k: int)
    requires
        0 <= k <= d.len(),
        all_digits(d),
    ensures
        digits_value(d.subrange(0, k)) <= digits_value(d),
    decreases d.len() - k,
{
    if k < d.len() {
        lemma_digits_grow(d, k + 1);
        let p = d.subrange(0, k + 1);
        assert(p.drop_last() =~= d.subrange(0, k));
    } else {
        assert(d.subrange(0, k) =~= d);
    }
}

/// `str::parse::<u32>(..).ok()` on characters.
#[verifier::loop_isolation(false)]
pub fn parse_u32(s: &[char]) -> (r: Option<u32>)
    ensures
        r == u32_parse(s@),
{
    let start: usize = if s.len() > 0 && s[0] == '+' {
        1
    } else {
        0
    };
    let ghost d = s@.subrange(start as int, s@.len() as int);
    proof {
        if start == 1 {
            assert(d =~= s@.drop_first());
        } else {
            assert(d =~= s@);
        }
    }
    if start >= s.len() {
        return None;
    }
    let mut v: u64 = 0;
    let mut i = start;
    proof {
        assert(d.subrange(0, 0) =~= Seq::<char>::empty());
    }
    while i < s.len()
        invariant
            start <= i <= s@.len(),
            d == s@.subrange(start as int, s@.len() as int),
            v as nat == digits_value(d.subrange(0, i - start)),
            v <= u32::MAX,
            all_digits(d.subrange(0, i - start)),
        decreases s@.len() - i,
    {
        let c = s[i];
        proof {
            let p = d.subrange(0, i - start + 1);
            assert(p.drop_last() =~= d.subrange(0, i - start));
            assert(p.last() == c);
        }
        if !('0' <= c && c <= '9') {
            assert(!all_digits(d)) by {
                assert(d[i - start] == c);
            }
            return None;
        }
        v = v * 10 + (c as u64 - '0' as u64);
        i += 1;
        proof {
            let p = d.subrange(0, i - start);
            assert forall|k: int| 0 <= k < p.len() implies '0' <= #[trigger] p[k] <= '9' by {
                if k < p.len() - 1 {
                    assert(p[k] == d.subrange(0, i - start - 1)[k]);
                }
            }
        }
        if v > u32::MAX as u64 {
            proof {
                if all_digits(d) {
                    lemma_digits_grow(d, i - start);
                }
            }
            return None;
        }
    }
    proof {
        assert(d.subrange(0, d.len() as int) =~= d);
    }
    Some(v as u32)
}

// ---------------------------------------------------------------------------
// Parsing a message
// ---------------------------------------------------------------------------

/// Head and body of a message, split at the first blank line (all head when
/// there is none).
pub open spec fn message_split(raw: Seq<char>) -> (Seq<char>, Seq<char>) {
    match split_once_spec(raw, blank_line_of(raw)) {
        Some((h, b)) => (h, b),
        None => (raw, Seq::empty()),
    }
}

/// The status code of a response start line.
pub open spec fn status_of_line(line: Seq<char>) -> Option<u32> {
    if starts_with_seq(line, "HTTP/"@) && words_spec(line).len() >= 2 {
        u32_parse(words_spec(line)[1])
    } else {
        None
    }
}

pub open spec fn message_status(raw: Seq<char>) -> Option<u32> {
    let ls = lines_spec(message_split(raw).0);
    if ls.len() > 0 {
        status_of_line(ls[0])
    } else {
        None
    }
}

/// Header lines folded into a map: names trimmed and lowercased, values
/// trimmed, a later line winning; lines without `:` are skipped.
pub open spec fn header_map(lines: Seq<Seq<char>>) -> Map<Seq<char>, Seq<char>>
    decreases lines.len(),
{
    if lines.len() == 0 {
        Map::empty()
    } else {
        let m = header_map(lines.drop_last());
        match split_once_spec(lines.last(), colon()) {
            Some((k, v)) => m.insert(unicode_lowercase(trim_seq(k)), trim_seq(v)),
            None => m,
        }
    }
}

/// The headers of a message: the lines of its head after the start line.
pub open spec fn message_headers(raw: Seq<char>) -> Map<Seq<char>, Seq<char>> {
    let ls = lines_spec(message_split(raw).0);
    if ls.len() == 0 {
        Map::empty()
    } else {
        header_map(ls.drop_first())
    }
}

/// Splits a message into its headers (as sorted entries), its body and the
/// status code of its start line.
pub fn parse_http_message(raw: &str) -> (r: (Vec<(String, String)>, String, Option<u32>))
    ensures
        represents(entries_view(r.0@), message_headers(raw@)),
        r.1@ == message_split(raw@).1,
        r.2 == message_status(raw@),
{
    let s = chars_of(raw);
    let d = blank_line_chars(s.as_slice());
    let (head, body) = match split_once_chars(s.as_slice(), d.as_slice()) {
        Some((h, b)) => (h, b),
        None => (s, Vec::new()),
    };
    proof {
        assert(body@ == message_split(raw@).1);
    }
    let lines = lines_of(head.as_slice());
    let mut status: Option<u32> = None;
    if lines.len() > 0 {
        let first = &lines[0];
        assert(first@ == lines_spec(head@)[0]);
        if starts_with_chars(first.as_slice(), chars_of("HTTP/").as_slice()) {
            let parts = words_of(first.as_slice());
            if parts.len() >= 2 {
                assert(parts@[1]@ == words_spec(first@)[1]);
                status = parse_u32(parts[1].as_slice());
            }
        }
    }
    let mut entries: Vec<(String, String)> = Vec::new();
    let c = chars_of(":");
    proof {
        reveal_strlit(":");
        assert(c@ =~= colon());
    }
    let mut i: usize = 1;
    proof {
        if lines@.len() > 0 {
            assert(vecs_view(lines@).drop_first().subrange(0, 0) =~= Seq::<Seq<char>>::empty());
        }
    }
    while i < lines.len()
        invariant
            1 <= i,
            i <= lines@.len() || lines@.len() == 0,
            c@ == colon(),
            vecs_view(lines@) == lines_spec(head@),
            lines@.len() > 0 ==> represents(
                entries_view(entries@),
                header_map(vecs_view(lines@).drop_first().subrange(0, i - 1)),
            ),
            lines@.len() == 0 ==> entries@.len() == 0,
        decreases lines@.len() - i,
    {
        let ghost m = header_map(vecs_view(lines@).drop_first().subrange(0, i - 1));
        proof {
            let p = vecs_view(lines@).drop_first().subrange(0, i as int);
            assert(p.drop_last() =~= vecs_view(lines@).drop_first().subrange(0, i - 1));
            assert(p.last() == lines@[i as int]@);
        }
        match split_once_chars(lines[i].as_slice(), c.as_slice()) {
            Some((k, v)) => {
                let kt = trim_chars(k.as_slice());
                let kl = to_unicode_lowercase(kt.as_slice());
                let vt = trim_chars(v.as_slice());
                put_entry(
                    &mut entries,
                    string_from_chars(kl.as_slice()),
                    string_from_chars(vt.as_slice()),
                    Ghost(m),
                );
            },
            None => {},
        }
        i += 1;
    }
    proof {
        if lines@.len() > 0 {
            assert(vecs_view(lines@).drop_first().subrange(0, lines@.len() - 1) =~= vecs_view(
                lines@,
            ).drop_first());
        } else {
            assert(entries_view(entries@) =~= Seq::<(Seq<char>, Seq<char>)>::empty());
        }
    }
    (entries, string_from_chars(body.as_slice()), status)
}


// ---------------------------------------------------------------------------
// Header differences
// ---------------------------------------------------------------------------

pub open spec fn has_key(e: Seq<(Seq<char>, Seq<char>)>, k: Seq<char>) -> bool {
    exists|p: int| 0 <= p < e.len() && #[trigger] e[p].0 == k
}

/// The value of `k` in entries with distinct names.
pub open spec fn value_of(e: Seq<(Seq<char>, Seq<char>)>, k: Seq<char>) -> Seq<char> {
    e[choose|p: int| 0 <= p < e.len() && #[trigger] e[p].0 == k].1
}

pub proof fn lemma_sorted_value(e: Seq<(Seq<char>, Seq<char>)>, p: int)
    requires
        sorted_entries(e),
        0 <= p < e.len(),
    ensures
        has_key(e, e[p].0),
        value_of(e, e[p].0) == e[p].1,
{
    let q = choose|q: int| 0 <= q < e.len() && #[trigger] e[q].0 == e[p].0;
    if q != p {
        if q < p {
            assert(lex_lt(e[q].0, e[p].0));
        } else {
            assert(lex_lt(e[p].0, e[q].0));
        }
        lemma_lex_irreflexive(e[p].0);
    }
}

pub open spec fn opt_text(o: Option<String>) -> Option<Seq<char>> {
    match o {
        Some(s) => Some(s@),
        None => None,
    }
}

/// `d` correctly reports how header `d.name` differs between `a` and `b`.
pub open spec fn diff_entry_ok(
    d: crate::diff_types::HeaderDiffEntry,
    a: Seq<(Seq<char>, Seq<char>)>,
    b: Seq<(Seq<char>, Seq<char>)>,
) -> bool {
    let k = d.name@;
    if has_key(a, k) && has_key(b, k) {
        &&& value_of(a, k) != value_of(b, k)
        &&& opt_text(d.value_a) == Some(value_of(a, k))
        &&& opt_text(d.value_b) == Some(value_of(b, k))
        &&& d.change_type@ == "modified"@
    } else if has_key(a, k) {
        &&& opt_text(d.value_a) == Some(value_of(a, k))
        &&& d.value_b is None
        &&& d.change_type@ == "removed"@
    } else if has_key(b, k) {
        &&& d.value_a is None
        &&& opt_text(d.value_b) == Some(value_of(b, k))
        &&& d.change_type@ == "added"@
    } else {
        false
    }
}

/// Header `k` is present in `a` or `b` and not the same in both.
pub open spec fn header_changed(
    a: Seq<(Seq<char>, Seq<char>)>,
    b: Seq<(Seq<char>, Seq<char>)>,
    k: Seq<char>,
) -> bool {
    (has_key(a, k) || has_key(b, k)) && !(has_key(a, k) && has_key(b, k) && value_of(a, k)
        == value_of(b, k))
}

pub open spec fn diff_names(v: Seq<crate::diff_types::HeaderDiffEntry>) -> Seq<Seq<char>> {
    Seq::new(v.len(), |i: int| v[i].name@)
}

/// Comparing headers with themselves finds no difference.
pub proof fn lemma_identical_headers_unchanged(e: Seq<(Seq<char>, Seq<char>)>)
    ensures
        forall|k: Seq<char>| !#[trigger] header_changed(e, e, k),
        forall|d: crate::diff_types::HeaderDiffEntry| !#[trigger] diff_entry_ok(d, e, e),
{
}

fn string_clone(s: &String) -> (r: String)
    ensures
        r@ == s@,
{
    s.clone()
}

fn text_of(lit: &str) -> (r: String)
    ensures
        r@ == lit@,
{
    lit.to_owned()
}

/// The headers that differ between two sorted header lists, in name order:
/// each with both values and `modified`, `removed` or `added`.
#[verifier::loop_isolation(false)]
pub fn diff_headers(a: &Vec<(String, String)>, b: &Vec<(String, String)>) -> (r: Vec<
    crate::diff_types::HeaderDiffEntry,
>)
    requires
        sorted_entries(entries_view(a@)),
        sorted_entries(entries_view(b@)),
    ensures
        forall|i: int, j: int|
            0 <= i < j < r@.len() ==> lex_lt(#[trigger] r@[i].name@, #[trigger] r@[j].name@),
        forall|i: int|
            0 <= i < r@.len() ==> diff_entry_ok(#[trigger] r@[i], entries_view(a@), entries_view(b@)),
        forall|k: Seq<char>|
            #[trigger] header_changed(entries_view(a@), entries_view(b@), k) ==> diff_names(r@).contains(k),
{
    let ghost ea = entries_view(a@);
    let ghost eb = entries_view(b@);
    let mut out: Vec<crate::diff_types::HeaderDiffEntry> = Vec::new();
    let mut i: usize = 0;
    let mut j: usize = 0;
    while i < a.len() || j < b.len()
        invariant
            i <= a@.len(),
            j <= b@.len(),
            ea == entries_view(a@),
            eb == entries_view(b@),
            sorted_entries(ea),
            sorted_entries(eb),
            forall|p: int, q: int| 0 <= p < i && j <= q < eb.len() ==> lex_lt(ea[p].0, eb[q].0),
            forall|p: int, q: int| 0 <= q < j && i <= p < ea.len() ==> lex_lt(eb[q].0, ea[p].0),
            forall|x: int, y: int|
                0 <= x < y < out@.len() ==> lex_lt(#[trigger] out@[x].name@, #[trigger] out@[y].name@),
            forall|x: int| 0 <= x < out@.len() ==> diff_entry_ok(#[trigger] out@[x], ea, eb),
            forall|x: int, p: int|
                0 <= x < out@.len() && i <= p < ea.len() ==> lex_lt(#[trigger] out@[x].name@, #[trigger] ea[p].0),
            forall|x: int, q: int|
                0 <= x < out@.len() && j <= q < eb.len() ==> lex_lt(#[trigger] out@[x].name@, #[trigger] eb[q].0),
            forall|p: int|
                0 <= p < i && header_changed(ea, eb, #[trigger] ea[p].0) ==> diff_names(out@).contains(ea[p].0),
            forall|q: int|
                0 <= q < j && header_changed(ea, eb, #[trigger] eb[q].0) ==> diff_names(out@).contains(eb[q].0),
        decreases a@.len() + b@.len() - i - j,
    {
        let take_a: bool;
        let take_b: bool;
        if j >= b.len() {
            take_a = true;
            take_b = false;
        } else if i >= a.len() {
            take_a = false;
            take_b = true;
        } else {
            let ka = chars_of(a[i].0.as_str());
            let kb = chars_of(b[j].0.as_str());
            if lex_less(ka.as_slice(), kb.as_slice()) {
                take_a = true;
                take_b = false;
            } else if lex_less(kb.as_slice(), ka.as_slice()) {
                take_a = false;
                take_b = true;
            } else {
                proof {
                    lemma_lex_total(ka@, kb@);
                }
                take_a = true;
                take_b = true;
            }
        }
        let ghost old_out = out@;
        if take_a && !take_b {
            let ghost k = ea[i as int].0;
            proof {
                lemma_sorted_value(ea, i as int);
                assert(!has_key(eb, k)) by {
                    if has_key(eb, k) {
                        let q = choose|q: int| 0 <= q < eb.len() && #[trigger] eb[q].0 == k;
                        if q < j {
                            assert(lex_lt(eb[q].0, ea[i as int].0));
                        } else {
                            if q > j {
                                lemma_lex_transitive(k, eb[j as int].0, eb[q].0);
                            }
                        }
                        lemma_lex_irreflexive(k);
                    }
                }
            }
            let d = crate::diff_types::HeaderDiffEntry {
                name: string_clone(&a[i].0),
                value_a: Some(string_clone(&a[i].1)),
                value_b: None,
                change_type: text_of("removed"),
            };
            out.push(d);
            i += 1;
        } else if take_b && !take_a {
            let ghost k = eb[j as int].0;
            proof {
                lemma_sorted_value(eb, j as int);
                assert(!has_key(ea, k)) by {
                    if has_key(ea, k) {
                        let p = choose|p: int| 0 <= p < ea.len() && #[trigger] ea[p].0 == k;
                        if p < i {
                            assert(lex_lt(ea[p].0, eb[j as int].0));
                        } else {
                            if p > i {
                                lemma_lex_transitive(k, ea[i as int].0, ea[p].0);
                            }
                        }
                        lemma_lex_irreflexive(k);
                    }
                }
            }
            let d = crate::diff_types::HeaderDiffEntry {
                name: string_clone(&b[j].0),
                value_a: None,
                value_b: Some(string_clone(&b[j].1)),
                change_type: text_of("added"),
            };
            out.push(d);
            j += 1;
        } else {
            proof {
                lemma_sorted_value(ea, i as int);
                lemma_sorted_value(eb, j as int);
            }
            let va = chars_of(a[i].1.as_str());
            let vb = chars_of(b[j].1.as_str());
            if !chars_eq(va.as_slice(), vb.as_slice()) {
                let d = crate::diff_types::HeaderDiffEntry {
                    name: string_clone(&a[i].0),
                    value_a: Some(string_clone(&a[i].1)),
                    value_b: Some(string_clone(&b[j].1)),
                    change_type: text_of("modified"),
                };
                out.push(d);
            }
            i += 1;
            j += 1;
        }
        proof {
            assert forall|p: int, q: int| 0 <= p < i && j <= q < eb.len() implies lex_lt(ea[p].0, eb[q].0) by {
                if p == i - 1 && take_a {
                    if take_b {
                        assert(ea[p].0 == eb[j - 1].0);
                        assert(lex_lt(eb[j - 1].0, eb[q].0));
                    } else if j < eb.len() {
                        if q > j {
                            lemma_lex_transitive(ea[p].0, eb[j as int].0, eb[q].0);
                        }
                    }
                }
            }
            assert forall|p: int, q: int| 0 <= q < j && i <= p < ea.len() implies lex_lt(eb[q].0, ea[p].0) by {
                if q == j - 1 && take_b {
                    if take_a {
                        assert(ea[i - 1].0 == eb[q].0);
                        assert(lex_lt(ea[i - 1].0, ea[p].0));
                    } else if i < ea.len() {
                        if p > i {
                            lemma_lex_transitive(eb[q].0, ea[i as int].0, ea[p].0);
                        }
                    }
                }
            }
            assert forall|x: int, y: int|
                0 <= x < y < out@.len() implies lex_lt(#[trigger] out@[x].name@, #[trigger] out@[y].name@) by {
                if y == old_out.len() && x < old_out.len() {
                    assert(out@[x] == old_out[x]);
                }
            }
            assert forall|x: int| 0 <= x < out@.len() implies diff_entry_ok(#[trigger] out@[x], ea, eb) by {
                if x < old_out.len() {
                    assert(out@[x] == old_out[x]);
                }
            }
            assert forall|x: int, p: int|
                0 <= x < out@.len() && i <= p < ea.len() implies lex_lt(#[trigger] out@[x].name@, #[trigger] ea[p].0) by {
                if x < old_out.len() {
                    assert(out@[x] == old_out[x]);
                } else {
                    if take_a {
                        assert(lex_lt(ea[i - 1].0, ea[p].0));
                    } else {
                        assert(lex_lt(eb[j - 1].0, ea[p].0));
                    }
                }
            }
            assert forall|x: int, q: int|
                0 <= x < out@.len() && j <= q < eb.len() implies lex_lt(#[trigger] out@[x].name@, #[trigger] eb[q].0) by {
                if x < old_out.len() {
                    assert(out@[x] == old_out[x]);
                } else {
                    if take_b {
                        assert(lex_lt(eb[j - 1].0, eb[q].0));
                    } else {
                        assert(lex_lt(ea[i - 1].0, eb[q].0));
                    }
                }
            }
            assert forall|p: int|
                0 <= p < i && header_changed(ea, eb, #[trigger] ea[p].0) implies diff_names(out@).contains(ea[p].0) by {
                if p < i - 1 || !take_a {
                    if p < i - 1 || !take_a {
                        let w = choose|w: int| 0 <= w < old_out.len() && diff_names(old_out)[w] == ea[p].0;
                        assert(diff_names(out@)[w] == ea[p].0);
                    }
                } else {
                    assert(diff_names(out@)[out@.len() - 1] == ea[p].0);
                }
            }
            assert forall|q: int|
                0 <= q < j && header_changed(ea, eb, #[trigger] eb[q].0) implies diff_names(out@).contains(eb[q].0) by {
                if q < j - 1 || !take_b {
                    let w = choose|w: int| 0 <= w < old_out.len() && diff_names(old_out)[w] == eb[q].0;
                    assert(diff_names(out@)[w] == eb[q].0);
                } else {
                    if take_a {
                        assert(eb[q].0 == ea[i - 1].0);
                    }
                    assert(diff_names(out@)[out@.len() - 1] == eb[q].0);
                }
            }
        }
    }
    proof {
        assert forall|k: Seq<char>| #[trigger] header_changed(ea, eb, k) implies diff_names(out@).contains(k) by {
            if has_key(ea, k) {
                let p = choose|p: int| 0 <= p < ea.len() && #[trigger] ea[p].0 == k;
                assert(header_changed(ea, eb, ea[p].0));
            } else {
                let q = choose|q: int| 0 <= q < eb.len() && #[trigger] eb[q].0 == k;
                assert(header_changed(ea, eb, eb[q].0));
            }
        }
    }
    out
}


// ---------------------------------------------------------------------------
// Line diff
// ---------------------------------------------------------------------------

/// What line `i` contributes, given `dc` differences so far, and the new
/// count: differing lines as `- a` / `+ b`, equal lines as context only
/// while between one and four differences have been seen.
pub open spec fn diff_step(la: Seq<Seq<char>>, lb: Seq<Seq<char>>, i: int, dc: nat) -> (Seq<char>, nat) {
    if i < la.len() && i < lb.len() {
        if la[i] == lb[i] {
            (if 0 < dc < 5 {
                "  "@ + la[i] + seq!['\n']
            } else {
                Seq::empty()
            }, dc)
        } else {
            ("- "@ + la[i] + seq!['\n'] + "+ "@ + lb[i] + seq!['\n'], dc + 1)
        }
    } else if i < la.len() {
        ("- "@ + la[i] + seq!['\n'], dc + 1)
    } else if i < lb.len() {
        ("+ "@ + lb[i] + seq!['\n'], dc + 1)
    } else {
        (Seq::empty(), dc)
    }
}

pub open spec fn diff_from(la: Seq<Seq<char>>, lb: Seq<Seq<char>>, i: int, dc: nat) -> Seq<char>
    decreases la.len() + lb.len() - i,
{
    if i < 0 || (i >= la.len() && i >= lb.len()) {
        Seq::empty()
    } else {
        let (piece, dc2) = diff_step(la, lb, i, dc);
        piece + diff_from(la, lb, i + 1, dc2)
    }
}

/// The line-by-line difference of two texts, or a note that they agree.
pub open spec fn line_diff_spec(a: Seq<char>, b: Seq<char>) -> Seq<char> {
    let out = diff_from(lines_spec(a), lines_spec(b), 0, 0);
    if out.len() == 0 {
        "--- Responses are identical ---"@
    } else {
        out
    }
}

pub proof fn lemma_diff_from_identical(l: Seq<Seq<char>>, i: int)
    requires
        0 <= i,
    ensures
        diff_from(l, l, i, 0) == Seq::<char>::empty(),
    decreases l.len() - i,
{
    if i < l.len() {
        lemma_diff_from_identical(l, i + 1);
        assert(diff_step(l, l, i, 0) == (Seq::<char>::empty(), 0nat));
    }
}

/// A text compared with itself is reported identical.
pub proof fn lemma_line_diff_identical(a: Seq<char>)
    ensures
        line_diff_spec(a, a) == "--- Responses are identical ---"@,
{
    lemma_diff_from_identical(lines_spec(a), 0);
}

/// Lines `0..i` of `la` and `lb` exist in both and are equal.
pub open spec fn same_lines_before(la: Seq<Seq<char>>, lb: Seq<Seq<char>>, i: int) -> bool {
    &&& 0 <= i <= la.len()
    &&& i <= lb.len()
    &&& forall|k: int| 0 <= k < i ==> #[trigger] la[k] == lb[k]
}

/// Before the first difference, equal lines add nothing.
proof fn lemma_diff_skips_equal_prefix(la: Seq<Seq<char>>, lb: Seq<Seq<char>>, j: int, i: int)
    requires
        0 <= j <= i,
        same_lines_before(la, lb, i),
    ensures
        diff_from(la, lb, j, 0) == diff_from(la, lb, i, 0),
    decreases i - j,
{
    if j < i {
        lemma_diff_skips_equal_prefix(la, lb, j + 1, i);
        assert(la[j] == lb[j]);
        assert(diff_step(la, lb, j, 0) == (Seq::<char>::empty(), 0nat));
        assert(diff_from(la, lb, j, 0) =~= Seq::<char>::empty() + diff_from(la, lb, j + 1, 0));
    }
}

/// The first place where the line lists differ: the first line of `a` that
/// is not exactly (character for character) the line of `b` at the same
/// position, or where one text runs out of lines.  The diff begins there:
/// with `- ` and the line of `a`, then `+ ` and the line of `b`, each ending
/// in a newline (only the line that exists, when one text has run out).
pub proof fn lemma_line_diff_first_change(a: Seq<char>, b: Seq<char>, i: int)
    requires
        same_lines_before(lines_spec(a), lines_spec(b), i),
        i < lines_spec(a).len() || i < lines_spec(b).len(),
        i < lines_spec(a).len() && i < lines_spec(b).len() ==> lines_spec(a)[i] != lines_spec(b)[i],
    ensures
        ({
            let (la, lb) = (lines_spec(a), lines_spec(b));
            let first = if i < la.len() && i < lb.len() {
                "- "@ + la[i] + seq!['\n'] + "+ "@ + lb[i] + seq!['\n']
            } else if i < la.len() {
                "- "@ + la[i] + seq!['\n']
            } else {
                "+ "@ + lb[i] + seq!['\n']
            };
            &&& first.len() <= line_diff_spec(a, b).len()
            &&& line_diff_spec(a, b).subrange(0, first.len() as int) == first
        }),
{
    let (la, lb) = (lines_spec(a), lines_spec(b));
    lemma_diff_skips_equal_prefix(la, lb, 0, i);
    let out = diff_from(la, lb, i, 0);
    let piece = diff_step(la, lb, i, 0).0;
    assert(out == piece + diff_from(la, lb, i + 1, diff_step(la, lb, i, 0).1));
    assert(piece.len() > 0) by {
        reveal_strlit("- ");
        reveal_strlit("+ ");
    }
    assert(out.subrange(0, piece.len() as int) =~= piece);
}

/// After the first differing pair of lines, an equal line that follows is
/// shown as context, indented by two spaces.
pub proof fn lemma_line_diff_context(a: Seq<char>, b: Seq<char>, i: int)
    requires
        same_lines_before(lines_spec(a), lines_spec(b), i),
        i + 1 < lines_spec(a).len(),
        i + 1 < lines_spec(b).len(),
        lines_spec(a)[i] != lines_spec(b)[i],
        lines_spec(a)[i + 1] == lines_spec(b)[i + 1],
    ensures
        ({
            let (la, lb) = (lines_spec(a), lines_spec(b));
            let shown = "- "@ + la[i] + seq!['\n'] + "+ "@ + lb[i] + seq!['\n'] + "  "@ + la[i + 1] + seq!['\n'];
            &&& shown.len() <= line_diff_spec(a, b).len()
            &&& line_diff_spec(a, b).subrange(0, shown.len() as int) == shown
        }),
{
    let (la, lb) = (lines_spec(a), lines_spec(b));
    lemma_diff_skips_equal_prefix(la, lb, 0, i);
    let p1 = "- "@ + la[i] + seq!['\n'] + "+ "@ + lb[i] + seq!['\n'];
    let p2 = "  "@ + la[i + 1] + seq!['\n'];
    assert(diff_step(la, lb, i, 0) == (p1, 1nat));
    assert(diff_step(la, lb, i + 1, 1) == (p2, 1nat));
    let out = diff_from(la, lb, i, 0);
    assert(out == p1 + diff_from(la, lb, i + 1, 1));
    assert(diff_from(la, lb, i + 1, 1) == p2 + diff_from(la, lb, i + 2, 1));
    assert(p1.len() > 0) by {
        reveal_strlit("- ");
    }
    let shown = p1 + p2;
    assert(out.subrange(0, shown.len() as int) =~= shown);
}

/// Two texts are reported identical exactly when they have the same lines,
/// character for character.
pub proof fn lemma_line_diff_identical_iff(a: Seq<char>, b: Seq<char>)
    ensures
        (line_diff_spec(a, b) == "--- Responses are identical ---"@) <==> (lines_spec(a) == lines_spec(b)),
{
    let (la, lb) = (lines_spec(a), lines_spec(b));
    if la == lb {
        lemma_line_diff_identical(a);
        assert(line_diff_spec(a, b) == line_diff_spec(a, a));
    } else {
        let i = first_difference(la, lb, 0);
        lemma_line_diff_first_change(a, b, i);
        let out = line_diff_spec(a, b);
        reveal_strlit("- ");
        reveal_strlit("+ ");
        reveal_strlit("--- Responses are identical ---");
        let first_len: int = if i < la.len() && i < lb.len() {
            2int + la[i].len() + 1 + 2 + lb[i].len() + 1
        } else if i < la.len() {
            2int + la[i].len() + 1
        } else {
            2int + lb[i].len() + 1
        };
        assert(out.subrange(0, first_len)[1] == ' ');
        assert(out[1] == ' ');
        assert("--- Responses are identical ---"@[1] == '-');
    }
}

/// The first position from `j` on where the line lists differ, given that
/// they are not equal and agree before `j`.
proof fn first_difference(la: Seq<Seq<char>>, lb: Seq<Seq<char>>, j: int) -> (i: int)
    requires
        la != lb,
        same_lines_before(la, lb, j),
    ensures
        same_lines_before(la, lb, i),
        i < la.len() || i < lb.len(),
        i < la.len() && i < lb.len() ==> la[i] != lb[i],
    decreases la.len() - j,
{
    if j < la.len() && j < lb.len() && la[j] == lb[j] {
        first_difference(la, lb, j + 1)
    } else {
        if !(j < la.len() || j < lb.len()) {
            assert(la =~= lb);
        }
        j
    }
}

fn lit_line(prefix: &str, line: &Vec<char>) -> (r: Vec<char>)
    ensures
        r@ == prefix@ + line@ + seq!['\n'],
{
    let mut v = concat_chars(chars_of(prefix), line.as_slice());
    v.push('\n');
    v
}

/// Compares two texts line by line (see `line_diff_spec`).
pub fn generate_line_diff(a: &str, b: &str) -> (r: String)
    ensures
        r@ == line_diff_spec(a@, b@),
{
    let la = lines_of(chars_of(a).as_slice());
    let lb = lines_of(chars_of(b).as_slice());
    let ghost sa = vecs_view(la@);
    let ghost sb = vecs_view(lb@);
    let mut out: Vec<char> = Vec::new();
    let mut dc: usize = 0;
    let mut i: usize = 0;
    while i < la.len() || i < lb.len()
        invariant
            sa == vecs_view(la@),
            sb == vecs_view(lb@),
            sa == lines_spec(a@),
            sb == lines_spec(b@),
            dc <= i,
            i <= la@.len() || i <= lb@.len(),
            out@ + diff_from(sa, sb, i as int, dc as nat) == diff_from(sa, sb, 0, 0),
        decreases la@.len() + lb@.len() - i,
    {
        let ghost before = out@;
        let ghost dc0 = dc as nat;
        let ghost step = diff_step(sa, sb, i as int, dc as nat);
        if i < la.len() && i < lb.len() {
            assert(sa[i as int] == la@[i as int]@ && sb[i as int] == lb@[i as int]@);
            if chars_eq(la[i].as_slice(), lb[i].as_slice()) {
                if dc > 0 && dc < 5 {
                    let piece = lit_line("  ", &la[i]);
                    out = concat_chars(out, piece.as_slice());
                }
            } else {
                let p1 = lit_line("- ", &la[i]);
                let p2 = lit_line("+ ", &lb[i]);
                out = concat_chars(out, p1.as_slice());
                out = concat_chars(out, p2.as_slice());
                dc += 1;
            }
        } else if i < la.len() {
            assert(sa[i as int] == la@[i as int]@);
            let p1 = lit_line("- ", &la[i]);
            out = concat_chars(out, p1.as_slice());
            dc += 1;
        } else {
            assert(sb[i as int] == lb@[i as int]@);
            let p2 = lit_line("+ ", &lb[i]);
            out = concat_chars(out, p2.as_slice());
            dc += 1;
        }
        proof {
            assert(out@ =~= before + step.0);
            assert(dc as nat == step.1);
            assert(diff_from(sa, sb, i as int, dc0) == step.0 + diff_from(sa, sb, i + 1, step.1));
            assert(out@ + diff_from(sa, sb, i + 1, dc as nat) =~= before + (step.0 + diff_from(sa, sb, i + 1, step.1)));
        }
        i += 1;
    }
    proof {
        assert(diff_from(sa, sb, i as int, dc as nat) =~= Seq::<char>::empty());
        assert(out@ + Seq::<char>::empty() =~= out@);
    }
    if out.len() == 0 {
        text_of("--- Responses are identical ---")
    } else {
        string_from_chars(out.as_slice())
    }
}

// ---------------------------------------------------------------------------
// Bigrams
// ---------------------------------------------------------------------------

/// `p` is a pair of adjacent characters of `s`.
pub open spec fn is_bigram(s: Seq<char>, p: (char, char)) -> bool {
    exists|k: int| 0 <= k && k + 1 < s.len() && #[trigger] s[k] == p.0 && s[k + 1] == p.1
}

fn pair_in(v: &Vec<(char, char)>, p: (char, char)) -> (r: bool)
    ensures
        r == v@.contains(p),
{
    let mut i: usize = 0;
    while i < v.len()
        invariant
            i <= v@.len(),
            forall|k: int| 0 <= k < i ==> v@[k] != p,
        decreases v@.len() - i,
    {
        if v[i].0 == p.0 && v[i].1 == p.1 {
            assert(v@[i as int] == p);
            return true;
        }
        i += 1;
    }
    false
}

/// The distinct pairs of adjacent characters of `s`.
pub fn extract_bigrams(s: &str) -> (r: Vec<(char, char)>)
    ensures
        r@.no_duplicates(),
        forall|p: (char, char)| r@.contains(p) <==> is_bigram(s@, p),
{
    let cs = chars_of(s);
    let mut out: Vec<(char, char)> = Vec::new();
    let mut i: usize = 0;
    while i < cs.len() && i + 1 < cs.len()
        invariant
            cs@ == s@,
            i <= cs@.len(),
            out@.no_duplicates(),
            forall|p: (char, char)|
                out@.contains(p) <==> exists|k: int|
                    0 <= k < i && k + 1 < s@.len() && #[trigger] s@[k] == p.0 && s@[k + 1] == p.1,
        decreases cs@.len() - i,
    {
        let p = (cs[i], cs[i + 1]);
        let ghost before = out@;
        if !pair_in(&out, p) {
            out.push(p);
            proof {
                assert forall|x: int, y: int| 0 <= x < y < out@.len() implies out@[x] != out@[y] by {
                    if y == before.len() {
                        assert(before.contains(before[x]));
                    }
                }
            }
        }
        proof {
            assert forall|q: (char, char)| out@.contains(q) <==> exists|k: int|
                0 <= k < i + 1 && k + 1 < s@.len() && #[trigger] s@[k] == q.0 && s@[k + 1] == q.1 by {
                if out@.contains(q) && !before.contains(q) {
                    assert(q == p);
                    assert(s@[i as int] == q.0);
                }
                if exists|k: int| 0 <= k < i + 1 && k + 1 < s@.len() && #[trigger] s@[k] == q.0 && s@[k + 1] == q.1 {
                    let k = choose|k: int| 0 <= k < i + 1 && k + 1 < s@.len() && #[trigger] s@[k] == q.0 && s@[k + 1] == q.1;
                    if k == i {
                        assert(q == p);
                        if before.contains(q) {
                            let w = choose|w: int| 0 <= w < before.len() && before[w] == q;
                            assert(out@[w] == q);
                        } else {
                            assert(out@[out@.len() - 1] == q);
                        }
                    } else {
                        assert(before.contains(q));
                        let w = choose|w: int| 0 <= w < before.len() && before[w] == q;
                        assert(out@[w] == q);
                    }
                }
            }
        }
        i += 1;
    }
    out
}

/// Number of elements of `a` that also occur in `b`.
pub open spec fn shared_count(a: Seq<(char, char)>, b: Seq<(char, char)>) -> nat
    decreases a.len(),
{
    if a.len() == 0 {
        0
    } else {
        shared_count(a.drop_last(), b) + if b.contains(a.last()) {
            1nat
        } else {
            0nat
        }
    }
}

/// How many bigrams of `a` also occur in `b`.
pub fn shared_bigrams(a: &Vec<(char, char)>, b: &Vec<(char, char)>) -> (r: usize)
    ensures
        r == shared_count(a@, b@),
{
    let mut n: usize = 0;
    let mut i: usize = 0;
    proof {
        assert(a@.subrange(0, 0) =~= Seq::<(char, char)>::empty());
    }
    while i < a.len()
        invariant
            i <= a@.len(),
            n <= i,
            n == shared_count(a@.subrange(0, i as int), b@),
        decreases a@.len() - i,
    {
        proof {
            let p = a@.subrange(0, i + 1);
            assert(p.drop_last() =~= a@.subrange(0, i as int));
        }
        if pair_in(b, a[i]) {
            n += 1;
        }
        i += 1;
    }
    proof {
        assert(a@.subrange(0, a@.len() as int) =~= a@);
    }
    n
}

// ---------------------------------------------------------------------------
// Comparing two messages
// ---------------------------------------------------------------------------

/// Sorted entries that hold a map answer lookups as the map does.
proof fn lemma_represents_lookup(e: Seq<(Seq<char>, Seq<char>)>, m: Map<Seq<char>, Seq<char>>, k: Seq<char>)
    requires
        represents(e, m),
    ensures
        has_key(e, k) == m.contains_key(k),
        m.contains_key(k) ==> value_of(e, k) == m[k],
{
    if m.contains_key(k) {
        let p = choose|p: int| 0 <= p < e.len() && e[p].0 == k;
        lemma_sorted_value(e, p);
    }
    if has_key(e, k) {
        let p = choose|p: int| 0 <= p < e.len() && #[trigger] e[p].0 == k;
        assert(m.contains_key(e[p].0));
    }
}

/// `d` correctly reports how header `d.name` differs between the header
/// maps `a` and `b`: modified, removed or added, with its values.
pub open spec fn map_diff_entry_ok(
    d: crate::diff_types::HeaderDiffEntry,
    a: Map<Seq<char>, Seq<char>>,
    b: Map<Seq<char>, Seq<char>>,
) -> bool {
    let k = d.name@;
    if a.contains_key(k) && b.contains_key(k) {
        &&& a[k] != b[k]
        &&& opt_text(d.value_a) == Some(a[k])
        &&& opt_text(d.value_b) == Some(b[k])
        &&& d.change_type@ == "modified"@
    } else if a.contains_key(k) {
        &&& opt_text(d.value_a) == Some(a[k])
        &&& d.value_b is None
        &&& d.change_type@ == "removed"@
    } else if b.contains_key(k) {
        &&& d.value_a is None
        &&& opt_text(d.value_b) == Some(b[k])
        &&& d.change_type@ == "added"@
    } else {
        false
    }
}

/// `r` is the header diff of the maps `a` and `b`: one entry for each header
/// present in either and not the same in both, in strict name order.
pub open spec fn header_diff_of(
    r: Seq<crate::diff_types::HeaderDiffEntry>,
    a: Map<Seq<char>, Seq<char>>,
    b: Map<Seq<char>, Seq<char>>,
) -> bool {
    &&& forall|i: int, j: int| 0 <= i < j < r.len() ==> lex_lt(#[trigger] r[i].name@, #[trigger] r[j].name@)
    &&& forall|i: int| 0 <= i < r.len() ==> map_diff_entry_ok(#[trigger] r[i], a, b)
    &&& forall|k: Seq<char>|
        (#[trigger] a.contains_key(k) || b.contains_key(k)) && !(a.contains_key(k) && b.contains_key(k)
            && a[k] == b[k]) ==> diff_names(r).contains(k)
}

/// Two HTTP messages compared: their statuses, their bodies and the bodies'
/// lengths in bytes, the difference of those lengths, the header diff and
/// the line diff of the bodies.
pub struct MessageComparison {
    pub status_a: Option<u32>,
    pub status_b: Option<u32>,
    pub body_a: String,
    pub body_b: String,
    pub length_a: u128,
    pub length_b: u128,
    pub length_delta: i128,
    pub headers_diff: Vec<crate::diff_types::HeaderDiffEntry>,
    pub body_diff: String,
}

/// Compares two raw HTTP messages (see `parse_http_message`,
/// `diff_headers` and `generate_line_diff`).
pub fn compare_http_messages(text_a: &str, text_b: &str) -> (r: MessageComparison)
    ensures
        r.status_a == message_status(text_a@),
        r.status_b == message_status(text_b@),
        r.body_a@ == message_split(text_a@).1,
        r.body_b@ == message_split(text_b@).1,
        r.length_a == crate::payload::byte_len(message_split(text_a@).1),
        r.length_b == crate::payload::byte_len(message_split(text_b@).1),
        r.length_delta == r.length_b - r.length_a,
        header_diff_of(r.headers_diff@, message_headers(text_a@), message_headers(text_b@)),
        r.body_diff@ == line_diff_spec(message_split(text_a@).1, message_split(text_b@).1),
{
    let (head_a, body_a, status_a) = parse_http_message(text_a);
    let (head_b, body_b, status_b) = parse_http_message(text_b);
    let headers_diff = diff_headers(&head_a, &head_b);
    proof {
        let (ea, eb) = (entries_view(head_a@), entries_view(head_b@));
        let (ma, mb) = (message_headers(text_a@), message_headers(text_b@));
        assert forall|i: int| 0 <= i < headers_diff@.len() implies map_diff_entry_ok(
            #[trigger] headers_diff@[i],
            ma,
            mb,
        ) by {
            assert(diff_entry_ok(headers_diff@[i], ea, eb));
            lemma_represents_lookup(ea, ma, headers_diff@[i].name@);
            lemma_represents_lookup(eb, mb, headers_diff@[i].name@);
        }
        assert forall|k: Seq<char>|
            (#[trigger] ma.contains_key(k) || mb.contains_key(k)) && !(ma.contains_key(k) && mb.contains_key(k)
                && ma[k] == mb[k]) implies diff_names(headers_diff@).contains(k) by {
            lemma_represents_lookup(ea, ma, k);
            lemma_represents_lookup(eb, mb, k);
            assert(header_changed(ea, eb, k));
        }
    }
    let body_diff = generate_line_diff(body_a.as_str(), body_b.as_str());
    let chars_a = chars_of(body_a.as_str());
    let chars_b = chars_of(body_b.as_str());
    let length_a = crate::request_text::byte_len_of(chars_a.as_slice());
    let length_b = crate::request_text::byte_len_of(chars_b.as_slice());
    proof {
        crate::payload::lemma_byte_len_bound(chars_a@);
        crate::payload::lemma_byte_len_bound(chars_b@);
        assert(chars_a@.len() == chars_a.len());
        assert(chars_b@.len() == chars_b.len());
        assert(length_a <= 4 * usize::MAX && length_b <= 4 * usize::MAX);
    }
    let length_delta = (length_b as i128) - (length_a as i128);
    MessageComparison {
        status_a,
        status_b,
        body_a,
        body_b,
        length_a,
        length_b,
        length_delta,
        headers_diff,
        body_diff,
    }
}

} // verus!
