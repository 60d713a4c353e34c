//! Synchronising Burp's history into the site graph: the paging and
//! watermark decisions of a run, and the annotations drawn from rule matches.
use crate::diff::{lemma_lex_irreflexive, lemma_lex_total, lemma_lex_transitive, lex_less, lex_lt};
use crate::payload::join_spec;
use crate::css_escape::concat_chars;
use crate::text::{chars_eq, chars_of, lower_seq, lowercase_chars, string_from_chars};
use vstd::prelude::*;

verus! {

// ---------------------------------------------------------------------------
// Message bodies as bytes
// ---------------------------------------------------------------------------

pub open spec fn bytes_at(h: Seq<u8>, n: Seq<u8>, i: int) -> bool {
    0 <= i && i + n.len() <= h.len() && h.subrange(i, i + n.len()) == n
}

/// The first position at or after `i` where `n` occurs in `h`.
pub open spec fn find_bytes_from(h: Seq<u8>, n: Seq<u8>, i: int) -> Option<int>
    decreases h.len() + 1 - i,
{
    if i < 0 || i > h.len() {
        None
    } else if bytes_at(h, n, i) {
        Some(i)
    } else {
        find_bytes_from(h, n, i + 1)
    }
}

/// The body of a raw message: after the first `\r\n\r\n`, else after the
/// first `\n\n`, else nothing.
pub open spec fn body_bytes(b: Seq<u8>) -> Seq<u8> {
    match find_bytes_from(b, seq![13u8, 10u8, 13u8, 10u8], 0) {
        Some(p) => b.subrange(p + 4, b.len() as int),
        None => match find_bytes_from(b, seq![10u8, 10u8], 0) {
            Some(p) => b.subrange(p + 2, b.len() as int),
            None => Seq::empty(),
        },
    }
}

#[verifier::loop_isolation(false)]
fn find_bytes(h: &[u8], n: &[u8]) -> (r: Option<usize>)
    ensures
        match r {
            Some(k) => find_bytes_from(h@, n@, 0) == Some(k as int) && k + n@.len() <= h@.len(),
            None => find_bytes_from(h@, n@, 0) is None,
        },
{
    let mut i: usize = 0;
    let len = h.len();
    while i <= len
        invariant
            i <= len + 1,
            len == h@.len(),
            find_bytes_from(h@, n@, i as int) == find_bytes_from(h@, n@, 0),
        decreases len + 1 - i,
    {
        if n.len() <= len - i {
            let mut k: usize = 0;
            let mut same = true;
            while k < n.len()
                invariant
                    k <= n@.len(),
                    i <= len,
                    len == h@.len(),
                    i + n@.len() <= len,
                    same == forall|j: int| 0 <= j < k ==> h@[i + j] == n@[j],
                decreases n@.len() - k,
            {
                if h[i + k] != n[k] {
                    same = false;
                }
                k += 1;
            }
            if same {
                assert(h@.subrange(i as int, i + n@.len()) =~= n@);
                return Some(i);
            } else {
                assert(!bytes_at(h@, n@, i as int)) by {
                    if bytes_at(h@, n@, i as int) {
                        assert forall|j: int| 0 <= j < n@.len() implies h@[i + j] == n@[j] by {
                            assert(h@.subrange(i as int, i + n@.len())[j] == h@[i + j]);
                        }
                    }
                }
            }
        }
        proof {
            assert(!bytes_at(h@, n@, i as int));
        }
        if i == len {
            proof {
                assert(find_bytes_from(h@, n@, i + 1) is None);
            }
            break;
        }
        i += 1;
    }
    None
}

/// The body of a raw HTTP message (see `body_bytes`).
pub fn split_http_body(bytes: &[u8]) -> (r: &[u8])
    ensures
        r@ == body_bytes(bytes@),
{
    let len = bytes.len();
    let crlf2: [u8; 4] = [13u8, 10u8, 13u8, 10u8];
    let lf2: [u8; 2] = [10u8, 10u8];
    assert(crlf2@ =~= seq![13u8, 10u8, 13u8, 10u8]);
    assert(lf2@ =~= seq![10u8, 10u8]);
    match find_bytes(bytes, &crlf2) {
        Some(p) => vstd::slice::slice_subrange(bytes, p + 4, len),
        None => match find_bytes(bytes, &lf2) {
            Some(p) => vstd::slice::slice_subrange(bytes, p + 2, len),
            None => vstd::slice::slice_subrange(bytes, 0, 0),
        },
    }
}

// ---------------------------------------------------------------------------
// Severities
// ---------------------------------------------------------------------------

pub open spec fn severity_rank_spec(sev: Seq<char>) -> u8 {
    let l = lower_seq(sev);
    if l == "critical"@ {
        3
    } else if l == "high"@ {
        2
    } else if l == "medium"@ {
        1
    } else {
        0
    }
}

pub fn severity_rank(sev: &str) -> (r: u8)
    ensures
        r == severity_rank_spec(sev@),
{
    let l = lowercase_chars(chars_of(sev).as_slice());
    if chars_eq(l.as_slice(), chars_of("critical").as_slice()) {
        3
    } else if chars_eq(l.as_slice(), chars_of("high").as_slice()) {
        2
    } else if chars_eq(l.as_slice(), chars_of("medium").as_slice()) {
        1
    } else {
        0
    }
}

/// `medium`, `high` or `critical`, in any ASCII case.
pub fn is_medium_or_higher(severity: &str) -> (r: bool)
    ensures
        r == (severity_rank_spec(severity@) > 0),
{
    severity_rank(severity) > 0
}

// ---------------------------------------------------------------------------
// Annotations
// ---------------------------------------------------------------------------

/// One rule match reported by the rule pack.
#[derive(Debug, Clone)]
pub struct RuleMatch {
    pub rule_id: String,
    pub severity: String,
}

/// The highlight and note to put on a proxy history entry.
#[derive(Debug, Clone)]
pub struct AnnotationCandidate {
    pub severity: String,
    pub marker: String,
    pub color: String,
}

/// The highest rank among `hits` (0 when there are none).
pub open spec fn max_rank(hits: Seq<RuleMatch>) -> u8
    decreases hits.len(),
{
    if hits.len() == 0 {
        0
    } else {
        let r = max_rank(hits.drop_last());
        let s = severity_rank_spec(hits.last().severity@);
        if s > r {
            s
        } else {
            r
        }
    }
}

/// The matches of medium severity or above.
pub open spec fn medium_hits(ms: Seq<RuleMatch>) -> Seq<RuleMatch>
    decreases ms.len(),
{
    if ms.len() == 0 {
        Seq::empty()
    } else if severity_rank_spec(ms.last().severity@) > 0 {
        medium_hits(ms.drop_last()).push(ms.last())
    } else {
        medium_hits(ms.drop_last())
    }
}

pub open spec fn severity_name(rank: u8) -> Seq<char> {
    if rank == 3 {
        "critical"@
    } else if rank == 2 {
        "high"@
    } else {
        "medium"@
    }
}

pub open spec fn color_of(rank: u8) -> Seq<char> {
    if rank >= 2 {
        "RED"@
    } else {
        "ORANGE"@
    }
}

pub open spec fn direction_of(req: bool, resp: bool) -> Seq<char> {
    if req && resp {
        "both"@
    } else if req {
        "request"@
    } else {
        "response"@
    }
}

/// `ids` is strictly increasing and holds exactly the rule ids of `hits`.
pub open spec fn sorted_ids_of(ids: Seq<Seq<char>>, hits: Seq<RuleMatch>) -> bool {
    &&& forall|i: int, j: int| 0 <= i < j < ids.len() ==> lex_lt(#[trigger] ids[i], #[trigger] ids[j])
    &&& forall|x: Seq<char>| ids.contains(x) <==> exists|k: int| 0 <= k < hits.len() && #[trigger] hits[k].rule_id@ == x
}

pub open spec fn marker_text(rank: u8, ids: Seq<Seq<char>>, direction: Seq<char>) -> Seq<char> {
    "[SiteGraph] severity="@ + severity_name(rank) + " rules="@ + join_spec(ids, seq![','])
        + " direction="@ + direction
}

fn keep_medium(ms: &Vec<RuleMatch>, out: &mut Vec<RuleMatch>)
    ensures
        final(out)@ == old(out)@ + medium_hits(ms@),
{
    let ghost o0 = out@;
    let mut i: usize = 0;
    proof {
        assert(out@ =~= o0 + medium_hits(ms@.subrange(0, 0)));
    }
    while i < ms.len()
        invariant
            i <= ms@.len(),
            out@ == o0 + medium_hits(ms@.subrange(0, i as int)),
        decreases ms@.len() - i,
    {
        let ghost before = out@;
        proof {
            let p = ms@.subrange(0, i + 1);
            assert(p.drop_last() =~= ms@.subrange(0, i as int));
            assert(p.last() == ms@[i as int]);
        }
        if is_medium_or_higher(ms[i].severity.as_str()) {
            out.push(ms[i].clone_match());
            proof {
                assert(out@ =~= o0 + medium_hits(ms@.subrange(0, i + 1)));
            }
        } else {
            proof {
                assert(out@ =~= o0 + medium_hits(ms@.subrange(0, i + 1)));
            }
        }
        i += 1;
    }
    proof {
        assert(ms@.subrange(0, ms@.len() as int) =~= ms@);
    }
}

impl RuleMatch {
    pub fn clone_match(&self) -> (r: RuleMatch)
        ensures
            r == *self,
    {
        RuleMatch { rule_id: self.rule_id.clone(), severity: self.severity.clone() }
    }
}

pub open spec fn has_text(v: Seq<String>, x: Seq<char>) -> bool {
    exists|k: int| 0 <= k < v.len() && #[trigger] v[k]@ == x
}

pub open spec fn has_rule(v: Seq<RuleMatch>, n: int, x: Seq<char>) -> bool {
    exists|t: int| 0 <= t < n && #[trigger] v[t].rule_id@ == x
}

/// Inserts `id` into a strictly sorted list unless present.
#[verifier::loop_isolation(false)]
pub(crate) fn insert_sorted(ids: &mut Vec<String>, id: &String)
    requires
        forall|i: int, j: int|
            0 <= i < j < old(ids)@.len() ==> lex_lt(#[trigger] old(ids)@[i]@, #[trigger] old(ids)@[j]@),
    ensures
        forall|i: int, j: int|
            0 <= i < j < final(ids)@.len() ==> lex_lt(#[trigger] final(ids)@[i]@, #[trigger] final(ids)@[j]@),
        forall|x: Seq<char>| #[trigger] has_text(final(ids)@, x) <==> (x == id@ || has_text(old(ids)@, x)),
{
    let nc = chars_of(id.as_str());
    let ghost e0 = ids@;
    let mut i: usize = 0;
    while i < ids.len()
        invariant
            i <= ids@.len(),
            ids@ == e0,
            nc@ == id@,
            forall|k: int| 0 <= k < i ==> lex_lt(#[trigger] ids@[k]@, id@),
        decreases ids@.len() - i,
    {
        if !lex_less(chars_of(ids[i].as_str()).as_slice(), nc.as_slice()) {
            break;
        }
        i += 1;
    }
    if i < ids.len() && chars_eq(chars_of(ids[i].as_str()).as_slice(), nc.as_slice()) {
        return;
    }
    proof {
        if i < e0.len() {
            lemma_lex_total(e0[i as int]@, id@);
            assert(lex_lt(id@, e0[i as int]@));
        }
    }
    ids.insert(i, id.clone());
    proof {
        assert forall|a: int| 0 <= a < ids@.len() implies #[trigger] ids@[a] == (if a < i {
            e0[a]
        } else if a == i {
            *id
        } else {
            e0[a - 1]
        }) by {}
        assert forall|a: int, b: int| 0 <= a < b < ids@.len() implies lex_lt(#[trigger] ids@[a]@, #[trigger] ids@[b]@) by {
            if a < i && b == i {
            } else if a < i && b > i {
                if b - 1 > i {
                    lemma_lex_transitive(id@, e0[i as int]@, e0[b - 1]@);
                }
                lemma_lex_transitive(e0[a]@, id@, e0[b - 1]@);
            } else if a == i && b > i {
                if b - 1 > i {
                    lemma_lex_transitive(id@, e0[i as int]@, e0[b - 1]@);
                }
            }
        }
        assert forall|x: Seq<char>| #[trigger] has_text(ids@, x) <==> (x == id@ || has_text(e0, x)) by {
            if has_text(ids@, x) {
                let k = choose|k: int| 0 <= k < ids@.len() && #[trigger] ids@[k]@ == x;
                if k < i {
                    assert(e0[k]@ == x);
                } else if k > i {
                    assert(e0[k - 1]@ == x);
                }
            }
            if has_text(e0, x) {
                let k = choose|k: int| 0 <= k < e0.len() && #[trigger] e0[k]@ == x;
                if k < i {
                    assert(ids@[k]@ == x);
                } else {
                    assert(ids@[k + 1]@ == x);
                }
            }
            if x == id@ {
                assert(ids@[i as int]@ == x);
            }
        }
    }
}

fn join_ids(ids: &Vec<String>) -> (r: Vec<char>)
    ensures
        r@ == join_spec(Seq::new(ids@.len(), |k: int| ids@[k]@), seq![',']),
{
    let ghost iv = Seq::new(ids@.len(), |k: int| ids@[k]@);
    let mut out: Vec<char> = Vec::new();
    let mut k: usize = 0;
    proof {
        assert(iv.subrange(0, 0) =~= Seq::<Seq<char>>::empty());
    }
    while k < ids.len()
        invariant
            k <= ids@.len(),
            iv == Seq::new(ids@.len(), |k: int| ids@[k]@),
            out@ == join_spec(iv.subrange(0, k as int), seq![',']),
        decreases ids@.len() - k,
    {
        let ghost before = out@;
        proof {
            let p = iv.subrange(0, k + 1);
            assert(p.drop_last() =~= iv.subrange(0, k as int));
            assert(p.last() == ids@[k as int]@);
        }
        if k > 0 {
            out.push(',');
        }
        let piece = chars_of(ids[k].as_str());
        out = crate::css_escape::concat_chars(out, piece.as_slice());
        proof {
            if k > 0 {
                assert(out@ =~= before + seq![','] + ids@[k as int]@);
            } else {
                assert(out@ =~= ids@[k as int]@);
            }
        }
        k += 1;
    }
    proof {
        assert(iv.subrange(0, iv.len() as int) =~= iv);
    }
    out
}

fn rank_and_ids(all: &Vec<RuleMatch>) -> (r: (u8, Vec<String>))
    ensures
        r.0 == max_rank(all@),
        r.0 <= 3,
        sorted_ids_of(Seq::new(r.1@.len(), |t: int| r.1@[t]@), all@),
{
    let mut rank: u8 = 0;
    let mut ids: Vec<String> = Vec::new();
    let mut k: usize = 0;
    proof {
        assert(all@.subrange(0, 0) =~= Seq::<RuleMatch>::empty());
    }
    while k < all.len()
        invariant
            k <= all@.len(),
            rank == max_rank(all@.subrange(0, k as int)),
            rank <= 3,
            forall|a: int, b: int| 0 <= a < b < ids@.len() ==> lex_lt(#[trigger] ids@[a]@, #[trigger] ids@[b]@),
            forall|x: Seq<char>| #[trigger] has_text(ids@, x) <==> has_rule(all@, k as int, x),
        decreases all@.len() - k,
    {
        proof {
            let p = all@.subrange(0, k + 1);
            assert(p.drop_last() =~= all@.subrange(0, k as int));
        }
        let s = severity_rank(all[k].severity.as_str());
        if s > rank {
            rank = s;
        }
        let ghost before = ids@;
        insert_sorted(&mut ids, &all[k].rule_id);
        proof {
            assert forall|x: Seq<char>| #[trigger] has_text(ids@, x) <==> has_rule(all@, k + 1, x) by {
                if x == all@[k as int].rule_id@ {
                    assert(all@[k as int].rule_id@ == x);
                }
                if has_rule(all@, k + 1, x) {
                    let t = choose|t: int| 0 <= t < k + 1 && #[trigger] all@[t].rule_id@ == x;
                    if t < k {
                        assert(has_rule(all@, k as int, x));
                    }
                }
                if has_rule(all@, k as int, x) {
                    let t = choose|t: int| 0 <= t < k && #[trigger] all@[t].rule_id@ == x;
                    assert(all@[t].rule_id@ == x);
                }
            }
        }
        k += 1;
    }
    proof {
        assert(all@.subrange(0, all@.len() as int) =~= all@);
    }
    proof {
        let iv = Seq::new(ids@.len(), |t: int| ids@[t]@);
        assert forall|a: int, b: int| 0 <= a < b < iv.len() implies lex_lt(#[trigger] iv[a], #[trigger] iv[b]) by {
            assert(iv[a] == ids@[a]@ && iv[b] == ids@[b]@);
        }
        assert forall|x: Seq<char>| iv.contains(x) <==> exists|t: int| 0 <= t < all@.len() && #[trigger] all@[t].rule_id@ == x by {
            if iv.contains(x) {
                let t = choose|t: int| 0 <= t < iv.len() && iv[t] == x;
                assert(ids@[t]@ == x);
            }
            if has_text(ids@, x) {
                let t = choose|t: int| 0 <= t < ids@.len() && #[trigger] ids@[t]@ == x;
                assert(iv[t] == x);
            }
            if has_rule(all@, all@.len() as int, x) {
                assert(has_text(ids@, x));
            }
        }
    }
    (rank, ids)
}

/// The annotation for an HTTP exchange from the rule matches on its
/// request, its response and its response body: none unless some match
/// is of medium severity or above; otherwise the highest severity, its
/// color, the matched rule ids (sorted, each once) and which side matched.
#[verifier::loop_isolation(false)]
pub fn evaluate_http_annotation(
    request_matches: &Vec<RuleMatch>,
    response_matches: &Vec<RuleMatch>,
    response_body_matches: &Vec<RuleMatch>,
) -> (r: Option<AnnotationCandidate>)
    ensures
        ({
            let req = medium_hits(request_matches@);
            let resp = medium_hits(response_matches@) + medium_hits(response_body_matches@);
            let rank = max_rank(req + resp);
            match r {
                None => req.len() == 0 && resp.len() == 0,
                Some(c) => (req.len() > 0 || resp.len() > 0) && c.severity@ == severity_name(rank)
                    && c.color@ == color_of(rank) && exists|ids: Seq<Seq<char>>|
                    sorted_ids_of(ids, req + resp) && c.marker@ == marker_text(
                        rank,
                        ids,
                        direction_of(req.len() > 0, resp.len() > 0),
                    ),
            }
        }),
{
    let mut req: Vec<RuleMatch> = Vec::new();
    keep_medium(request_matches, &mut req);
    let mut resp: Vec<RuleMatch> = Vec::new();
    keep_medium(response_matches, &mut resp);
    keep_medium(response_body_matches, &mut resp);
    proof {
        assert(req@ =~= medium_hits(request_matches@));
        assert(resp@ =~= medium_hits(response_matches@) + medium_hits(response_body_matches@));
    }
    if req.len() == 0 && resp.len() == 0 {
        return None;
    }
    let mut all: Vec<RuleMatch> = Vec::new();
    let mut i: usize = 0;
    while i < req.len()
        invariant
            i <= req@.len(),
            all@ == req@.subrange(0, i as int),
        decreases req@.len() - i,
    {
        all.push(req[i].clone_match());
        i += 1;
    }
    let mut j: usize = 0;
    while j < resp.len()
        invariant
            j <= resp@.len(),
            all@ == req@ + resp@.subrange(0, j as int),
        decreases resp@.len() - j,
    {
        all.push(resp[j].clone_match());
        j += 1;
        proof {
            assert(all@ =~= req@ + resp@.subrange(0, j as int));
        }
    }
    proof {
        assert(resp@.subrange(0, resp@.len() as int) =~= resp@);
        assert(req@.subrange(0, req@.len() as int) =~= req@);
    }
    let (rank, ids) = rank_and_ids(&all);
    let sev = if rank == 3 {
        "critical"
    } else if rank == 2 {
        "high"
    } else {
        "medium"
    };
    let color = if rank >= 2 {
        "RED"
    } else {
        "ORANGE"
    };
    let direction = if req.len() > 0 && resp.len() > 0 {
        "both"
    } else if req.len() > 0 {
        "request"
    } else {
        "response"
    };
    let mut m = chars_of("[SiteGraph] severity=");
    m = crate::css_escape::concat_chars(m, chars_of(sev).as_slice());
    m = crate::css_escape::concat_chars(m, chars_of(" rules=").as_slice());
    m = crate::css_escape::concat_chars(m, join_ids(&ids).as_slice());
    m = crate::css_escape::concat_chars(m, chars_of(" direction=").as_slice());
    m = crate::css_escape::concat_chars(m, chars_of(direction).as_slice());
    proof {
        let iv = Seq::new(ids@.len(), |t: int| ids@[t]@);
        assert(m@ =~= marker_text(rank, iv, direction_of(req@.len() > 0, resp@.len() > 0)));
    }
    Some(AnnotationCandidate {
        severity: string_from_chars(chars_of(sev).as_slice()),
        marker: string_from_chars(m.as_slice()),
        color: string_from_chars(chars_of(color).as_slice()),
    })
}

// ---------------------------------------------------------------------------
// Paging through a source
// ---------------------------------------------------------------------------

/// Items asked for per page.
pub const PAGE_SIZE: u32 = 500;

/// The most proxy entries one run annotates.
pub const MAX_HTTP_ANNOTATIONS_PER_RUN: usize = 50;

/// The scope a run records: the URL prefix, or `all` for none.
pub fn sync_scope(prefix: &str) -> (r: String)
    ensures
        r@ == (if prefix@.len() == 0 {
            "all"@
        } else {
            prefix@
        }),
{
    let p = chars_of(prefix);
    if p.len() == 0 {
        string_from_chars(chars_of("all").as_slice())
    } else {
        string_from_chars(p.as_slice())
    }
}

/// How far an earlier run of a scope got.
pub struct Coverage {
    pub complete: bool,
    pub last_cursor: Option<String>,
    pub pages_read: u64,
    pub items_indexed: u64,
}

/// Where a run starts: the run to continue (none for a fresh run), the
/// cursor of the first page and the counters so far.
pub struct Resume {
    pub run_id: Option<String>,
    pub cursor: String,
    pub pages_seen: u64,
    pub items_seen: u64,
}

/// A checkpoint of an incomplete run is resumed: its run, cursor and
/// counters carry over; otherwise a fresh run starts from the first page.
pub fn resume_point(checkpoint: Option<(String, Coverage)>) -> (r: Resume)
    ensures
        match checkpoint {
            Some((id, c)) => if !c.complete {
                &&& r.run_id == Some(id)
                &&& r.cursor@ == (match c.last_cursor {
                    Some(k) => k@,
                    None => Seq::<char>::empty(),
                })
                &&& r.pages_seen == c.pages_read
                &&& r.items_seen == c.items_indexed
            } else {
                r.run_id is None && r.cursor@.len() == 0 && r.pages_seen == 0 && r.items_seen == 0
            },
            None => r.run_id is None && r.cursor@.len() == 0 && r.pages_seen == 0 && r.items_seen
                == 0,
        },
{
    match checkpoint {
        Some((id, c)) => if !c.complete {
            let cursor = match c.last_cursor {
                Some(k) => k,
                None => String::new(),
            };
            Resume { run_id: Some(id), cursor, pages_seen: c.pages_read, items_seen: c.items_indexed }
        } else {
            Resume { run_id: None, cursor: String::new(), pages_seen: 0, items_seen: 0 }
        },
        None => Resume { run_id: None, cursor: String::new(), pages_seen: 0, items_seen: 0 },
    }
}

/// A page is the source's last when it was not truncated or names no next
/// page.
pub fn is_last_page(truncated: bool, next_cursor: &str) -> (r: bool)
    ensures
        r == (!truncated || next_cursor@.len() == 0),
{
    !truncated || chars_of(next_cursor).len() == 0
}

/// The cursor a page records for the next one: none after the last page.
pub fn resume_cursor(truncated: bool, next_cursor: &str) -> (r: Option<String>)
    ensures
        r matches Some(k) ==> k@ == next_cursor@,
        r is None <==> (!truncated || next_cursor@.len() == 0),
{
    if is_last_page(truncated, next_cursor) {
        None
    } else {
        Some(string_from_chars(chars_of(next_cursor).as_slice()))
    }
}

/// The counters after one more page of `items` items; the item count
/// saturates.
pub fn count_page(pages_seen: u64, items_seen: u64, items: usize) -> (r: (u64, u64))
    requires
        pages_seen < u64::MAX,
    ensures
        r.0 == pages_seen + 1,
        r.1 == (if items_seen + items > u64::MAX {
            u64::MAX as int
        } else {
            items_seen + items
        }),
{
    let n: u64 = if items as u128 > u64::MAX as u128 {
        u64::MAX
    } else {
        items as u64
    };
    (pages_seen + 1, items_seen.saturating_add(n))
}

/// The highest history id seen, after seeing `id`.
pub fn raise_watermark(current: Option<u32>, id: u32) -> (r: Option<u32>)
    ensures
        r == Some(
            if id >= (match current {
                Some(c) => c,
                None => 0,
            }) {
                id
            } else {
                current->0
            },
        ),
{
    let c = match current {
        Some(c) => c,
        None => 0,
    };
    if id >= c {
        Some(id)
    } else {
        Some(c)
    }
}

/// Room for one more annotation in this run.
pub fn has_annotation_room(count: usize) -> (r: bool)
    ensures
        r == (count < MAX_HTTP_ANNOTATIONS_PER_RUN),
{
    count < MAX_HTTP_ANNOTATIONS_PER_RUN
}

/// The HTTP history watermark kept after a run: the new one only when the
/// annotations reached Burp, so that unannotated entries are read again.
pub fn committed_watermark(applied: bool, previous: Option<u32>, seen: Option<u32>) -> (r: Option<
    u32,
>)
    ensures
        r == (if applied {
            seen
        } else {
            previous
        }),
{
    if applied {
        seen
    } else {
        previous
    }
}

/// The scope of a secondary source: `<scope>:<source>`.
pub fn source_scope(scope: &str, source: &str) -> (r: String)
    ensures
        r@ == scope@ + seq![':'] + source@,
{
    let mut v = chars_of(scope);
    v.push(':');
    let v = concat_chars(v, chars_of(source).as_slice());
    string_from_chars(v.as_slice())
}

/// The run id of a page of a secondary source: `<run>-<source>-<cursor>`.
pub fn page_run_id(run_id: &str, source: &str, cursor: &str) -> (r: String)
    ensures
        r@ == run_id@ + seq!['-'] + source@ + seq!['-'] + cursor@,
{
    let mut v = chars_of(run_id);
    v.push('-');
    v = concat_chars(v, chars_of(source).as_slice());
    v.push('-');
    v = concat_chars(v, chars_of(cursor).as_slice());
    string_from_chars(v.as_slice())
}

// ---------------------------------------------------------------------------
// The order of a run
// ---------------------------------------------------------------------------

/// The sources a run reads, in the order it reads them.
#[derive(Debug, Clone, Copy, PartialEq, Eq, Structural)]
pub enum SyncStage {
    Sitemap,
    HttpHistory,
    Issues,
    WebSocketHistory,
    Done,
}

pub open spec fn stage_rank(s: SyncStage) -> int {
    match s {
        SyncStage::Sitemap => 0,
        SyncStage::HttpHistory => 1,
        SyncStage::Issues => 2,
        SyncStage::WebSocketHistory => 3,
        SyncStage::Done => 4,
    }
}

/// Where a run stands: the source it reads, the cursor of its next page,
/// the highest HTTP and WebSocket history ids seen, and the proxy entries
/// picked for annotation so far.
pub struct SyncRun {
    pub stage: SyncStage,
    pub cursor: String,
    pub http_watermark: Option<u32>,
    pub websocket_watermark: Option<u32>,
    pub annotations: usize,
}

/// A page of the source being read: whether more follow, the cursor of
/// the next one, the history ids on it, and how many of its entries the
/// rule pack would annotate.
pub struct SyncPage {
    pub truncated: bool,
    pub next_cursor: String,
    pub ids: Vec<u32>,
    pub candidates: usize,
}

pub open spec fn max_id(w: Option<u32>, ids: Seq<u32>) -> Option<u32>
    decreases ids.len(),
{
    if ids.len() == 0 {
        w
    } else {
        let m = max_id(w, ids.drop_last());
        let c = match m {
            Some(c) => c,
            None => 0,
        };
        Some(if ids.last() >= c { ids.last() } else { c })
    }
}

pub open spec fn next_stage_of(s: SyncStage) -> SyncStage {
    match s {
        SyncStage::Sitemap => SyncStage::HttpHistory,
        SyncStage::HttpHistory => SyncStage::Issues,
        SyncStage::Issues => SyncStage::WebSocketHistory,
        _ => SyncStage::Done,
    }
}

/// `r` is `run` after reading `page`: the HTTP (or WebSocket) watermark
/// rises to the page's highest id, HTTP entries are picked for annotation
/// while fewer than `MAX_HTTP_ANNOTATIONS_PER_RUN` are, and after the last
/// page of a source the next source starts from its first page.
pub open spec fn sync_step_ok(run: SyncRun, page: SyncPage, r: SyncRun) -> bool {
    let last = !page.truncated || page.next_cursor@.len() == 0;
    if run.stage == SyncStage::Done {
        r.stage == SyncStage::Done && r.cursor@ == run.cursor@ && r.http_watermark
            == run.http_watermark && r.websocket_watermark == run.websocket_watermark
            && r.annotations == run.annotations
    } else {
        &&& r.stage == (if last { next_stage_of(run.stage) } else { run.stage })
        &&& r.cursor@ == (if last { Seq::empty() } else { page.next_cursor@ })
        &&& r.http_watermark == (if run.stage == SyncStage::HttpHistory {
            max_id(run.http_watermark, page.ids@)
        } else {
            run.http_watermark
        })
        &&& r.websocket_watermark == (if run.stage == SyncStage::WebSocketHistory {
            max_id(run.websocket_watermark, page.ids@)
        } else {
            run.websocket_watermark
        })
        &&& r.annotations == (if run.stage == SyncStage::HttpHistory && page.ids@.len() > 0
            && run.annotations < MAX_HTTP_ANNOTATIONS_PER_RUN {
            if run.annotations + page.candidates <= MAX_HTTP_ANNOTATIONS_PER_RUN {
                run.annotations + page.candidates
            } else {
                MAX_HTTP_ANNOTATIONS_PER_RUN as int
            }
        } else {
            run.annotations as int
        })
    }
}

fn raise_over(w: Option<u32>, ids: &Vec<u32>) -> (r: Option<u32>)
    ensures
        r == max_id(w, ids@),
{
    let mut m = w;
    let mut i: usize = 0;
    proof {
        assert(ids@.subrange(0, 0) =~= Seq::<u32>::empty());
    }
    while i < ids.len()
        invariant
            i <= ids@.len(),
            m == max_id(w, ids@.subrange(0, i as int)),
        decreases ids@.len() - i,
    {
        proof {
            let p = ids@.subrange(0, i + 1);
            assert(p.drop_last() =~= ids@.subrange(0, i as int));
        }
        m = raise_watermark(m, ids[i]);
        i += 1;
    }
    proof {
        assert(ids@.subrange(0, ids@.len() as int) =~= ids@);
    }
    m
}

/// The run after one page of its current source (see `sync_step_ok`).
pub fn sync_step(run: SyncRun, page: SyncPage) -> (r: SyncRun)
    ensures
        sync_step_ok(run, page, r),
{
    if run.stage == SyncStage::Done {
        return run;
    }
    let last = is_last_page(page.truncated, page.next_cursor.as_str());
    let http = run.stage == SyncStage::HttpHistory;
    let websocket = run.stage == SyncStage::WebSocketHistory;
    let http_watermark = if http {
        raise_over(run.http_watermark, &page.ids)
    } else {
        run.http_watermark
    };
    let websocket_watermark = if websocket {
        raise_over(run.websocket_watermark, &page.ids)
    } else {
        run.websocket_watermark
    };
    let annotations = if http && page.ids.len() > 0 && has_annotation_room(run.annotations) {
        let room = MAX_HTTP_ANNOTATIONS_PER_RUN - run.annotations;
        if page.candidates <= room {
            run.annotations + page.candidates
        } else {
            MAX_HTTP_ANNOTATIONS_PER_RUN
        }
    } else {
        run.annotations
    };
    let stage = if last {
        match run.stage {
            SyncStage::Sitemap => SyncStage::HttpHistory,
            SyncStage::HttpHistory => SyncStage::Issues,
            SyncStage::Issues => SyncStage::WebSocketHistory,
            _ => SyncStage::Done,
        }
    } else {
        run.stage
    };
    let cursor = if last {
        String::new()
    } else {
        page.next_cursor
    };
    SyncRun { stage, cursor, http_watermark, websocket_watermark, annotations }
}

/// What every step keeps: the run never goes back to an earlier source,
/// the watermarks never fall, and no more than
/// `MAX_HTTP_ANNOTATIONS_PER_RUN` entries are picked for annotation.
pub proof fn lemma_sync_step_monotone(run: SyncRun, page: SyncPage, r: SyncRun)
    requires
        sync_step_ok(run, page, r),
        run.annotations <= MAX_HTTP_ANNOTATIONS_PER_RUN,
    ensures
        stage_rank(run.stage) <= stage_rank(r.stage),
        r.annotations <= MAX_HTTP_ANNOTATIONS_PER_RUN,
        run.annotations <= r.annotations,
        watermark_le(run.http_watermark, r.http_watermark),
        watermark_le(run.websocket_watermark, r.websocket_watermark),
{
    lemma_max_id_rises(run.http_watermark, page.ids@);
    lemma_max_id_rises(run.websocket_watermark, page.ids@);
}

/// `a` is no higher than `b` (no watermark is lowest).
pub open spec fn watermark_le(a: Option<u32>, b: Option<u32>) -> bool {
    match a {
        None => true,
        Some(x) => b matches Some(y) && x <= y,
    }
}

pub proof fn lemma_max_id_rises(w: Option<u32>, ids: Seq<u32>)
    ensures
        watermark_le(w, max_id(w, ids)),
        forall|k: int| 0 <= k < ids.len() ==> watermark_le(Some(#[trigger] ids[k]), max_id(w, ids)),
    decreases ids.len(),
{
    if ids.len() > 0 {
        lemma_max_id_rises(w, ids.drop_last());
        assert forall|k: int| 0 <= k < ids.len() implies watermark_le(Some(#[trigger] ids[k]), max_id(w, ids)) by {
            if k < ids.len() - 1 {
                assert(ids[k] == ids.drop_last()[k]);
            }
        }
    }
}

} // verus!
