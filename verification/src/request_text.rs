//! Raw HTTP request text: converting the method, exporting as a command,
//! and finding the authority a request is addressed to.
use crate::css_escape::concat_chars;
use crate::http_text::{
    colon, crlf, crlf2_chars, crlf_chars, find_first, find_seq_from, lemma_find_seq_from, lf2,
    lf2_chars, lines_of, lines_spec, split_once_chars, split_once_spec, vecs_view, words_of,
    words_spec,
};
use crate::inputs::{ExportRequestInput, SendToRepeaterInput};
use crate::payload::join_spec;
use crate::payload::{byte_len, decimal, decimal_chars};
use crate::proto::SendToRepeaterRequest;
use crate::text::{
    chars_eq, chars_of, eq_ignore_ascii_case, eq_ignore_case, find_from, lower_seq,
    lowercase_chars, occurs_at, starts_with_chars, starts_with_seq, string_from_chars,
    subrange_chars, trim_chars, trim_seq, upper_seq, uppercase_chars,
};
use crate::tools::{shell_quote_chars, shell_quote_spec};
use crate::urls::{default_port, parse_url, url_parse_error, url_parts_of};
use crate::diff::{entries_view, put_entry, represents};
use vstd::prelude::*;

verus! {

fn text_of(lit: &str) -> (r: String)
    ensures
        r@ == lit@,
{
    lit.to_owned()
}

fn lit_chars(lit: &str) -> (r: Vec<char>)
    ensures
        r@ == lit@,
{
    chars_of(lit)
}

// ---------------------------------------------------------------------------
// Splitting on a separator
// ---------------------------------------------------------------------------

pub proof fn lemma_find_seq_bounds(h: Seq<char>, n: Seq<char>, i: int)
    requires
        0 <= i,
    ensures
        match find_seq_from(h, n, i) {
            Some(j) => i <= j && occurs_at(h, n, j),
            None => true,
        },
    decreases h.len() + 1 - i,
{
    if i <= h.len() && !occurs_at(h, n, i) {
        lemma_find_seq_bounds(h, n, i + 1);
    }
}

/// `str::split` on a non-empty separator, from position `i` on.
pub open spec fn split_from(s: Seq<char>, sep: Seq<char>, i: int) -> Seq<Seq<char>>
    decreases s.len() + 1 - i,
{
    if i < 0 || i > s.len() || sep.len() == 0 {
        Seq::empty()
    } else {
        match find_seq_from(s, sep, i) {
            Some(j) => {
                proof {
                    lemma_find_seq_bounds(s, sep, i);
                }
                seq![s.subrange(i, j)] + split_from(s, sep, j + sep.len())
            },
            None => seq![s.subrange(i, s.len() as int)],
        }
    }
}

pub open spec fn split_spec(s: Seq<char>, sep: Seq<char>) -> Seq<Seq<char>> {
    split_from(s, sep, 0)
}

pub fn split_by(s: &[char], sep: &[char]) -> (r: Vec<Vec<char>>)
    requires
        sep@.len() > 0,
    ensures
        vecs_view(r@) == split_spec(s@, sep@),
        r@.len() > 0,
{
    let mut out: Vec<Vec<char>> = Vec::new();
    let mut i: usize = 0;
    let n = s.len();
    loop
        invariant
            i <= s@.len(),
            n == s@.len(),
            sep@.len() > 0,
            vecs_view(out@) + split_from(s@, sep@, i as int) == split_spec(s@, sep@),
        decreases s@.len() + 1 - i,
    {
        let r = find_from(s, sep, i);
        proof {
            lemma_find_seq_from(s@, sep@, i as int, match r {
                Some(k) => Some(k as int),
                None => None,
            });
        }
        let ghost before = vecs_view(out@);
        match r {
            Some(j) => {
                let piece = subrange_chars(s, i, j);
                out.push(piece);
                proof {
                    assert(vecs_view(out@) =~= before.push(piece@));
                    assert(vecs_view(out@) + split_from(s@, sep@, j + sep@.len()) =~= before
                        + split_from(s@, sep@, i as int));
                }
                i = j + sep.len();
            },
            None => {
                let piece = subrange_chars(s, i, n);
                out.push(piece);
                proof {
                    assert(vecs_view(out@) =~= before + split_from(s@, sep@, i as int));
                }
                return out;
            },
        }
    }
}

fn push_all(v: &mut Vec<char>, s: &[char])
    ensures
        final(v)@ == old(v)@ + s@,
{
    let mut i: usize = 0;
    let ghost v0 = v@;
    while i < s.len()
        invariant
            i <= s@.len(),
            v@ == v0 + s@.subrange(0, i as int),
        decreases s@.len() - i,
    {
        v.push(s[i]);
        i += 1;
        proof {
            assert(v@ =~= v0 + s@.subrange(0, i as int));
        }
    }
    proof {
        assert(s@.subrange(0, s@.len() as int) =~= s@);
    }
}

// ---------------------------------------------------------------------------
// Converting the method of a request
// ---------------------------------------------------------------------------

pub open spec fn is_content_length_line(line: Seq<char>) -> bool {
    starts_with_seq(lower_seq(line), "content-length:"@)
}

/// The header lines other than `Content-Length`, each preceded by `nl`.
pub open spec fn kept_lines(ls: Seq<Seq<char>>, nl: Seq<char>) -> Seq<char>
    decreases ls.len(),
{
    if ls.len() == 0 {
        Seq::empty()
    } else if is_content_length_line(ls.last()) {
        kept_lines(ls.drop_last(), nl)
    } else {
        kept_lines(ls.drop_last(), nl) + nl + ls.last()
    }
}

/// The line ending a request text uses: `\r\n` if it holds any, else `\n`.
pub open spec fn newline_of(s: Seq<char>) -> Seq<char> {
    if find_seq_from(s, crlf(), 0) is Some {
        crlf()
    } else {
        seq!['\n']
    }
}

/// Head and body split at the first blank line (all head when none).
pub open spec fn head_body(s: Seq<char>, nl: Seq<char>) -> (Seq<char>, Seq<char>) {
    match split_once_spec(s, nl + nl) {
        Some((h, b)) => (h, b),
        None => (s, Seq::empty()),
    }
}

/// `request` re-sent with method `target_method` (uppercased): a `POST`
/// without a body takes its body from the query string; `Content-Length`
/// is recomputed.
pub open spec fn convert_spec(request: Seq<char>, target_method: Seq<char>) -> Result<Seq<char>, Seq<char>> {
    let nl = newline_of(request);
    let (head, body) = head_body(request, nl);
    let ps = split_spec(head, nl);
    let ws = words_spec(ps[0]);
    if ws.len() == 0 {
        Err("request line has no method"@)
    } else if ws.len() == 1 {
        Err("request line has no target"@)
    } else {
        let target = ws[1];
        let version = if ws.len() >= 3 {
            ws[2]
        } else {
            "HTTP/1.1"@
        };
        let m = upper_seq(target_method);
        let (ct, cb) = if m == "POST"@ && body.len() == 0 {
            match split_once_spec(target, seq!['?']) {
                Some((p, q)) => (p, q),
                None => (target, Seq::empty()),
            }
        } else {
            (target, body)
        };
        Ok(converted_text(m, ct, version, ps.drop_first(), nl, cb))
    }
}

/// The kept header lines are nothing, or begin with the line ending.
proof fn lemma_kept_lines_lead(ls: Seq<Seq<char>>, nl: Seq<char>)
    ensures
        kept_lines(ls, nl).len() == 0 || (nl.len() <= kept_lines(ls, nl).len() && kept_lines(ls, nl).subrange(
            0,
            nl.len() as int,
        ) == nl),
    decreases ls.len(),
{
    if ls.len() > 0 {
        lemma_kept_lines_lead(ls.drop_last(), nl);
        let k = kept_lines(ls.drop_last(), nl);
        if !is_content_length_line(ls.last()) {
            let full = k + nl + ls.last();
            if k.len() == 0 {
                assert(full.subrange(0, nl.len() as int) =~= nl);
            } else {
                assert(full.subrange(0, nl.len() as int) =~= k.subrange(0, nl.len() as int));
            }
        }
    }
}

/// What follows the version in a converted request begins with the line
/// ending.
proof fn lemma_converted_tail(rest_lines: Seq<Seq<char>>, nl: Seq<char>, body: Seq<char>) -> (rest: Seq<char>)
    ensures
        kept_lines(rest_lines, nl) + (if body.len() > 0 {
            nl + "Content-Length: "@ + decimal(byte_len(body))
        } else {
            Seq::empty()
        }) + nl + nl + body == nl + rest,
{
    let kept = kept_lines(rest_lines, nl);
    let cl = if body.len() > 0 {
        nl + "Content-Length: "@ + decimal(byte_len(body))
    } else {
        Seq::empty()
    };
    let tail = kept + cl + nl + nl + body;
    lemma_kept_lines_lead(rest_lines, nl);
    assert(tail.subrange(0, nl.len() as int) == nl) by {
        if kept.len() > 0 {
            assert(tail.subrange(0, nl.len() as int) =~= kept.subrange(0, nl.len() as int));
        } else if body.len() > 0 {
            assert(tail.subrange(0, nl.len() as int) =~= cl.subrange(0, nl.len() as int));
            assert(cl.subrange(0, nl.len() as int) =~= nl);
        } else {
            assert(tail.subrange(0, nl.len() as int) =~= nl);
        }
    }
    let rest = tail.subrange(nl.len() as int, tail.len() as int);
    assert(tail =~= nl + rest);
    rest
}

/// The text before the first `?` of `target` begins `target`.
proof fn lemma_query_split_prefix(target: Seq<char>)
    ensures
        match split_once_spec(target, seq!['?']) {
            Some((p, q)) => p.len() <= target.len() && target.subrange(0, p.len() as int) == p,
            None => true,
        },
{
    lemma_find_seq_bounds(target, seq!['?'], 0);
    if let Some(k) = find_seq_from(target, seq!['?'], 0) {
        assert(target.subrange(0, k).len() == k);
        assert(target.subrange(0, k) =~= target.subrange(0, target.subrange(0, k).len() as int));
    }
}

/// The request line of a converted request.  Conversion fails exactly when
/// the original request line has fewer than two words (a method and a
/// target).  Otherwise the result begins with the new method uppercased, a
/// space, the target (the original's second word, or the part of it before
/// `?` when the query moves into the body), a space, and the version: the
/// original's third word when it has one, `HTTP/1.1` only when it has none;
/// then the request's own line ending.
#[verifier::rlimit(40)]
pub proof fn lemma_converted_request_line(request: Seq<char>, target_method: Seq<char>)
    ensures
        ({
            let nl = newline_of(request);
            let ws = words_spec(split_spec(head_body(request, nl).0, nl)[0]);
            let version = if ws.len() >= 3 {
                ws[2]
            } else {
                "HTTP/1.1"@
            };
            &&& (convert_spec(request, target_method) is Err <==> ws.len() < 2)
            &&& ws.len() >= 2 ==> exists|t: Seq<char>, rest: Seq<char>|
                #![trigger ws[1].subrange(0, t.len() as int), rest.len()]
                t.len() <= ws[1].len() && ws[1].subrange(0, t.len() as int) == t && convert_spec(
                    request,
                    target_method,
                ) == Ok::<Seq<char>, Seq<char>>(
                    upper_seq(target_method) + seq![' '] + t + seq![' '] + version + nl + rest,
                )
        }),
{
    let nl = newline_of(request);
    let (head, body) = head_body(request, nl);
    let ps = split_spec(head, nl);
    let ws = words_spec(ps[0]);
    if ws.len() >= 2 {
        let target = ws[1];
        let ver = if ws.len() >= 3 {
            ws[2]
        } else {
            "HTTP/1.1"@
        };
        let m = upper_seq(target_method);
        let (ct, cb) = if m == "POST"@ && body.len() == 0 {
            match split_once_spec(target, seq!['?']) {
                Some((p, q)) => (p, q),
                None => (target, Seq::empty()),
            }
        } else {
            (target, body)
        };
        lemma_query_split_prefix(target);
        assert(ct.len() <= target.len() && target.subrange(0, ct.len() as int) == ct) by {
            if !(m == "POST"@ && body.len() == 0) || split_once_spec(target, seq!['?']) is None {
                assert(target.subrange(0, ct.len() as int) =~= ct);
            }
        }
        let rest = lemma_converted_tail(ps.drop_first(), nl, cb);
        let pre = m + seq![' '] + ct + seq![' '] + ver;
        let tail = kept_lines(ps.drop_first(), nl) + (if cb.len() > 0 {
            nl + "Content-Length: "@ + decimal(byte_len(cb))
        } else {
            Seq::empty()
        }) + nl + nl + cb;
        assert(tail == nl + rest);
        assert(converted_text(m, ct, ver, ps.drop_first(), nl, cb) =~= pre + tail);
        assert(pre + tail =~= pre + nl + rest);
        assert(target.subrange(0, ct.len() as int) == ct && rest.len() == rest.len());
    }
}

/// The body of a converted request.  A conversion to `POST` of a request
/// without a body takes the query string of the target (what follows its
/// first `?`, nothing when it has none) as the body; any other conversion
/// keeps the request's body.  A non-empty body ends the result, after a
/// `Content-Length` header giving its length in UTF-8 bytes and a blank
/// line; with an empty body the result ends with the blank line.
pub proof fn lemma_converted_body(request: Seq<char>, target_method: Seq<char>)
    ensures
        ({
            let nl = newline_of(request);
            let (head, body) = head_body(request, nl);
            let ws = words_spec(split_spec(head, nl)[0]);
            let sent = if upper_seq(target_method) == "POST"@ && body.len() == 0 {
                match split_once_spec(ws[1], seq!['?']) {
                    Some((p, q)) => q,
                    None => Seq::empty(),
                }
            } else {
                body
            };
            let ending = if sent.len() > 0 {
                "Content-Length: "@ + decimal(byte_len(sent)) + nl + nl + sent
            } else {
                nl + nl
            };
            ws.len() >= 2 ==> (convert_spec(request, target_method) matches Ok(out) && ending.len() <= out.len()
                && out.subrange(out.len() - ending.len(), out.len() as int) == ending)
        }),
{
    let nl = newline_of(request);
    let (head, body) = head_body(request, nl);
    let ps = split_spec(head, nl);
    let ws = words_spec(ps[0]);
    if ws.len() >= 2 {
        let sent = if upper_seq(target_method) == "POST"@ && body.len() == 0 {
            match split_once_spec(ws[1], seq!['?']) {
                Some((p, q)) => q,
                None => Seq::empty(),
            }
        } else {
            body
        };
        let ending = if sent.len() > 0 {
            "Content-Length: "@ + decimal(byte_len(sent)) + nl + nl + sent
        } else {
            nl + nl
        };
        let out = convert_spec(request, target_method)->Ok_0;
        let ver = if ws.len() >= 3 {
            ws[2]
        } else {
            "HTTP/1.1"@
        };
        let m = upper_seq(target_method);
        let ct = if m == "POST"@ && body.len() == 0 {
            match split_once_spec(ws[1], seq!['?']) {
                Some((p, q)) => p,
                None => ws[1],
            }
        } else {
            ws[1]
        };
        let front = m + seq![' '] + ct + seq![' '] + ver + kept_lines(ps.drop_first(), nl);
        if sent.len() > 0 {
            let f2 = front + nl;
            assert(out =~= f2 + ending);
        } else {
            assert(out =~= front + ending);
        }
    }
}

/// The converted request: start line, kept header lines, a recomputed
/// `Content-Length` when there is a body, a blank line and the body.
pub open spec fn converted_text(
    m: Seq<char>,
    target: Seq<char>,
    version: Seq<char>,
    rest: Seq<Seq<char>>,
    nl: Seq<char>,
    body: Seq<char>,
) -> Seq<char> {
    m + seq![' '] + target + seq![' '] + version + kept_lines(rest, nl) + (if body.len() > 0 {
        nl + "Content-Length: "@ + decimal(byte_len(body))
    } else {
        Seq::empty()
    }) + nl + nl + body
}

fn assemble_converted(
    m: &[char],
    target: &[char],
    version: &[char],
    ps: &Vec<Vec<char>>,
    nl: &[char],
    body: &[char],
) -> (r: Vec<char>)
    requires
        ps@.len() > 0,
    ensures
        r@ == converted_text(m@, target@, version@, vecs_view(ps@).drop_first(), nl@, body@),
{
    let ghost psv = vecs_view(ps@);
    let mut out: Vec<char> = Vec::new();
    push_all(&mut out, m);
    out.push(' ');
    push_all(&mut out, target);
    out.push(' ');
    push_all(&mut out, version);
    let ghost prefix = out@;
    let mut i: usize = 1;
    proof {
        assert(psv.drop_first().subrange(0, 0) =~= Seq::<Seq<char>>::empty());
        assert(out@ =~= prefix + kept_lines(psv.drop_first().subrange(0, 0), nl@));
    }
    let cl = lit_chars("content-length:");
    while i < ps.len()
        invariant
            1 <= i <= ps@.len(),
            psv == vecs_view(ps@),
            cl@ == "content-length:"@,
            out@ == prefix + kept_lines(psv.drop_first().subrange(0, i - 1), nl@),
        decreases ps@.len() - i,
    {
        proof {
            let p = psv.drop_first().subrange(0, i as int);
            assert(p.drop_last() =~= psv.drop_first().subrange(0, i - 1));
            assert(p.last() == ps@[i as int]@);
        }
        let lowered = lowercase_chars(ps[i].as_slice());
        if !starts_with_chars(lowered.as_slice(), cl.as_slice()) {
            push_all(&mut out, nl);
            push_all(&mut out, ps[i].as_slice());
            proof {
                assert(out@ =~= prefix + kept_lines(psv.drop_first().subrange(0, i as int), nl@));
            }
        }
        i += 1;
    }
    proof {
        assert(psv.drop_first().subrange(0, ps@.len() - 1) =~= psv.drop_first());
    }
    let ghost mid = out@;
    if body.len() > 0 {
        push_all(&mut out, nl);
        push_all(&mut out, lit_chars("Content-Length: ").as_slice());
        push_all(&mut out, decimal_chars(byte_len_of(body)).as_slice());
    }
    push_all(&mut out, nl);
    push_all(&mut out, nl);
    push_all(&mut out, body);
    proof {
        assert(out@ =~= converted_text(m@, target@, version@, psv.drop_first(), nl@, body@));
    }
    out
}

fn newline_chars(s: &[char]) -> (r: Vec<char>)
    ensures
        r@ == newline_of(s@),
        r@.len() > 0,
{
    let c = crlf_chars();
    if find_first(s, c.as_slice()).is_some() {
        c
    } else {
        let mut v: Vec<char> = Vec::new();
        v.push('\n');
        proof {
            assert(v@ =~= seq!['\n']);
        }
        v
    }
}

fn head_body_of(s: &[char], nl: &[char]) -> (r: (Vec<char>, Vec<char>))
    ensures
        (r.0@, r.1@) == head_body(s@, nl@),
{
    let mut d: Vec<char> = Vec::new();
    push_all(&mut d, nl);
    push_all(&mut d, nl);
    match split_once_chars(s, d.as_slice()) {
        Some((h, b)) => (h, b),
        None => (subrange_chars(s, 0, s.len()), Vec::new()),
    }
}

pub(crate) fn byte_len_of(s: &[char]) -> (r: u128)
    ensures
        r == byte_len(s@),
{
    proof {
        crate::payload::lemma_byte_len_bound(s@);
    }
    let mut total: u128 = 0;
    let mut i: usize = 0;
    proof {
        assert(s@.subrange(0, 0) =~= Seq::<char>::empty());
    }
    while i < s.len()
        invariant
            i <= s@.len(),
            total == byte_len(s@.subrange(0, i as int)),
            total <= 4 * i,
        decreases s@.len() - i,
    {
        proof {
            crate::payload::lemma_byte_len_prefix(s@, i as int);
        }
        let c = s[i];
        let w: u128 = if (c as u32) < 0x80 {
            1
        } else if (c as u32) < 0x800 {
            2
        } else if (c as u32) < 0x10000 {
            3
        } else {
            4
        };
        total = total + w;
        i += 1;
    }
    proof {
        assert(s@.subrange(0, s@.len() as int) =~= s@);
    }
    total
}

/// Re-sends a raw request with another method (see `convert_spec`).
pub fn convert_request_text(request: &str, target_method: &str) -> (r: Result<String, String>)
    ensures
        match (r, convert_spec(request@, target_method@)) {
            (Ok(a), Ok(b)) => a@ == b,
            (Err(a), Err(b)) => a@ == b,
            _ => false,
        },
{
    let s = chars_of(request);
    let nl = newline_chars(s.as_slice());
    let (head, body) = head_body_of(s.as_slice(), nl.as_slice());
    let ps = split_by(head.as_slice(), nl.as_slice());
    let ghost psv = vecs_view(ps@);
    let ws = words_of(ps[0].as_slice());
    if ws.len() == 0 {
        return Err(text_of("request line has no method"));
    }
    if ws.len() == 1 {
        return Err(text_of("request line has no target"));
    }
    let target = &ws[1];
    let version = if ws.len() >= 3 {
        subrange_chars(ws[2].as_slice(), 0, ws[2].len())
    } else {
        lit_chars("HTTP/1.1")
    };
    let m = uppercase_chars(chars_of(target_method).as_slice());
    let q = lit_chars("?");
    proof {
        reveal_strlit("?");
        assert(q@ =~= seq!['?']);
    }
    let ghost nlv = newline_of(request@);
    let ghost hb = head_body(request@, nlv);
    let ghost wsv = words_spec(split_spec(hb.0, nlv)[0]);
    proof {
        assert(nl@ == nlv);
        assert(head@ == hb.0 && body@ == hb.1);
        assert(ps@[0]@ == psv[0]);
        assert(vecs_view(ws@) == wsv);
        assert(target@ == wsv[1]);
        if ws@.len() >= 3 {
            assert(ws@[2]@ == wsv[2]);
            assert(version@ =~= wsv[2]);
        }
    }
    let (ct, cb) = if chars_eq(m.as_slice(), lit_chars("POST").as_slice()) && body.len() == 0 {
        match split_once_chars(target.as_slice(), q.as_slice()) {
            Some((p, qs)) => (p, qs),
            None => (subrange_chars(target.as_slice(), 0, target.len()), Vec::new()),
        }
    } else {
        (subrange_chars(target.as_slice(), 0, target.len()), subrange_chars(body.as_slice(), 0, body.len()))
    };
    let out = assemble_converted(m.as_slice(), ct.as_slice(), version.as_slice(), &ps, nl.as_slice(), cb.as_slice());
    proof {
        let version_v = if wsv.len() >= 3 {
            wsv[2]
        } else {
            "HTTP/1.1"@
        };
        assert(version@ == version_v);
        let mv = upper_seq(target_method@);
        assert(m@ == mv);
        let pair = if mv == "POST"@ && hb.1.len() == 0 {
            match split_once_spec(wsv[1], seq!['?']) {
                Some((p, q)) => (p, q),
                None => (wsv[1], Seq::<char>::empty()),
            }
        } else {
            (wsv[1], hb.1)
        };
        assert(ct@ =~= pair.0);
        assert(cb@ =~= pair.1);
    }
    Ok(string_from_chars(out.as_slice()))
}


// ---------------------------------------------------------------------------
// The authority of a raw request
// ---------------------------------------------------------------------------

/// The head of a raw request: before the first `\r\n\r\n`, else before the
/// first `\n\n`, else all of it.
pub open spec fn request_head(s: Seq<char>) -> Seq<char> {
    match split_once_spec(s, crate::http_text::crlf2()) {
        Some((h, _)) => h,
        None => match split_once_spec(s, lf2()) {
            Some((h, _)) => h,
            None => s,
        },
    }
}

/// The trimmed value of the first `Host:` line (name compared ignoring
/// ASCII case, not trimmed).
pub open spec fn first_host(ls: Seq<Seq<char>>) -> Option<Seq<char>>
    decreases ls.len(),
{
    if ls.len() == 0 {
        None
    } else {
        match split_once_spec(ls[0], colon()) {
            Some((n, v)) => if eq_ignore_case(n, "host"@) {
                Some(trim_seq(v))
            } else {
                first_host(ls.drop_first())
            },
            None => first_host(ls.drop_first()),
        }
    }
}

/// The host and explicit port of a `Host` header value, as the URL
/// `http://{authority}/` has them.
pub open spec fn authority_spec(a: Seq<char>) -> Result<(Seq<char>, Option<u32>), Seq<char>> {
    let u = "http://"@ + a + "/"@;
    match url_parts_of(u) {
        None => Err("invalid Host header `"@ + a + "`: "@ + url_parse_error(u)),
        Some(p) => match p.1 {
            None => Err("invalid Host header `"@ + a + "`"@),
            Some(h) => Ok(
                (
                    h,
                    match p.2 {
                        Some(port) => Some(port as u32),
                        None => None,
                    },
                ),
            ),
        },
    }
}

pub fn parse_http_authority(authority: &str) -> (r: Result<(String, Option<u32>), String>)
    ensures
        match (r, authority_spec(authority@)) {
            (Ok((h, p)), Ok((h2, p2))) => h@ == h2 && p == p2,
            (Err(e), Err(e2)) => e@ == e2,
            _ => false,
        },
{
    let mut u = lit_chars("http://");
    push_all(&mut u, chars_of(authority).as_slice());
    push_all(&mut u, lit_chars("/").as_slice());
    let us = string_from_chars(u.as_slice());
    match parse_url(us.as_str()) {
        Err(e) => {
            let mut m = lit_chars("invalid Host header `");
            push_all(&mut m, chars_of(authority).as_slice());
            push_all(&mut m, lit_chars("`: ").as_slice());
            push_all(&mut m, chars_of(e.as_str()).as_slice());
            Err(string_from_chars(m.as_slice()))
        },
        Ok(parts) => match parts.host {
            None => {
                let mut m = lit_chars("invalid Host header `");
                push_all(&mut m, chars_of(authority).as_slice());
                push_all(&mut m, lit_chars("`").as_slice());
                Err(string_from_chars(m.as_slice()))
            },
            Some(h) => {
                let port: Option<u32> = match parts.port {
                    Some(p) => Some(p as u32),
                    None => None,
                };
                Ok((h, port))
            },
        },
    }
}

pub open spec fn bad_request_line() -> Seq<char> {
    "raw `request` must start with `<METHOD> <request-target> HTTP/<version>`"@
}

/// The host and port a raw request names in its `Host` header, if any,
/// after checking its request line.
pub open spec fn raw_authority_spec(request: Seq<char>) -> Result<(Option<Seq<char>>, Option<u32>), Seq<char>> {
    let ls = lines_spec(request_head(request));
    if ls.len() == 0 {
        Err("raw `request` must include an HTTP request line"@)
    } else if words_spec(ls[0]).len() < 3 || !starts_with_seq(words_spec(ls[0])[2], "HTTP/"@) {
        Err(bad_request_line())
    } else {
        match first_host(ls.drop_first()) {
            None => Ok((None, None)),
            Some(a) => if a.len() == 0 {
                Err("Host header must not be empty"@)
            } else {
                match authority_spec(a) {
                    Ok((h, p)) => Ok((Some(h), p)),
                    Err(e) => Err(e),
                }
            },
        }
    }
}

pub open spec fn opt_text(o: Option<String>) -> Option<Seq<char>> {
    match o {
        Some(s) => Some(s@),
        None => None,
    }
}

#[verifier::loop_isolation(false)]
pub fn authority_from_raw_request(request: &str) -> (r: Result<(Option<String>, Option<u32>), String>)
    ensures
        match (r, raw_authority_spec(request@)) {
            (Ok((h, p)), Ok((h2, p2))) => opt_text(h) == h2 && p == p2,
            (Err(e), Err(e2)) => e@ == e2,
            _ => false,
        },
{
    let s = chars_of(request);
    let head = match split_once_chars(s.as_slice(), crlf2_chars().as_slice()) {
        Some((h, _)) => h,
        None => match split_once_chars(s.as_slice(), lf2_chars().as_slice()) {
            Some((h, _)) => h,
            None => s,
        },
    };
    let ls = lines_of(head.as_slice());
    let ghost lsv = vecs_view(ls@);
    if ls.len() == 0 {
        return Err(text_of("raw `request` must include an HTTP request line"));
    }
    let ws = words_of(ls[0].as_slice());
    assert(ls@[0]@ == lsv[0]);
    if ws.len() < 3 || !starts_with_chars(ws[2].as_slice(), lit_chars("HTTP/").as_slice()) {
        proof {
            if ws@.len() >= 3 {
                assert(ws@[2]@ == words_spec(lsv[0])[2]);
            }
        }
        return Err(text_of("raw `request` must start with `<METHOD> <request-target> HTTP/<version>`"));
    }
    proof {
        assert(ws@[2]@ == words_spec(lsv[0])[2]);
    }
    let c = lit_chars(":");
    proof {
        reveal_strlit(":");
        assert(c@ =~= colon());
    }
    let host_lit = lit_chars("host");
    let mut i: usize = 1;
    let mut host: Option<Vec<char>> = None;
    proof {
        assert(lsv.subrange(1, lsv.len() as int) =~= lsv.drop_first());
    }
    while i < ls.len()
        invariant
            1 <= i <= ls@.len(),
            lsv == vecs_view(ls@),
            host is None,
            first_host(lsv.subrange(i as int, lsv.len() as int)) == first_host(lsv.drop_first()),
        decreases ls@.len() - i,
    {
        let ghost rest = lsv.subrange(i as int, lsv.len() as int);
        proof {
            assert(rest[0] == ls@[i as int]@);
            assert(rest.drop_first() =~= lsv.subrange(i + 1, lsv.len() as int));
        }
        match split_once_chars(ls[i].as_slice(), c.as_slice()) {
            Some((n, v)) => {
                if eq_ignore_ascii_case(n.as_slice(), host_lit.as_slice()) {
                    host = Some(trim_chars(v.as_slice()));
                    break;
                }
            },
            None => {},
        }
        i += 1;
    }
    proof {
        if host is None {
            assert(lsv.subrange(i as int, lsv.len() as int) =~= Seq::<Seq<char>>::empty());
        }
    }
    match host {
        None => Ok((None, None)),
        Some(a) => {
            if a.len() == 0 {
                return Err(text_of("Host header must not be empty"));
            }
            let a_str = string_from_chars(a.as_slice());
            match parse_http_authority(a_str.as_str()) {
                Ok((h, p)) => Ok((Some(h), p)),
                Err(e) => Err(e),
            }
        },
    }
}

/// The request to hand to Repeater: a non-empty raw request, the host given
/// or named by its `Host` header, the port given, named or the scheme's
/// default (1 to 65535), and the tab name (`MCP` by default).
pub open spec fn repeater_spec(input: SendToRepeaterInput) -> Result<(Seq<char>, u32, bool, Seq<char>), Seq<char>> {
    if trim_seq(input.request@).len() == 0 {
        Err("raw `request` must not be empty"@)
    } else {
        match raw_authority_spec(input.request@) {
            Err(e) => Err(e),
            Ok((rh, rp)) => {
                if input.host@.len() == 0 && rh is None {
                    Err("raw `request` must contain a Host header when `host` is omitted"@)
                } else {
                    let host = if input.host@.len() == 0 {
                        rh->0
                    } else {
                        input.host@
                    };
                    let https = match input.https {
                        Some(b) => b,
                        None => false,
                    };
                    let port: u32 = match input.port {
                        Some(p) => p,
                        None => match rp {
                            Some(p) => p,
                            None => if https {
                                443
                            } else {
                                80
                            },
                        },
                    };
                    if port == 0 || port > 65535 {
                        Err("`port` must be between 1 and 65535"@)
                    } else {
                        Ok(
                            (
                                host,
                                port,
                                https,
                                match input.tab_name {
                                    Some(t) => t@,
                                    None => "MCP"@,
                                },
                            ),
                        )
                    }
                }
            },
        }
    }
}

pub fn normalize_repeater_input(input: SendToRepeaterInput) -> (r: Result<SendToRepeaterRequest, String>)
    ensures
        match (r, repeater_spec(input)) {
            (Ok(q), Ok((h, p, s, t))) => q.host@ == h && q.port == p && q.https == s && q.tab_name@
                == t && q.request@ == vstd::utf8::encode_utf8(input.request@),
            (Err(e), Err(e2)) => e@ == e2,
            _ => false,
        },
{
    let ghost input0 = input;
    if trim_chars(chars_of(input.request.as_str()).as_slice()).len() == 0 {
        return Err(text_of("raw `request` must not be empty"));
    }
    let (request_host, request_port) = authority_from_raw_request(input.request.as_str())?;
    let host = if input.host.as_str().is_empty() {
        match request_host {
            Some(h) => h,
            None => {
                return Err(text_of("raw `request` must contain a Host header when `host` is omitted"));
            },
        }
    } else {
        input.host
    };
    let https = match input.https {
        Some(b) => b,
        None => false,
    };
    let port: u32 = match input.port {
        Some(p) => p,
        None => match request_port {
            Some(p) => p,
            None => if https {
                443
            } else {
                80
            },
        },
    };
    if port == 0 || port > 65535 {
        return Err(text_of("`port` must be between 1 and 65535"));
    }
    let bytes = vstd::slice::slice_to_vec(input.request.as_str().as_bytes());
    let tab_name = match input.tab_name {
        Some(t) => t,
        None => text_of("MCP"),
    };
    Ok(SendToRepeaterRequest { request: bytes, host, port, https, tab_name })
}


// ---------------------------------------------------------------------------
// Exporting a request as a command
// ---------------------------------------------------------------------------

/// `str::replace("\r\n", "\n")` from position `i` on.
pub open spec fn replace_crlf_from(s: Seq<char>, i: int) -> Seq<char>
    decreases s.len() - i,
{
    if i < 0 || i >= s.len() {
        Seq::empty()
    } else if i + 1 < s.len() && s[i] == '\r' && s[i + 1] == '\n' {
        seq!['\n'] + replace_crlf_from(s, i + 2)
    } else {
        seq![s[i]] + replace_crlf_from(s, i + 1)
    }
}

fn replace_crlf(s: &[char]) -> (r: Vec<char>)
    ensures
        r@ == replace_crlf_from(s@, 0),
{
    let mut out: Vec<char> = Vec::new();
    let mut i: usize = 0;
    let n = s.len();
    while i < n
        invariant
            i <= n,
            n == s@.len(),
            out@ + replace_crlf_from(s@, i as int) == replace_crlf_from(s@, 0),
        decreases n - i,
    {
        let ghost before = out@;
        if i + 1 < n && s[i] == '\r' && s[i + 1] == '\n' {
            out.push('\n');
            proof {
                assert(out@ + replace_crlf_from(s@, i + 2) =~= before + replace_crlf_from(s@, i as int));
            }
            i += 2;
        } else {
            out.push(s[i]);
            proof {
                assert(out@ + replace_crlf_from(s@, i + 1) =~= before + replace_crlf_from(s@, i as int));
            }
            i += 1;
        }
    }
    proof {
        assert(out@ + Seq::<char>::empty() =~= out@);
    }
    out
}

/// `format!("{:?}", s)`: the text as a Rust string literal.
pub uninterp spec fn debug_quoted(s: Seq<char>) -> Seq<char>;

/// `Debug` formatting of a string slice.  Its escaping rules are named, not
/// stated.
#[verifier::external_body]
fn debug_str(s: &str) -> (r: String)
    ensures
        r@ == debug_quoted(s@),
{
    format!("{:?}", s)
}

fn debug_chars(s: &[char]) -> (r: Vec<char>)
    ensures
        r@ == debug_quoted(s@),
{
    let t = string_from_chars(s);
    chars_of(debug_str(t.as_str()).as_str())
}

/// The rest of the first line that starts with `Host: ` or `host: `.
pub open spec fn host_line(ls: Seq<Seq<char>>) -> Option<Seq<char>>
    decreases ls.len(),
{
    if ls.len() == 0 {
        None
    } else if starts_with_seq(ls[0], "Host: "@) || starts_with_seq(ls[0], "host: "@) {
        Some(ls[0].subrange(6, ls[0].len() as int))
    } else {
        host_line(ls.drop_first())
    }
}

/// `"name": "value"` entries of the `name: value` lines other than
/// `Content-Length`.
pub open spec fn python_headers(ls: Seq<Seq<char>>) -> Seq<Seq<char>>
    decreases ls.len(),
{
    if ls.len() == 0 {
        Seq::empty()
    } else {
        let rest = python_headers(ls.drop_last());
        match split_once_spec(ls.last(), colon()) {
            Some((n, v)) => if eq_ignore_case(n, "content-length"@) {
                rest
            } else {
                rest.push(debug_quoted(trim_seq(n)) + ": "@ + debug_quoted(trim_seq(v)))
            },
            None => rest,
        }
    }
}

/// ` -H 'line'` for each non-empty line other than `Content-Length`.
pub open spec fn curl_headers(ls: Seq<Seq<char>>) -> Seq<char>
    decreases ls.len(),
{
    if ls.len() == 0 {
        Seq::empty()
    } else if is_content_length_line(ls.last()) || ls.last().len() == 0 {
        curl_headers(ls.drop_last())
    } else {
        curl_headers(ls.drop_last()) + " -H "@ + shell_quote_spec(ls.last())
    }
}

/// A raw request exported `raw` (unchanged), as a `curl` command, or as a
/// Python `requests` call.
pub open spec fn export_spec(input: ExportRequestInput) -> Result<Seq<char>, Seq<char>> {
    let req = replace_crlf_from(input.request@, 0);
    let (head, body) = match split_once_spec(req, lf2()) {
        Some((h, b)) => (h, b),
        None => (req, Seq::empty()),
    };
    let ls = lines_spec(head);
    let ws = words_spec(ls[0]);
    let host = match input.host {
        Some(h) => Some(h@),
        None => host_line(ls.drop_first()),
    };
    let format = lower_seq(
        match input.format {
            Some(f) => f@,
            None => "curl"@,
        },
    );
    if ls.len() == 0 {
        Err("request is empty"@)
    } else if ws.len() == 0 {
        Err("request line has no method"@)
    } else if ws.len() == 1 {
        Err("request line has no target"@)
    } else if format == "raw"@ {
        Ok(input.request@)
    } else if host is None {
        Err("host is required when the request has no Host header"@)
    } else {
        let scheme = if match input.https {
            Some(b) => b,
            None => true,
        } {
            "https"@
        } else {
            "http"@
        };
        let target = ws[1];
        let url = if starts_with_seq(target, "http://"@) || starts_with_seq(target, "https://"@) {
            target
        } else {
            scheme + "://"@ + host->0 + target
        };
        if format == "python"@ {
            Ok(
                "requests.request("@ + debug_quoted(ws[0]) + ", "@ + debug_quoted(url)
                    + ", headers={"@ + join_spec(python_headers(ls.drop_first()), ", "@)
                    + "}, data="@ + debug_quoted(body) + ")"@,
            )
        } else if format != "curl"@ {
            Err("format must be raw, curl, or python"@)
        } else {
            Ok(
                "curl -X "@ + shell_quote_spec(ws[0]) + " "@ + shell_quote_spec(url) + curl_headers(
                    ls.drop_first(),
                ) + if body.len() > 0 {
                    " --data-raw "@ + shell_quote_spec(body)
                } else {
                    Seq::empty()
                },
            )
        }
    }
}

fn python_headers_of(ls: &Vec<Vec<char>>) -> (r: Vec<char>)
    requires
        ls@.len() > 0,
    ensures
        r@ == join_spec(python_headers(vecs_view(ls@).drop_first()), ", "@),
{
    let ghost lsv = vecs_view(ls@);
    let c = lit_chars(":");
    proof {
        reveal_strlit(":");
        assert(c@ =~= colon());
    }
    let sep = lit_chars(", ");
    let cl = lit_chars("content-length");
    let mut entries: Vec<Vec<char>> = Vec::new();
    let mut i: usize = 1;
    proof {
        assert(lsv.drop_first().subrange(0, 0) =~= Seq::<Seq<char>>::empty());
        assert(vecs_view(entries@) =~= Seq::<Seq<char>>::empty());
    }
    while i < ls.len()
        invariant
            1 <= i <= ls@.len(),
            lsv == vecs_view(ls@),
            c@ == colon(),
            cl@ == "content-length"@,
            vecs_view(entries@) == python_headers(lsv.drop_first().subrange(0, i - 1)),
        decreases ls@.len() - i,
    {
        proof {
            let p = lsv.drop_first().subrange(0, i as int);
            assert(p.drop_last() =~= lsv.drop_first().subrange(0, i - 1));
            assert(p.last() == ls@[i as int]@);
        }
        let ghost before = vecs_view(entries@);
        match split_once_chars(ls[i].as_slice(), c.as_slice()) {
            Some((n, v)) => {
                if !eq_ignore_ascii_case(n.as_slice(), cl.as_slice()) {
                    let mut e = debug_chars(trim_chars(n.as_slice()).as_slice());
                    push_all(&mut e, lit_chars(": ").as_slice());
                    push_all(&mut e, debug_chars(trim_chars(v.as_slice()).as_slice()).as_slice());
                    entries.push(e);
                    proof {
                        assert(vecs_view(entries@) =~= before.push(e@));
                    }
                }
            },
            None => {},
        }
        i += 1;
    }
    proof {
        assert(lsv.drop_first().subrange(0, ls@.len() - 1) =~= lsv.drop_first());
    }
    let ghost ev = vecs_view(entries@);
    let mut out: Vec<char> = Vec::new();
    let mut k: usize = 0;
    proof {
        assert(ev.subrange(0, 0) =~= Seq::<Seq<char>>::empty());
    }
    while k < entries.len()
        invariant
            k <= entries@.len(),
            ev == vecs_view(entries@),
            sep@ == ", "@,
            out@ == join_spec(ev.subrange(0, k as int), ", "@),
        decreases entries@.len() - k,
    {
        let ghost before = out@;
        proof {
            let p = ev.subrange(0, k + 1);
            assert(p.drop_last() =~= ev.subrange(0, k as int));
            assert(p.last() == entries@[k as int]@);
        }
        if k > 0 {
            push_all(&mut out, sep.as_slice());
        }
        push_all(&mut out, entries[k].as_slice());
        proof {
            if k > 0 {
                assert(out@ =~= before + ", "@ + entries@[k as int]@);
            } else {
                assert(out@ =~= entries@[k as int]@);
            }
        }
        k += 1;
    }
    proof {
        assert(ev.subrange(0, ev.len() as int) =~= ev);
    }
    out
}

fn curl_headers_of(ls: &Vec<Vec<char>>) -> (r: Vec<char>)
    requires
        ls@.len() > 0,
    ensures
        r@ == curl_headers(vecs_view(ls@).drop_first()),
{
    let ghost lsv = vecs_view(ls@);
    let cl = lit_chars("content-length:");
    let mut out: Vec<char> = Vec::new();
    let mut i: usize = 1;
    proof {
        assert(lsv.drop_first().subrange(0, 0) =~= Seq::<Seq<char>>::empty());
    }
    while i < ls.len()
        invariant
            1 <= i <= ls@.len(),
            lsv == vecs_view(ls@),
            cl@ == "content-length:"@,
            out@ == curl_headers(lsv.drop_first().subrange(0, i - 1)),
        decreases ls@.len() - i,
    {
        proof {
            let p = lsv.drop_first().subrange(0, i as int);
            assert(p.drop_last() =~= lsv.drop_first().subrange(0, i - 1));
            assert(p.last() == ls@[i as int]@);
        }
        let ghost before = out@;
        let lowered = lowercase_chars(ls[i].as_slice());
        if !starts_with_chars(lowered.as_slice(), cl.as_slice()) && ls[i].len() > 0 {
            push_all(&mut out, lit_chars(" -H ").as_slice());
            push_all(&mut out, shell_quote_chars(ls[i].as_slice()).as_slice());
            proof {
                assert(out@ =~= before + " -H "@ + shell_quote_spec(ls@[i as int]@));
            }
        }
        i += 1;
    }
    proof {
        assert(lsv.drop_first().subrange(0, ls@.len() - 1) =~= lsv.drop_first());
    }
    out
}

fn find_host_line(ls: &Vec<Vec<char>>) -> (r: Option<Vec<char>>)
    requires
        ls@.len() > 0,
    ensures
        match r {
            Some(h) => host_line(vecs_view(ls@).drop_first()) == Some(h@),
            None => host_line(vecs_view(ls@).drop_first()) is None,
        },
{
    let ghost lsv = vecs_view(ls@);
    let h1 = lit_chars("Host: ");
    let h2 = lit_chars("host: ");
    let mut i: usize = 1;
    proof {
        assert(lsv.subrange(1, lsv.len() as int) =~= lsv.drop_first());
    }
    while i < ls.len()
        invariant
            1 <= i <= ls@.len(),
            lsv == vecs_view(ls@),
            h1@ == "Host: "@,
            h2@ == "host: "@,
            host_line(lsv.subrange(i as int, lsv.len() as int)) == host_line(lsv.drop_first()),
        decreases ls@.len() - i,
    {
        let ghost rest = lsv.subrange(i as int, lsv.len() as int);
        proof {
            assert(rest[0] == ls@[i as int]@);
            assert(rest.drop_first() =~= lsv.subrange(i + 1, lsv.len() as int));
        }
        if starts_with_chars(ls[i].as_slice(), h1.as_slice()) || starts_with_chars(ls[i].as_slice(), h2.as_slice()) {
            proof {
                reveal_strlit("Host: ");
                reveal_strlit("host: ");
            }
            return Some(subrange_chars(ls[i].as_slice(), 6, ls[i].len()));
        }
        i += 1;
    }
    proof {
        assert(lsv.subrange(i as int, lsv.len() as int) =~= Seq::<Seq<char>>::empty());
    }
    None
}

/// Exports a raw request (see `export_spec`).
#[verifier::rlimit(40)]
pub fn export_request_text(input: ExportRequestInput) -> (r: Result<String, String>)
    ensures
        match (r, export_spec(input)) {
            (Ok(a), Ok(b)) => a@ == b,
            (Err(a), Err(b)) => a@ == b,
            _ => false,
        },
{
    let req = replace_crlf(chars_of(input.request.as_str()).as_slice());
    let (head, body) = match split_once_chars(req.as_slice(), lf2_chars().as_slice()) {
        Some((h, b)) => (h, b),
        None => (req, Vec::new()),
    };
    let ls = lines_of(head.as_slice());
    let ghost lsv = vecs_view(ls@);
    if ls.len() == 0 {
        return Err(text_of("request is empty"));
    }
    assert(ls@[0]@ == lsv[0]);
    let ws = words_of(ls[0].as_slice());
    if ws.len() == 0 {
        return Err(text_of("request line has no method"));
    }
    if ws.len() == 1 {
        return Err(text_of("request line has no target"));
    }
    let host: Option<Vec<char>> = match &input.host {
        Some(h) => Some(chars_of(h.as_str())),
        None => find_host_line(&ls),
    };
    let format = match &input.format {
        Some(f) => lowercase_chars(chars_of(f.as_str()).as_slice()),
        None => lowercase_chars(lit_chars("curl").as_slice()),
    };
    if chars_eq(format.as_slice(), lit_chars("raw").as_slice()) {
        return Ok(input.request);
    }
    let host = match host {
        Some(h) => h,
        None => {
            return Err(text_of("host is required when the request has no Host header"));
        },
    };
    let https = match input.https {
        Some(b) => b,
        None => true,
    };
    let target = &ws[1];
    let url = if starts_with_chars(target.as_slice(), lit_chars("http://").as_slice())
        || starts_with_chars(target.as_slice(), lit_chars("https://").as_slice()) {
        subrange_chars(target.as_slice(), 0, target.len())
    } else {
        let mut u = if https {
            lit_chars("https")
        } else {
            lit_chars("http")
        };
        push_all(&mut u, lit_chars("://").as_slice());
        push_all(&mut u, host.as_slice());
        push_all(&mut u, target.as_slice());
        u
    };
    assert(ws@[0]@ == words_spec(lsv[0])[0]);
    assert(ws@[1]@ == words_spec(lsv[0])[1]);
    let ghost hostv = match input.host {
        Some(h) => Some(h@),
        None => host_line(lsv.drop_first()),
    };
    let ghost target_v = words_spec(lsv[0])[1];
    let ghost scheme = if https {
        "https"@
    } else {
        "http"@
    };
    let ghost url_v = if starts_with_seq(target_v, "http://"@) || starts_with_seq(target_v, "https://"@) {
        target_v
    } else {
        scheme + "://"@ + hostv->0 + target_v
    };
    proof {
        assert(hostv == Some(host@));
        assert(url@ =~= url_v);
    }
    if chars_eq(format.as_slice(), lit_chars("python").as_slice()) {
        let mut out = lit_chars("requests.request(");
        push_all(&mut out, debug_chars(ws[0].as_slice()).as_slice());
        push_all(&mut out, lit_chars(", ").as_slice());
        push_all(&mut out, debug_chars(url.as_slice()).as_slice());
        push_all(&mut out, lit_chars(", headers={").as_slice());
        push_all(&mut out, python_headers_of(&ls).as_slice());
        push_all(&mut out, lit_chars("}, data=").as_slice());
        push_all(&mut out, debug_chars(body.as_slice()).as_slice());
        push_all(&mut out, lit_chars(")").as_slice());
        proof {
            assert(out@ =~= "requests.request("@ + debug_quoted(words_spec(lsv[0])[0]) + ", "@ + debug_quoted(url_v)
                + ", headers={"@ + join_spec(python_headers(lsv.drop_first()), ", "@)
                + "}, data="@ + debug_quoted(body@) + ")"@);
        }
        return Ok(string_from_chars(out.as_slice()));
    }
    if !chars_eq(format.as_slice(), lit_chars("curl").as_slice()) {
        return Err(text_of("format must be raw, curl, or python"));
    }
    let mut out = lit_chars("curl -X ");
    push_all(&mut out, shell_quote_chars(ws[0].as_slice()).as_slice());
    push_all(&mut out, lit_chars(" ").as_slice());
    push_all(&mut out, shell_quote_chars(url.as_slice()).as_slice());
    push_all(&mut out, curl_headers_of(&ls).as_slice());
    let ghost mid = out@;
    if body.len() > 0 {
        push_all(&mut out, lit_chars(" --data-raw ").as_slice());
        push_all(&mut out, shell_quote_chars(body.as_slice()).as_slice());
    }
    proof {
        assert(mid =~= "curl -X "@ + shell_quote_spec(words_spec(lsv[0])[0]) + " "@ + shell_quote_spec(url_v) + curl_headers(lsv.drop_first()));
        assert(out@ =~= "curl -X "@ + shell_quote_spec(words_spec(lsv[0])[0]) + " "@ + shell_quote_spec(url_v) + curl_headers(
                    lsv.drop_first(),
                ) + if body@.len() > 0 {
                    " --data-raw "@ + shell_quote_spec(body@)
                } else {
                    Seq::<char>::empty()
                });
    }
    Ok(string_from_chars(out.as_slice()))
}


// ---------------------------------------------------------------------------
// Building a request from a URL
// ---------------------------------------------------------------------------

/// The entries as a map (a later entry for the same name wins).
pub open spec fn entries_map(e: Seq<(Seq<char>, Seq<char>)>) -> Map<Seq<char>, Seq<char>>
    decreases e.len(),
{
    if e.len() == 0 {
        Map::empty()
    } else {
        entries_map(e.drop_last()).insert(e.last().0, e.last().1)
    }
}

pub open spec fn has_name(e: Seq<(Seq<char>, Seq<char>)>, name: Seq<char>) -> bool {
    exists|k: int| 0 <= k < e.len() && eq_ignore_case(#[trigger] e[k].0, name)
}

/// `name: value\r\n` for each entry.
pub open spec fn header_block(e: Seq<(Seq<char>, Seq<char>)>) -> Seq<char>
    decreases e.len(),
{
    if e.len() == 0 {
        Seq::empty()
    } else {
        header_block(e.drop_last()) + e.last().0 + ": "@ + e.last().1 + crlf()
    }
}

pub open spec fn accepted_fields_hint() -> Seq<char> {
    "provide either `url` or a complete raw HTTP `request`; accepted fields for this action: url, method?, body?, headers?, request?, host?, port?, https?, tab_name?"@
}

/// The raw request text built from a URL: request line, `Host` (with the
/// explicit port) unless a `Host` header is given, the headers in name
/// order, `Content-Length` for a body unless given, a blank line, the body.
pub open spec fn built_request(
    method: Seq<char>,
    target: Seq<char>,
    host: Seq<char>,
    explicit_port: Option<u16>,
    port: u32,
    sorted: Seq<(Seq<char>, Seq<char>)>,
    given: Seq<(Seq<char>, Seq<char>)>,
    body: Seq<char>,
) -> Seq<char> {
    built_head(method, target, host, explicit_port, port, given) + header_block(sorted)
        + request_tail(given, body)
}

/// The request line and, unless a `Host` header is given, the `Host` line.
pub open spec fn built_head(
    method: Seq<char>,
    target: Seq<char>,
    host: Seq<char>,
    explicit_port: Option<u16>,
    port: u32,
    given: Seq<(Seq<char>, Seq<char>)>,
) -> Seq<char> {
    method + seq![' '] + target + " HTTP/1.1"@ + crlf() + (if has_name(given, "host"@) {
        Seq::empty()
    } else {
        "Host: "@ + host + (if explicit_port is Some {
            seq![':'] + decimal(port as nat)
        } else {
            Seq::empty()
        }) + crlf()
    })
}

/// `Content-Length` for a body unless given, the blank line and the body.
pub open spec fn request_tail(given: Seq<(Seq<char>, Seq<char>)>, body: Seq<char>) -> Seq<char> {
    (if body.len() > 0 && !has_name(given, "content-length"@) {
        "Content-Length: "@ + decimal(byte_len(body)) + crlf()
    } else {
        Seq::empty()
    }) + crlf() + body
}

fn has_name_ci(e: &Vec<(String, String)>, name: &str) -> (r: bool)
    ensures
        r == has_name(entries_view(e@), name@),
{
    let nc = chars_of(name);
    let mut i: usize = 0;
    while i < e.len()
        invariant
            i <= e@.len(),
            nc@ == name@,
            forall|k: int| 0 <= k < i ==> !eq_ignore_case(#[trigger] entries_view(e@)[k].0, name@),
        decreases e@.len() - i,
    {
        if eq_ignore_ascii_case(chars_of(e[i].0.as_str()).as_slice(), nc.as_slice()) {
            assert(eq_ignore_case(entries_view(e@)[i as int].0, name@));
            return true;
        }
        i += 1;
    }
    false
}

fn sorted_headers(hs: &Vec<(String, String)>) -> (r: Vec<(String, String)>)
    ensures
        represents(entries_view(r@), entries_map(entries_view(hs@))),
{
    let ghost given = entries_view(hs@);
    let mut sorted: Vec<(String, String)> = Vec::new();
    let mut i: usize = 0;
    proof {
        assert(given.subrange(0, 0) =~= Seq::<(Seq<char>, Seq<char>)>::empty());
        assert(entries_view(sorted@) =~= Seq::<(Seq<char>, Seq<char>)>::empty());
        assert(represents(entries_view(sorted@), Map::<Seq<char>, Seq<char>>::empty()));
    }
    while i < hs.len()
        invariant
            i <= hs@.len(),
            given == entries_view(hs@),
            represents(entries_view(sorted@), entries_map(given.subrange(0, i as int))),
        decreases hs@.len() - i,
    {
        proof {
            let p = given.subrange(0, i + 1);
            assert(p.drop_last() =~= given.subrange(0, i as int));
            assert(p.last() == given[i as int]);
        }
        put_entry(&mut sorted, hs[i].0.clone(), hs[i].1.clone(), Ghost(entries_map(given.subrange(0, i as int))));
        i += 1;
    }
    proof {
        assert(given.subrange(0, given.len() as int) =~= given);
    }
    sorted
}

fn push_request_head(
    req: &mut Vec<char>,
    m: &Vec<char>,
    target: &Vec<char>,
    host: &Vec<char>,
    explicit_port: Option<u16>,
    port: u32,
    hs: &Vec<(String, String)>,
)
    ensures
        final(req)@ == old(req)@ + built_head(m@, target@, host@, explicit_port, port, entries_view(hs@)),
{
    let ghost start = req@;
    push_all(req, m.as_slice());
    req.push(' ');
    push_all(req, target.as_slice());
    push_all(req, lit_chars(" HTTP/1.1").as_slice());
    push_all(req, crlf_chars().as_slice());
    let ghost line = req@;
    if !has_name_ci(hs, "host") {
        push_all(req, lit_chars("Host: ").as_slice());
        push_all(req, host.as_slice());
        if explicit_port.is_some() {
            req.push(':');
            push_all(req, decimal_chars(port as u128).as_slice());
        }
        push_all(req, crlf_chars().as_slice());
    }
    proof {
        assert(line =~= start + (m@ + seq![' '] + target@ + " HTTP/1.1"@ + crlf()));
        assert(req@ =~= start + built_head(m@, target@, host@, explicit_port, port, entries_view(hs@)));
    }
}

fn push_header_block(req: &mut Vec<char>, sorted: &Vec<(String, String)>)
    ensures
        final(req)@ == old(req)@ + header_block(entries_view(sorted@)),
{
    let ghost sv = entries_view(sorted@);
    let mut k: usize = 0;
    let ghost before_headers = req@;
    proof {
        assert(sv.subrange(0, 0) =~= Seq::<(Seq<char>, Seq<char>)>::empty());
        assert(req@ =~= before_headers + header_block(sv.subrange(0, 0)));
    }
    while k < sorted.len()
        invariant
            k <= sorted@.len(),
            sv == entries_view(sorted@),
            req@ == before_headers + header_block(sv.subrange(0, k as int)),
        decreases sorted@.len() - k,
    {
        proof {
            let p = sv.subrange(0, k + 1);
            assert(p.drop_last() =~= sv.subrange(0, k as int));
            assert(p.last() == sv[k as int]);
        }
        push_all(req, chars_of(sorted[k].0.as_str()).as_slice());
        push_all(req, lit_chars(": ").as_slice());
        push_all(req, chars_of(sorted[k].1.as_str()).as_slice());
        push_all(req, crlf_chars().as_slice());
        proof {
            assert(req@ =~= before_headers + header_block(sv.subrange(0, k + 1)));
        }
        k += 1;
    }
    proof {
        assert(sv.subrange(0, sv.len() as int) =~= sv);
    }
}

fn push_request_tail(req: &mut Vec<char>, hs: &Vec<(String, String)>, b: &Vec<char>)
    ensures
        final(req)@ == old(req)@ + request_tail(entries_view(hs@), b@),
{
    let ghost start = req@;
    if b.len() > 0 && !has_name_ci(hs, "content-length") {
        push_all(req, lit_chars("Content-Length: ").as_slice());
        push_all(req, decimal_chars(byte_len_of(b.as_slice())).as_slice());
        push_all(req, crlf_chars().as_slice());
    }
    push_all(req, crlf_chars().as_slice());
    push_all(req, b.as_slice());
    proof {
        assert(req@ =~= start + request_tail(entries_view(hs@), b@));
    }
}

fn build_request_text(
    m: &Vec<char>,
    target: &Vec<char>,
    host: &Vec<char>,
    explicit_port: Option<u16>,
    port: u32,
    sorted: &Vec<(String, String)>,
    hs: &Vec<(String, String)>,
    b: &Vec<char>,
) -> (r: Vec<char>)
    ensures
        r@ == built_request(m@, target@, host@, explicit_port, port, entries_view(sorted@), entries_view(hs@), b@),
{
    let mut req: Vec<char> = Vec::new();
    push_request_head(&mut req, m, target, host, explicit_port, port, hs);
    push_header_block(&mut req, sorted);
    push_request_tail(&mut req, hs, b);
    proof {
        assert(req@ =~= built_request(m@, target@, host@, explicit_port, port, entries_view(sorted@), entries_view(hs@), b@));
    }
    req
}

pub open spec fn url_port(p: (Seq<char>, Option<Seq<char>>, Option<u16>, Seq<char>, Option<Seq<char>>)) -> u32 {
    match p.2 {
        Some(x) => x as u32,
        None => (default_port(p.0)->0) as u32,
    }
}

pub open spec fn url_target(p: (Seq<char>, Option<Seq<char>>, Option<u16>, Seq<char>, Option<Seq<char>>)) -> Seq<char> {
    p.3 + match p.4 {
        Some(q) => seq!['?'] + q,
        None => Seq::empty(),
    }
}

pub open spec fn given_headers(headers: Option<&Vec<(String, String)>>) -> Seq<(Seq<char>, Seq<char>)> {
    match headers {
        Some(h) => entries_view(h@),
        None => Seq::empty(),
    }
}

pub open spec fn method_or_get(method: Option<&str>) -> Seq<char> {
    upper_seq(
        match method {
            Some(m) => m@,
            None => "GET"@,
        },
    )
}

pub open spec fn body_or_empty(body: Option<&str>) -> Seq<char> {
    match body {
        Some(b) => b@,
        None => Seq::empty(),
    }
}

/// The request text is the one built from URL parts `p`, with the given
/// headers in name order.
pub open spec fn url_request_ok(
    p: (Seq<char>, Option<Seq<char>>, Option<u16>, Seq<char>, Option<Seq<char>>),
    method: Seq<char>,
    body: Seq<char>,
    given: Seq<(Seq<char>, Seq<char>)>,
    request: Seq<char>,
) -> bool {
    exists|sorted: Seq<(Seq<char>, Seq<char>)>|
        #![trigger represents(sorted, entries_map(given))]
        represents(sorted, entries_map(given)) && request == built_request(
            method,
            url_target(p),
            p.1->0,
            p.2,
            url_port(p),
            sorted,
            given,
            body,
        )
}

/// Fills in `request` (and host, port and scheme) from a URL when no raw
/// request is given; the headers are those of a map, given as its entries.
#[verifier::rlimit(40)]
pub fn repeater_input_from_http_action(
    input: SendToRepeaterInput,
    url: Option<&str>,
    method: Option<&str>,
    body: Option<&str>,
    headers: Option<&Vec<(String, String)>>,
) -> (r: Result<SendToRepeaterInput, String>)
    ensures
        input.request@.len() > 0 ==> r == Ok::<SendToRepeaterInput, String>(input),
        input.request@.len() == 0 ==> match url {
            None => (r matches Err(e) && e@ == accepted_fields_hint()),
            Some(u) => match url_parts_of(u@) {
                None => (r matches Err(e) && e@ == "`url` must be an absolute http(s) URL: "@ + url_parse_error(u@)),
                Some(p) => if !(p.0 == "http"@ || p.0 == "https"@) {
                    (r matches Err(e) && e@ == "unsupported URL scheme `"@ + p.0 + "`; use `http` or `https`"@)
                } else if p.1 is None {
                    (r matches Err(e) && e@ == "`url` must include a host"@)
                } else {
                    r matches Ok(out) && out.host@ == p.1->0 && out.https == Some(p.0 == "https"@)
                        && out.port == Some(url_port(p)) && out.tab_name == input.tab_name
                        && url_request_ok(p, method_or_get(method), body_or_empty(body), given_headers(headers), out.request@)
                },
            },
        },
{
    if !input.request.as_str().is_empty() {
        return Ok(input);
    }
    let url = match url {
        Some(u) => u,
        None => {
            return Err(text_of("provide either `url` or a complete raw HTTP `request`; accepted fields for this action: url, method?, body?, headers?, request?, host?, port?, https?, tab_name?"));
        },
    };
    let parsed = match parse_url(url) {
        Ok(p) => p,
        Err(e) => {
            let mut m = lit_chars("`url` must be an absolute http(s) URL: ");
            push_all(&mut m, chars_of(e.as_str()).as_slice());
            return Err(string_from_chars(m.as_slice()));
        },
    };
    let sc = chars_of(parsed.scheme.as_str());
    let is_https = chars_eq(sc.as_slice(), lit_chars("https").as_slice());
    if !chars_eq(sc.as_slice(), lit_chars("http").as_slice()) && !is_https {
        let mut m = lit_chars("unsupported URL scheme `");
        push_all(&mut m, sc.as_slice());
        push_all(&mut m, lit_chars("`; use `http` or `https`").as_slice());
        return Err(string_from_chars(m.as_slice()));
    }
    let host = match &parsed.host {
        Some(h) => chars_of(h.as_str()),
        None => {
            return Err(text_of("`url` must include a host"));
        },
    };
    let port: u32 = match parsed.port {
        Some(x) => x as u32,
        None => if is_https {
            443
        } else {
            80
        },
    };
    let mut target = chars_of(parsed.path.as_str());
    if let Some(q) = &parsed.query {
        target.push('?');
        push_all(&mut target, chars_of(q.as_str()).as_slice());
    }
    let m = match method {
        Some(m) => uppercase_chars(chars_of(m).as_slice()),
        None => uppercase_chars(lit_chars("GET").as_slice()),
    };
    let b = match body {
        Some(b) => chars_of(b),
        None => Vec::new(),
    };
    let empty: Vec<(String, String)> = Vec::new();
    let hs: &Vec<(String, String)> = match headers {
        Some(h) => h,
        None => &empty,
    };
    let sorted = sorted_headers(hs);
    let req = build_request_text(&m, &target, &host, parsed.port, port, &sorted, hs, &b);
    let ghost tgt = parsed.path@ + match crate::urls::opt_text(parsed.query) {
        Some(q) => seq!['?'] + q,
        None => Seq::<char>::empty(),
    };
    proof {
        assert(target@ =~= tgt);
        let pv = url_parts_of(url@)->0;
        assert(pv == crate::urls::parts_view(parsed));
        assert(sc@ == pv.0);
        if parsed.port is None {
            if is_https {
                assert(pv.0 == "https"@);
                reveal_strlit("https");
                reveal_strlit("http");
                reveal_strlit("ws");
                assert("https"@.len() == 5 && "http"@.len() == 4 && "ws"@.len() == 2);
                assert("https"@ != "http"@);
                assert("https"@ != "ws"@);
                assert(default_port(pv.0) == Some(443u16));
            } else {
                assert(pv.0 == "http"@);
                assert(default_port(pv.0) == Some(80u16));
            }
        }
        let given = match headers {
            Some(h) => entries_view(h@),
            None => Seq::<(Seq<char>, Seq<char>)>::empty(),
        };
        assert(entries_view(hs@) =~= given);
        assert(m@ == upper_seq(match method {
            Some(mm) => mm@,
            None => "GET"@,
        }));
        assert(b@ == match body {
            Some(bb) => bb@,
            None => Seq::<char>::empty(),
        });
        assert(represents(entries_view(sorted@), entries_map(given)));
        let port_v: u32 = match pv.2 {
            Some(x) => x as u32,
            None => (default_port(pv.0)->0) as u32,
        };
        assert(port_v == port);
        assert(req@ == built_request(upper_seq(match method {
            Some(mm) => mm@,
            None => "GET"@,
        }), tgt, pv.1->0, pv.2, port_v, entries_view(sorted@), given, match body {
            Some(bb) => bb@,
            None => Seq::<char>::empty(),
        }));
    }
    let out = SendToRepeaterInput {
        request: string_from_chars(req.as_slice()),
        host: string_from_chars(host.as_slice()),
        port: Some(port),
        https: Some(is_https),
        tab_name: input.tab_name,
    };
    proof {
        let pv = url_parts_of(url@)->0;
        assert(out.host@ == pv.1->0);
        assert(out.https == Some(pv.0 == "https"@));
        let given = match headers {
            Some(h) => entries_view(h@),
            None => Seq::<(Seq<char>, Seq<char>)>::empty(),
        };
        let target_v = pv.3 + match pv.4 {
            Some(q) => seq!['?'] + q,
            None => Seq::<char>::empty(),
        };
        assert(target_v == tgt);
        assert(represents(entries_view(sorted@), entries_map(given)));
        let port_v: u32 = match pv.2 {
            Some(x) => x as u32,
            None => (default_port(pv.0)->0) as u32,
        };
        let mv = upper_seq(match method {
            Some(mm) => mm@,
            None => "GET"@,
        });
        let bv = match body {
            Some(bb) => bb@,
            None => Seq::<char>::empty(),
        };
        assert(out.request@ == built_request(mv, target_v, pv.1->0, pv.2, port_v, entries_view(sorted@), given, bv));
        assert(exists|so: Seq<(Seq<char>, Seq<char>)>| represents(so, entries_map(given)) && out.request@ == built_request(mv, target_v, pv.1->0, pv.2, port_v, so, given, bv));
        assert(out.port == Some(port_v));
        assert(out.tab_name == input.tab_name);
        assert(out.host@ == pv.1->0
            && out.https == Some(pv.0 == "https"@)
            && out.port == Some(port_v)
            && out.tab_name == input.tab_name);
        assert(exists|sorted: Seq<(Seq<char>, Seq<char>)>|
            #![trigger represents(sorted, entries_map(given))]
            represents(sorted, entries_map(given)) && out.request@ == built_request(mv, target_v, pv.1->0, pv.2, port_v, sorted, given, bv));
        assert(url_port(pv) == port_v);
        assert(url_target(pv) == target_v);
        assert(url_request_ok(pv, mv, bv, given, out.request@));
    }
    Ok(out)
}

} // verus!
