//! The matches of a regular expression in a proxied response.
use crate::payload::{decode_utf8_lossy, utf8_lossy};
use crate::text::{chars_of, string_from_chars};
use vstd::prelude::*;

verus! {

/// What `regex::Regex::new(pattern)` and `find_iter` over `text` give: the
/// matched texts in order, or the display text of the pattern's error.
pub uninterp spec fn regex_matches(pattern: Seq<char>, text: Seq<char>) -> Result<Seq<Seq<char>>, Seq<char>>;

pub open spec fn texts_of(v: Seq<String>) -> Seq<Seq<char>> {
    Seq::new(v.len(), |k: int| v[k]@)
}

/// `regex::Regex::new(pattern)`, then every match of `find_iter` over
/// `text`, or the error's display text.  Both outcomes are named, not
/// stated.
#[verifier::external_body]
fn regex_find_all(pattern: &str, text: &str) -> (r: Result<Vec<String>, String>)
    ensures
        match (r, regex_matches(pattern@, text@)) {
            (Ok(v), Ok(m)) => texts_of(v@) == m,
            (Err(e), Err(m)) => e@ == m,
            _ => false,
        },
{
    match regex::Regex::new(pattern) {
        Ok(re) => Ok(re.find_iter(text).map(|found| found.as_str().to_owned()).collect()),
        Err(error) => Err(error.to_string()),
    }
}

/// The number of matches a request keeps: 100 unless it says.
pub open spec fn match_limit(limit: Option<u32>) -> nat {
    match limit {
        Some(n) => n as nat,
        None => 100,
    }
}

/// `r` is what an extraction gives for the matches `m` of the pattern: the
/// first `limit` of them, or the pattern's error after `invalid regex: `.
pub open spec fn kept_matches(
    m: Result<Seq<Seq<char>>, Seq<char>>,
    limit: nat,
    r: Result<Vec<String>, String>,
) -> bool {
    match (m, r) {
        (Ok(all), Ok(v)) => texts_of(v@) == all.take(
            if all.len() <= limit {
                all.len() as int
            } else {
                limit as int
            },
        ),
        (Err(e), Err(t)) => t@ == "invalid regex: "@ + e,
        _ => false,
    }
}

/// The matches of `pattern` in a response read as lossy UTF-8: at most
/// `limit` (100 by default, at most 500), none for an empty response.
pub fn extract_matches(response: &[u8], pattern: &str, limit: Option<u32>) -> (r: Result<Vec<String>, String>)
    ensures
        match_limit(limit) > 500 <==> (r matches Err(e) && e@ == "limit must be at most 500"@),
        match_limit(limit) <= 500 && response@.len() == 0 ==> (r matches Ok(v) && v@.len() == 0),
        match_limit(limit) <= 500 && response@.len() > 0 ==> kept_matches(
            regex_matches(pattern@, utf8_lossy(response@)),
            match_limit(limit),
            r,
        ),
{
    proof {
        reveal_strlit("limit must be at most 500");
        reveal_strlit("invalid regex: ");
    }
    let limit: u32 = match limit {
        Some(n) => n,
        None => 100,
    };
    if limit > 500 {
        return Err(string_from_chars(chars_of("limit must be at most 500").as_slice()));
    }
    if response.len() == 0 {
        return Ok(Vec::new());
    }
    let text = decode_utf8_lossy(response);
    match regex_find_all(pattern, text.as_str()) {
        Ok(all) => {
            let mut kept: Vec<String> = Vec::new();
            let n = if all.len() <= limit as usize {
                all.len()
            } else {
                limit as usize
            };
            let mut i: usize = 0;
            while i < n
                invariant
                    i <= n <= all@.len(),
                    kept@.len() == i,
                    forall|k: int| 0 <= k < i ==> #[trigger] kept@[k]@ == all@[k]@,
                decreases n - i,
            {
                kept.push(all[i].clone());
                i += 1;
            }
            assert(texts_of(kept@) =~= texts_of(all@).take(n as int));
            Ok(kept)
        },
        Err(e) => {
            let msg = crate::css_escape::concat_chars(chars_of("invalid regex: "), chars_of(e.as_str()).as_slice());
            assert(msg@[0] == 'i' && "limit must be at most 500"@[0] == 'l');
            Err(string_from_chars(msg.as_slice()))
        },
    }
}

} // verus!
