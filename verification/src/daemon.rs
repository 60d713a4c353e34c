//! The graph daemon's side of its JSON protocol: which graph query an
//! operation names, and the arguments its payload must carry.
use crate::css_escape::concat_chars;
use crate::diff::{all_digits, digits_value, lemma_digits_grow};
use crate::json_value::{member, member_of, JsonValue};
use crate::text::{chars_eq, chars_of, string_from_chars};
use vstd::prelude::*;

verus! {

// ---------------------------------------------------------------------------
// Payload fields
// ---------------------------------------------------------------------------

/// The text of a string member.
pub open spec fn str_field(p: JsonValue, name: Seq<char>) -> Option<Seq<char>> {
    match member(p, name) {
        Some(JsonValue::String(s)) => Some(s@),
        _ => None,
    }
}

/// A number written with decimal digits alone, when it fits `u64`.
pub open spec fn u64_text(t: Seq<char>) -> Option<u64> {
    if t.len() > 0 && all_digits(t) && digits_value(t) <= u64::MAX {
        Some(digits_value(t) as u64)
    } else {
        None
    }
}

/// A number written with decimal digits, after an optional minus sign, when
/// it fits `i64`.
pub open spec fn i64_text(t: Seq<char>) -> Option<i64> {
    if t.len() > 0 && t[0] == '-' {
        let d = t.drop_first();
        if d.len() > 0 && all_digits(d) && digits_value(d) <= 0x8000_0000_0000_0000 {
            Some((0 - digits_value(d)) as i64)
        } else {
            None
        }
    } else if t.len() > 0 && all_digits(t) && digits_value(t) <= i64::MAX {
        Some(digits_value(t) as i64)
    } else {
        None
    }
}

/// A member that is a non-negative integer within `u64`.
pub open spec fn u64_field(p: JsonValue, name: Seq<char>) -> Option<u64> {
    match member(p, name) {
        Some(JsonValue::Number(t)) => u64_text(t@),
        _ => None,
    }
}

/// A member that is an integer within `i64`.
pub open spec fn i64_field(p: JsonValue, name: Seq<char>) -> Option<i64> {
    match member(p, name) {
        Some(JsonValue::Number(t)) => i64_text(t@),
        _ => None,
    }
}

/// Reads the digits of `d` as a number, when it fits `bound`.
fn digits_within(d: &[char], bound: u128) -> (r: Option<u128>)
    requires
        bound <= 0xffff_ffff_ffff_ffff,
    ensures
        match r {
            Some(v) => d@.len() > 0 && all_digits(d@) && v == digits_value(d@) && v <= bound,
            None => !(d@.len() > 0 && all_digits(d@) && digits_value(d@) <= bound),
        },
{
    if d.len() == 0 {
        return None;
    }
    let mut v: u128 = 0;
    let mut i: usize = 0;
    proof {
        assert(d@.subrange(0, 0) =~= Seq::<char>::empty());
    }
    while i < d.len()
        invariant
            i <= d@.len(),
            v as nat == digits_value(d@.subrange(0, i as int)),
            v <= bound,
            bound <= 0xffff_ffff_ffff_ffff,
            all_digits(d@.subrange(0, i as int)),
        decreases d@.len() - i,
    {
        let c = d[i];
        proof {
            let p = d@.subrange(0, i + 1);
            assert(p.drop_last() =~= d@.subrange(0, i as int));
            assert(p.last() == c);
        }
        if !('0' <= c && c <= '9') {
            assert(!all_digits(d@)) by {
                assert(d@[i as int] == c);
            }
            return None;
        }
        assert(v * 10 + 9 <= u128::MAX) by (nonlinear_arith)
            requires
                v <= bound,
                bound <= 0xffff_ffff_ffff_ffff,
        {
        }
        v = v * 10 + (c as u128 - '0' as u128);
        i += 1;
        proof {
            let p = d@.subrange(0, i as int);
            assert forall|k: int| 0 <= k < p.len() implies '0' <= #[trigger] p[k] <= '9' by {
                if k < p.len() - 1 {
                    assert(p[k] == d@.subrange(0, i - 1)[k]);
                }
            }
        }
        if v > bound {
            proof {
                if all_digits(d@) {
                    lemma_digits_grow(d@, i as int);
                }
            }
            return None;
        }
    }
    proof {
        assert(d@.subrange(0, d@.len() as int) =~= d@);
    }
    Some(v)
}

fn u64_of_text(t: &String) -> (r: Option<u64>)
    ensures
        r == u64_text(t@),
{
    let cs = chars_of(t.as_str());
    match digits_within(cs.as_slice(), 0xffff_ffff_ffff_ffff) {
        Some(v) => Some(v as u64),
        None => None,
    }
}

fn i64_of_text(t: &String) -> (r: Option<i64>)
    ensures
        r == i64_text(t@),
{
    let cs = chars_of(t.as_str());
    if cs.len() > 0 && cs[0] == '-' {
        let d = crate::text::subrange_chars(cs.as_slice(), 1, cs.len());
        proof {
            assert(d@ =~= t@.drop_first());
        }
        match digits_within(d.as_slice(), 0x8000_0000_0000_0000) {
            Some(v) => {
                let n: i128 = 0 - (v as i128);
                Some(n as i64)
            },
            None => None,
        }
    } else {
        match digits_within(cs.as_slice(), 0x7fff_ffff_ffff_ffff) {
            Some(v) => Some(v as i64),
            None => None,
        }
    }
}

fn missing(kind: &str, name: &str) -> (r: String)
    ensures
        r@ == "missing "@ + kind@ + " field "@ + name@,
{
    let mut v = concat_chars(chars_of("missing "), chars_of(kind).as_slice());
    v = concat_chars(v, chars_of(" field ").as_slice());
    v = concat_chars(v, chars_of(name).as_slice());
    string_from_chars(v.as_slice())
}

fn exceeds(name: &str, kind: &str) -> (r: String)
    ensures
        r@ == name@ + " exceeds "@ + kind@,
{
    let mut v = concat_chars(chars_of(name), chars_of(" exceeds ").as_slice());
    v = concat_chars(v, chars_of(kind).as_slice());
    string_from_chars(v.as_slice())
}

pub open spec fn missing_text(kind: Seq<char>, name: Seq<char>) -> Seq<char> {
    "missing "@ + kind + " field "@ + name
}

/// The string member `name`, or the error naming it.
pub fn string_field(payload: &JsonValue, name: &str) -> (r: Result<String, String>)
    ensures
        match str_field(*payload, name@) {
            Some(s) => r matches Ok(v) && v@ == s,
            None => r matches Err(e) && e@ == missing_text("string"@, name@),
        },
{
    match member_of(payload, name) {
        Some(JsonValue::String(s)) => Ok(string_from_chars(chars_of(s.as_str()).as_slice())),
        _ => Err(missing("string", name)),
    }
}

/// The unsigned member `name`, or the error naming it.
pub fn unsigned_field(payload: &JsonValue, name: &str) -> (r: Result<u64, String>)
    ensures
        match u64_field(*payload, name@) {
            Some(n) => r == Ok::<u64, String>(n),
            None => r matches Err(e) && e@ == missing_text("unsigned"@, name@),
        },
{
    let found = match member_of(payload, name) {
        Some(JsonValue::Number(t)) => u64_of_text(t),
        _ => None,
    };
    match found {
        Some(n) => Ok(n),
        None => Err(missing("unsigned", name)),
    }
}

/// The signed member `name`, or the error naming it.
pub fn signed_field(payload: &JsonValue, name: &str) -> (r: Result<i64, String>)
    ensures
        match i64_field(*payload, name@) {
            Some(n) => r == Ok::<i64, String>(n),
            None => r matches Err(e) && e@ == missing_text("signed"@, name@),
        },
{
    let found = match member_of(payload, name) {
        Some(JsonValue::Number(t)) => i64_of_text(t),
        _ => None,
    };
    match found {
        Some(n) => Ok(n),
        None => Err(missing("signed", name)),
    }
}

/// An unsigned argument that must fit `u32`.
pub fn to_u32(value: u64, name: &str) -> (r: Result<u32, String>)
    ensures
        value <= u32::MAX ==> r == Ok::<u32, String>(value as u32),
        value > u32::MAX ==> (r matches Err(e) && e@ == name@ + " exceeds "@ + "u32"@),
{
    if value > 0xffff_ffff {
        Err(exceeds(name, "u32"))
    } else {
        Ok(value as u32)
    }
}

/// An unsigned argument that must fit `usize`.
pub fn to_usize(value: u64, name: &str) -> (r: Result<usize, String>)
    ensures
        value <= usize::MAX ==> r == Ok::<usize, String>(value as usize),
        value > usize::MAX ==> (r matches Err(e) && e@ == name@ + " exceeds "@ + "usize"@),
{
    if value as u128 > usize::MAX as u128 {
        Err(exceeds(name, "usize"))
    } else {
        Ok(value as usize)
    }
}

// ---------------------------------------------------------------------------
// Operations
// ---------------------------------------------------------------------------

/// A query of the site graph that a protocol operation asks for.  The
/// payload of `sync_with_context` is a whole sync request, read by its
/// own decoder.
#[derive(Debug)]
pub enum GraphQuery {
    Status,
    Checkpoint { source: String, scope: String },
    SyncWithContext,
    Search { query: String, cursor: u64, limit: u64 },
    Endpoint { id: String },
    Neighbors { node_id: String, cursor: u64, limit: u64 },
    Diff { since: i64, cursor: u64, limit: u64 },
    ExportJson { cursor: u64, limit: u64 },
    ExportExactJson { cursor: u64, limit: u64 },
    ExportCsv { cursor: u64, limit: u64 },
    Trace { start_id: String, max_depth: u32, limit: u32 },
    ShortestPath { from_id: String, to_id: String, max_depth: usize },
    EndpointClusters { limit: usize },
    Impact { node_id: String, max_depth: usize, limit: usize },
}

/// A `GraphQuery` with its texts as character sequences.
pub enum QueryV {
    Status,
    Checkpoint(Seq<char>, Seq<char>),
    SyncWithContext,
    Search(Seq<char>, u64, u64),
    Endpoint(Seq<char>),
    Neighbors(Seq<char>, u64, u64),
    Diff(i64, u64, u64),
    ExportJson(u64, u64),
    ExportExactJson(u64, u64),
    ExportCsv(u64, u64),
    Trace(Seq<char>, u32, u32),
    ShortestPath(Seq<char>, Seq<char>, usize),
    EndpointClusters(usize),
    Impact(Seq<char>, usize, usize),
}

pub open spec fn query_view(q: GraphQuery) -> QueryV {
    match q {
        GraphQuery::Status => QueryV::Status,
        GraphQuery::Checkpoint { source, scope } => QueryV::Checkpoint(source@, scope@),
        GraphQuery::SyncWithContext => QueryV::SyncWithContext,
        GraphQuery::Search { query, cursor, limit } => QueryV::Search(query@, cursor, limit),
        GraphQuery::Endpoint { id } => QueryV::Endpoint(id@),
        GraphQuery::Neighbors { node_id, cursor, limit } => QueryV::Neighbors(node_id@, cursor, limit),
        GraphQuery::Diff { since, cursor, limit } => QueryV::Diff(since, cursor, limit),
        GraphQuery::ExportJson { cursor, limit } => QueryV::ExportJson(cursor, limit),
        GraphQuery::ExportExactJson { cursor, limit } => QueryV::ExportExactJson(cursor, limit),
        GraphQuery::ExportCsv { cursor, limit } => QueryV::ExportCsv(cursor, limit),
        GraphQuery::Trace { start_id, max_depth, limit } => QueryV::Trace(start_id@, max_depth, limit),
        GraphQuery::ShortestPath { from_id, to_id, max_depth } => QueryV::ShortestPath(
            from_id@,
            to_id@,
            max_depth,
        ),
        GraphQuery::EndpointClusters { limit } => QueryV::EndpointClusters(limit),
        GraphQuery::Impact { node_id, max_depth, limit } => QueryV::Impact(node_id@, max_depth, limit),
    }
}

pub open spec fn sfield(p: JsonValue, name: Seq<char>) -> Result<Seq<char>, Seq<char>> {
    match str_field(p, name) {
        Some(s) => Ok(s),
        None => Err(missing_text("string"@, name)),
    }
}

pub open spec fn ufield(p: JsonValue, name: Seq<char>) -> Result<u64, Seq<char>> {
    match u64_field(p, name) {
        Some(n) => Ok(n),
        None => Err(missing_text("unsigned"@, name)),
    }
}

pub open spec fn ifield(p: JsonValue, name: Seq<char>) -> Result<i64, Seq<char>> {
    match i64_field(p, name) {
        Some(n) => Ok(n),
        None => Err(missing_text("signed"@, name)),
    }
}

pub open spec fn u32_arg(p: JsonValue, name: Seq<char>) -> Result<u32, Seq<char>> {
    match ufield(p, name) {
        Ok(v) => if v <= u32::MAX {
            Ok(v as u32)
        } else {
            Err(name + " exceeds "@ + "u32"@)
        },
        Err(e) => Err(e),
    }
}

pub open spec fn usize_arg(p: JsonValue, name: Seq<char>) -> Result<usize, Seq<char>> {
    match ufield(p, name) {
        Ok(v) => if v <= usize::MAX {
            Ok(v as usize)
        } else {
            Err(name + " exceeds "@ + "usize"@)
        },
        Err(e) => Err(e),
    }
}

/// `cursor` and `limit`, the arguments of a page.
pub open spec fn page_args(p: JsonValue) -> Result<(u64, u64), Seq<char>> {
    match ufield(p, "cursor"@) {
        Err(e) => Err(e),
        Ok(c) => match ufield(p, "limit"@) {
            Err(e) => Err(e),
            Ok(l) => Ok((c, l)),
        },
    }
}

/// The query an operation asks for, its arguments read from the payload in
/// order; the first that is missing or out of range is the error.
pub open spec fn graph_query(op: Seq<char>, p: JsonValue) -> Result<QueryV, Seq<char>> {
    if op == "status"@ {
        Ok(QueryV::Status)
    } else if op == "checkpoint"@ {
        match sfield(p, "source"@) {
            Err(e) => Err(e),
            Ok(a) => match sfield(p, "scope"@) {
                Err(e) => Err(e),
                Ok(b) => Ok(QueryV::Checkpoint(a, b)),
            },
        }
    } else if op == "sync_with_context"@ {
        Ok(QueryV::SyncWithContext)
    } else if op == "search"@ {
        match sfield(p, "query"@) {
            Err(e) => Err(e),
            Ok(q) => match page_args(p) {
                Err(e) => Err(e),
                Ok((c, l)) => Ok(QueryV::Search(q, c, l)),
            },
        }
    } else if op == "endpoint"@ {
        match sfield(p, "id"@) {
            Err(e) => Err(e),
            Ok(i) => Ok(QueryV::Endpoint(i)),
        }
    } else if op == "neighbors"@ {
        match sfield(p, "node_id"@) {
            Err(e) => Err(e),
            Ok(n) => match page_args(p) {
                Err(e) => Err(e),
                Ok((c, l)) => Ok(QueryV::Neighbors(n, c, l)),
            },
        }
    } else if op == "diff"@ {
        match ifield(p, "since"@) {
            Err(e) => Err(e),
            Ok(s) => match page_args(p) {
                Err(e) => Err(e),
                Ok((c, l)) => Ok(QueryV::Diff(s, c, l)),
            },
        }
    } else if op == "export_json"@ {
        match page_args(p) {
            Err(e) => Err(e),
            Ok((c, l)) => Ok(QueryV::ExportJson(c, l)),
        }
    } else if op == "export_exact_json"@ {
        match page_args(p) {
            Err(e) => Err(e),
            Ok((c, l)) => Ok(QueryV::ExportExactJson(c, l)),
        }
    } else if op == "export_csv"@ {
        match page_args(p) {
            Err(e) => Err(e),
            Ok((c, l)) => Ok(QueryV::ExportCsv(c, l)),
        }
    } else if op == "trace"@ {
        match sfield(p, "start_id"@) {
            Err(e) => Err(e),
            Ok(s) => match u32_arg(p, "max_depth"@) {
                Err(e) => Err(e),
                Ok(d) => match u32_arg(p, "limit"@) {
                    Err(e) => Err(e),
                    Ok(l) => Ok(QueryV::Trace(s, d, l)),
                },
            },
        }
    } else if op == "shortest_path"@ {
        match sfield(p, "from_id"@) {
            Err(e) => Err(e),
            Ok(f) => match sfield(p, "to_id"@) {
                Err(e) => Err(e),
                Ok(t) => match usize_arg(p, "max_depth"@) {
                    Err(e) => Err(e),
                    Ok(d) => Ok(QueryV::ShortestPath(f, t, d)),
                },
            },
        }
    } else if op == "endpoint_clusters"@ {
        match usize_arg(p, "limit"@) {
            Err(e) => Err(e),
            Ok(l) => Ok(QueryV::EndpointClusters(l)),
        }
    } else if op == "impact"@ {
        match sfield(p, "node_id"@) {
            Err(e) => Err(e),
            Ok(n) => match usize_arg(p, "max_depth"@) {
                Err(e) => Err(e),
                Ok(d) => match usize_arg(p, "limit"@) {
                    Err(e) => Err(e),
                    Ok(l) => Ok(QueryV::Impact(n, d, l)),
                },
            },
        }
    } else {
        Err("unsupported operation: "@ + op)
    }
}

fn u32_argument(payload: &JsonValue, name: &str) -> (r: Result<u32, String>)
    ensures
        match (r, u32_arg(*payload, name@)) {
            (Ok(a), Ok(b)) => a == b,
            (Err(e), Err(m)) => e@ == m,
            _ => false,
        },
{
    let v = unsigned_field(payload, name)?;
    to_u32(v, name)
}

fn usize_argument(payload: &JsonValue, name: &str) -> (r: Result<usize, String>)
    ensures
        match (r, usize_arg(*payload, name@)) {
            (Ok(a), Ok(b)) => a == b,
            (Err(e), Err(m)) => e@ == m,
            _ => false,
        },
{
    let v = unsigned_field(payload, name)?;
    to_usize(v, name)
}

fn page_arguments(payload: &JsonValue) -> (r: Result<(u64, u64), String>)
    ensures
        match (r, page_args(*payload)) {
            (Ok(a), Ok(b)) => a == b,
            (Err(e), Err(m)) => e@ == m,
            _ => false,
        },
{
    let c = unsigned_field(payload, "cursor")?;
    let l = unsigned_field(payload, "limit")?;
    Ok((c, l))
}

fn is_op(op: &str, name: &str) -> (r: bool)
    ensures
        r == (op@ == name@),
{
    chars_eq(chars_of(op).as_slice(), chars_of(name).as_slice())
}

/// The graph query a protocol operation asks for (see `graph_query`).
pub fn plan_graph_operation(operation: &str, payload: &JsonValue) -> (r: Result<GraphQuery, String>)
    ensures
        match (r, graph_query(operation@, *payload)) {
            (Ok(q), Ok(v)) => query_view(q) == v,
            (Err(e), Err(m)) => e@ == m,
            _ => false,
        },
{
    if is_op(operation, "status") {
        Ok(GraphQuery::Status)
    } else if is_op(operation, "checkpoint") {
        let source = string_field(payload, "source")?;
        let scope = string_field(payload, "scope")?;
        Ok(GraphQuery::Checkpoint { source, scope })
    } else if is_op(operation, "sync_with_context") {
        Ok(GraphQuery::SyncWithContext)
    } else if is_op(operation, "search") {
        let query = string_field(payload, "query")?;
        let (cursor, limit) = page_arguments(payload)?;
        Ok(GraphQuery::Search { query, cursor, limit })
    } else if is_op(operation, "endpoint") {
        let id = string_field(payload, "id")?;
        Ok(GraphQuery::Endpoint { id })
    } else if is_op(operation, "neighbors") {
        let node_id = string_field(payload, "node_id")?;
        let (cursor, limit) = page_arguments(payload)?;
        Ok(GraphQuery::Neighbors { node_id, cursor, limit })
    } else if is_op(operation, "diff") {
        let since = signed_field(payload, "since")?;
        let (cursor, limit) = page_arguments(payload)?;
        Ok(GraphQuery::Diff { since, cursor, limit })
    } else if is_op(operation, "export_json") {
        let (cursor, limit) = page_arguments(payload)?;
        Ok(GraphQuery::ExportJson { cursor, limit })
    } else if is_op(operation, "export_exact_json") {
        let (cursor, limit) = page_arguments(payload)?;
        Ok(GraphQuery::ExportExactJson { cursor, limit })
    } else if is_op(operation, "export_csv") {
        let (cursor, limit) = page_arguments(payload)?;
        Ok(GraphQuery::ExportCsv { cursor, limit })
    } else if is_op(operation, "trace") {
        let start_id = string_field(payload, "start_id")?;
        let max_depth = u32_argument(payload, "max_depth")?;
        let limit = u32_argument(payload, "limit")?;
        Ok(GraphQuery::Trace { start_id, max_depth, limit })
    } else if is_op(operation, "shortest_path") {
        let from_id = string_field(payload, "from_id")?;
        let to_id = string_field(payload, "to_id")?;
        let max_depth = usize_argument(payload, "max_depth")?;
        Ok(GraphQuery::ShortestPath { from_id, to_id, max_depth })
    } else if is_op(operation, "endpoint_clusters") {
        let limit = usize_argument(payload, "limit")?;
        Ok(GraphQuery::EndpointClusters { limit })
    } else if is_op(operation, "impact") {
        let node_id = string_field(payload, "node_id")?;
        let max_depth = usize_argument(payload, "max_depth")?;
        let limit = usize_argument(payload, "limit")?;
        Ok(GraphQuery::Impact { node_id, max_depth, limit })
    } else {
        let v = concat_chars(chars_of("unsupported operation: "), chars_of(operation).as_slice());
        Err(string_from_chars(v.as_slice()))
    }
}

} // verus!
