//! The GraphQL audit: which checks run, what in an answer counts as
//! evidence, and the issues reported.
use crate::css_escape::concat_chars;
use crate::json_value::{member, member_of, member_path, JsonValue};
use crate::payload::{decimal, decimal_chars};
use crate::text::{chars_of, contains_chars, contains_seq, string_from_chars};
use vstd::prelude::*;

verus! {

fn text(lit: &str) -> (r: String)
    ensures
        r@ == lit@,
{
    string_from_chars(chars_of(lit).as_slice())
}

pub open spec fn is_array(o: Option<JsonValue>) -> bool {
    match o {
        Some(JsonValue::Array(_)) => true,
        _ => false,
    }
}

pub open spec fn is_nonempty_array(o: Option<JsonValue>) -> bool {
    match o {
        Some(JsonValue::Array(items)) => items@.len() > 0,
        _ => false,
    }
}

pub open spec fn is_string(o: Option<JsonValue>) -> bool {
    match o {
        Some(JsonValue::String(_)) => true,
        _ => false,
    }
}

/// The answer lists the schema's types: `data.__schema.types` is an array.
pub open spec fn introspection_evidence(v: JsonValue) -> bool {
    is_array(member_path(v, seq!["data"@, "__schema"@, "types"@]))
}

pub open spec fn message_suggests(o: Option<JsonValue>) -> bool {
    match o {
        Some(JsonValue::String(m)) => contains_seq(m@, "Did you mean"@),
        _ => false,
    }
}

/// One error that suggests field names: its message says "Did you mean", or
/// it carries a non-empty `suggestions` array, directly or under
/// `extensions`.
pub open spec fn error_suggests(e: JsonValue) -> bool {
    message_suggests(member(e, "message"@)) || is_nonempty_array(member(e, "suggestions"@))
        || is_nonempty_array(member_path(e, seq!["extensions"@, "suggestions"@]))
}

pub open spec fn some_error_suggests(errors: Seq<JsonValue>) -> bool {
    exists|k: int| 0 <= k < errors.len() && #[trigger] error_suggests(errors[k])
}

/// Some error of the answer's `errors` array suggests field names.
pub open spec fn suggestion_evidence(v: JsonValue) -> bool {
    match member(v, "errors"@) {
        Some(JsonValue::Array(errors)) => some_error_suggests(errors@),
        _ => false,
    }
}

/// A batch result that names its type: `data.__typename` is a string.
pub open spec fn names_typename(item: JsonValue) -> bool {
    is_string(member_path(item, seq!["data"@, "__typename"@]))
}

/// The answer to a batch of three queries is an array of three results,
/// each with a string `data.__typename`.
pub open spec fn batch_evidence(v: JsonValue) -> bool {
    match v {
        JsonValue::Array(items) => items@.len() == 3 && forall|k: int|
            0 <= k < 3 ==> #[trigger] names_typename(items@[k]),
        _ => false,
    }
}

fn path2<'a>(v: &'a JsonValue, a: &str, b: &str) -> (r: Option<&'a JsonValue>)
    ensures
        match (r, member_path(*v, seq![a@, b@])) {
            (Some(x), Some(y)) => *x == y,
            (None, None) => true,
            _ => false,
        },
{
    proof {
        reveal_with_fuel(member_path, 3);
        assert(seq![a@, b@].drop_first() =~= seq![b@]);
        assert(seq![b@].drop_first() =~= Seq::<Seq<char>>::empty());
    }
    match member_of(v, a) {
        Some(w) => member_of(w, b),
        None => None,
    }
}

pub fn graphql_has_introspection(value: &JsonValue) -> (r: bool)
    ensures
        r == introspection_evidence(*value),
{
    let ghost keys = seq!["data"@, "__schema"@, "types"@];
    proof {
        reveal_with_fuel(member_path, 2);
        assert(keys.drop_first() =~= seq!["__schema"@, "types"@]);
    }
    let found = match member_of(value, "data") {
        Some(d) => path2(d, "__schema", "types"),
        None => None,
    };
    match found {
        Some(JsonValue::Array(_)) => true,
        _ => false,
    }
}

fn error_suggests_exec(e: &JsonValue) -> (r: bool)
    ensures
        r == error_suggests(*e),
{
    let by_message = match member_of(e, "message") {
        Some(JsonValue::String(m)) => contains_chars(
            chars_of(m.as_str()).as_slice(),
            chars_of("Did you mean").as_slice(),
        ),
        _ => false,
    };
    let direct = match member_of(e, "suggestions") {
        Some(JsonValue::Array(items)) => items.len() > 0,
        _ => false,
    };
    let nested = match path2(e, "extensions", "suggestions") {
        Some(JsonValue::Array(items)) => items.len() > 0,
        _ => false,
    };
    by_message || direct || nested
}

pub fn graphql_has_suggestions(value: &JsonValue) -> (r: bool)
    ensures
        r == suggestion_evidence(*value),
{
    match member_of(value, "errors") {
        Some(JsonValue::Array(errors)) => {
            let mut k: usize = 0;
            while k < errors.len()
                invariant
                    k <= errors@.len(),
                    member(*value, "errors"@) == Some(JsonValue::Array(*errors)),
                    forall|i: int| 0 <= i < k ==> !#[trigger] error_suggests(errors@[i]),
                decreases errors@.len() - k,
            {
                if error_suggests_exec(&errors[k]) {
                    assert(error_suggests(errors@[k as int]));
                    assert(some_error_suggests(errors@));
                    return true;
                }
                k += 1;
            }
            false
        },
        _ => false,
    }
}

pub fn graphql_batch_supported(value: &JsonValue) -> (r: bool)
    ensures
        r == batch_evidence(*value),
{
    match value {
        JsonValue::Array(items) => {
            if items.len() != 3 {
                return false;
            }
            let mut k: usize = 0;
            while k < 3
                invariant
                    k <= 3,
                    items@.len() == 3,
                    *value == JsonValue::Array(*items),
                    forall|i: int| 0 <= i < k ==> #[trigger] names_typename(items@[i]),
                decreases 3 - k,
            {
                let ok = match path2(&items[k], "data", "__typename") {
                    Some(JsonValue::String(_)) => true,
                    _ => false,
                };
                if !ok {
                    assert(!names_typename(items@[k as int]));
                    return false;
                }
                k += 1;
            }
            true
        },
        _ => false,
    }
}

/// Which checks run (each unless turned off); at least one must.
pub fn graphql_checks(
    test_introspection: Option<bool>,
    test_field_suggestions: Option<bool>,
    test_batching: Option<bool>,
) -> (r: Result<(bool, bool, bool), String>)
    ensures
        ({
            let i = match test_introspection {
                Some(b) => b,
                None => true,
            };
            let s = match test_field_suggestions {
                Some(b) => b,
                None => true,
            };
            let b = match test_batching {
                Some(b) => b,
                None => true,
            };
            if i || s || b {
                r == Ok::<(bool, bool, bool), String>((i, s, b))
            } else {
                r matches Err(e) && e@ == "at least one GraphQL audit check must be enabled"@
            }
        }),
{
    let i = match test_introspection {
        Some(b) => b,
        None => true,
    };
    let s = match test_field_suggestions {
        Some(b) => b,
        None => true,
    };
    let b = match test_batching {
        Some(b) => b,
        None => true,
    };
    if !i && !s && !b {
        Err(text("at least one GraphQL audit check must be enabled"))
    } else {
        Ok((i, s, b))
    }
}

/// A probe answered with a server error (5xx) fails the audit.
pub fn graphql_status_check(status: u32, probe: &str) -> (r: Result<(), String>)
    ensures
        r is Ok <==> status < 500,
        r matches Err(e) ==> e@ == "GraphQL "@ + probe@ + " probe returned server error HTTP "@
            + decimal(status as nat),
{
    if status >= 500 {
        let mut v = concat_chars(chars_of("GraphQL "), chars_of(probe).as_slice());
        v = concat_chars(v, chars_of(" probe returned server error HTTP ").as_slice());
        v = concat_chars(v, decimal_chars(status as u128).as_slice());
        Err(string_from_chars(v.as_slice()))
    } else {
        Ok(())
    }
}

pub open spec fn issue_texts(introspection: bool, suggestions: bool, batching: bool) -> Seq<
    Seq<char>,
> {
    (if introspection {
        seq!["GraphQL introspection is enabled and exposed the schema"@]
    } else {
        Seq::empty()
    }) + (if suggestions {
        seq!["GraphQL error responses expose field suggestions"@]
    } else {
        Seq::empty()
    }) + (if batching {
        seq!["GraphQL array batching is supported and may amplify rate-limit bypasses"@]
    } else {
        Seq::empty()
    })
}

/// The issues found, in the order of the checks.
pub fn graphql_issues(introspection: bool, suggestions: bool, batching: bool) -> (r: Vec<String>)
    ensures
        r@.len() == issue_texts(introspection, suggestions, batching).len(),
        forall|k: int|
            0 <= k < r@.len() ==> #[trigger] r@[k]@ == issue_texts(
                introspection,
                suggestions,
                batching,
            )[k],
{
    let mut v: Vec<String> = Vec::new();
    let ghost a = if introspection {
        seq!["GraphQL introspection is enabled and exposed the schema"@]
    } else {
        Seq::<Seq<char>>::empty()
    };
    let ghost b = if suggestions {
        seq!["GraphQL error responses expose field suggestions"@]
    } else {
        Seq::<Seq<char>>::empty()
    };
    let ghost c = if batching {
        seq!["GraphQL array batching is supported and may amplify rate-limit bypasses"@]
    } else {
        Seq::<Seq<char>>::empty()
    };
    if introspection {
        v.push(text("GraphQL introspection is enabled and exposed the schema"));
    }
    assert(v@.len() == a.len() && forall|k: int| 0 <= k < v@.len() ==> #[trigger] v@[k]@ == a[k]);
    if suggestions {
        v.push(text("GraphQL error responses expose field suggestions"));
    }
    assert(v@.len() == (a + b).len() && forall|k: int|
        0 <= k < v@.len() ==> #[trigger] v@[k]@ == (a + b)[k]);
    if batching {
        v.push(text("GraphQL array batching is supported and may amplify rate-limit bypasses"));
    }
    assert(v@.len() == (a + b + c).len() && forall|k: int|
        0 <= k < v@.len() ==> #[trigger] v@[k]@ == (a + b + c)[k]);
    v
}

} // verus!
