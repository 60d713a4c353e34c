//! A JSON document as plain values, and lookups in it.
use crate::text::{chars_eq, chars_of, string_from_chars};
use vstd::prelude::*;

verus! {

/// A JSON value; a number is kept as its text, an object as its members in
/// order.
#[derive(Debug)]
pub enum JsonValue {
    Null,
    Bool(bool),
    Number(String),
    String(String),
    Array(Vec<JsonValue>),
    Object(Vec<(String, JsonValue)>),
}

/// The first of `fields` named `key`.
pub open spec fn find_member(fields: Seq<(String, JsonValue)>, key: Seq<char>) -> Option<JsonValue>
    decreases fields.len(),
{
    if fields.len() == 0 {
        None
    } else if fields[0].0@ == key {
        Some(fields[0].1)
    } else {
        find_member(fields.drop_first(), key)
    }
}

/// The member `key` of an object (`None` for any other value).
pub open spec fn member(v: JsonValue, key: Seq<char>) -> Option<JsonValue> {
    match v {
        JsonValue::Object(fields) => find_member(fields@, key),
        _ => None,
    }
}

/// Follows `keys` through nested objects.
pub open spec fn member_path(v: JsonValue, keys: Seq<Seq<char>>) -> Option<JsonValue>
    decreases keys.len(),
{
    if keys.len() == 0 {
        Some(v)
    } else {
        match member(v, keys[0]) {
            Some(w) => member_path(w, keys.drop_first()),
            None => None,
        }
    }
}

/// The member `key` of `v`, when `v` is an object that has one.
pub fn member_of<'a>(v: &'a JsonValue, key: &str) -> (r: Option<&'a JsonValue>)
    ensures
        match (r, member(*v, key@)) {
            (Some(a), Some(b)) => *a == b,
            (None, None) => true,
            _ => false,
        },
{
    match v {
        JsonValue::Object(fields) => {
            let kc = chars_of(key);
            let mut k: usize = 0;
            proof {
                assert(fields@.subrange(0, fields@.len() as int) =~= fields@);
            }
            while k < fields.len()
                invariant
                    k <= fields@.len(),
                    kc@ == key@,
                    *v == JsonValue::Object(*fields),
                    find_member(fields@.subrange(k as int, fields@.len() as int), key@)
                        == find_member(fields@, key@),
                decreases fields@.len() - k,
            {
                let ghost rest = fields@.subrange(k as int, fields@.len() as int);
                proof {
                    assert(rest.len() > 0);
                    assert(rest[0] == fields@[k as int]);
                    assert(rest.drop_first() =~= fields@.subrange(k + 1, fields@.len() as int));
                }
                if chars_eq(chars_of(fields[k].0.as_str()).as_slice(), kc.as_slice()) {
                    proof {
                        assert(rest.len() > 0 && rest[0].0@ == key@);
                        assert(find_member(rest, key@) == Some(rest[0].1));
                    }
                    return Some(&fields[k].1);
                }
                k += 1;
            }
            None
        },
        _ => None,
    }
}

/// Replacing the value at the first member named `key` makes that value
/// what `key` finds and leaves other names alone.
proof fn lemma_find_member_update(f: Seq<(String, JsonValue)>, k: int, key: Seq<char>, value: JsonValue, name: Seq<char>)
    requires
        0 <= k < f.len(),
        f[k].0@ == key,
        forall|j: int| 0 <= j < k ==> f[j].0@ != key,
    ensures
        find_member(f.update(k, (f[k].0, value)), name) == (if name == key {
            Some(value)
        } else {
            find_member(f, name)
        }),
    decreases k,
{
    let g = f.update(k, (f[k].0, value));
    if k > 0 {
        assert(g.drop_first() =~= f.drop_first().update(k - 1, (f[k].0, value)));
        lemma_find_member_update(f.drop_first(), k - 1, key, value, name);
        assert(g[0] == f[0]);
    } else {
        assert(g.drop_first() =~= f.drop_first());
    }
}

proof fn lemma_find_member_append(f: Seq<(String, JsonValue)>, p: (String, JsonValue), name: Seq<char>)
    ensures
        find_member(f.push(p), name) == (match find_member(f, name) {
            Some(x) => Some(x),
            None => if p.0@ == name {
                Some(p.1)
            } else {
                None
            },
        }),
    decreases f.len(),
{
    let g = f.push(p);
    if f.len() > 0 {
        assert(g[0] == f[0]);
        assert(g.drop_first() =~= f.drop_first().push(p));
        lemma_find_member_append(f.drop_first(), p, name);
        if f[0].0@ != name {
            assert(find_member(g, name) == find_member(g.drop_first(), name));
            assert(find_member(f, name) == find_member(f.drop_first(), name));
        }
    } else {
        assert(g[0] == p);
        assert(g.drop_first() =~= Seq::<(String, JsonValue)>::empty());
        assert(find_member(g.drop_first(), name) is None);
    }
}

/// `obj` with `key` set to `value`: the first member of that name gets the
/// value, or a new member is added; every other name finds what it did.
#[verifier::loop_isolation(false)]
pub fn set_member(obj: JsonValue, key: &str, value: JsonValue) -> (r: JsonValue)
    requires
        obj is Object,
    ensures
        r is Object,
        member(r, key@) == Some(value),
        forall|name: Seq<char>| name != key@ ==> #[trigger] member(r, name) == member(obj, name),
{
    let ghost orig = obj;
    match obj {
        JsonValue::Object(mut fields) => {
            let ghost f_orig = fields@;
            assert(orig == JsonValue::Object(fields));
            assert(member(orig, key@) == find_member(f_orig, key@));
            let kc = chars_of(key);
            let mut k: usize = 0;
            while k < fields.len()
                invariant
                    k <= fields@.len(),
                    kc@ == key@,
                    fields@ == f_orig,
                    orig == JsonValue::Object(fields),
                    forall|j: int| 0 <= j < k ==> (#[trigger] fields@[j]).0@ != key@,
                    fields@ == f_orig,
                    orig == JsonValue::Object(fields),
                decreases fields@.len() - k,
            {
                if chars_eq(chars_of(fields[k].0.as_str()).as_slice(), kc.as_slice()) {
                    let ghost f0 = fields@;
                    let name = string_from_chars(kc.as_slice());
                    proof {
                        assert(name == f0[k as int].0 || name@ == f0[k as int].0@);
                    }
                    let old_pair = fields.remove(k);
                    fields.insert(k, (old_pair.0, value));
                    proof {
                        assert(fields@ =~= f0.update(k as int, (f0[k as int].0, value)));
                        assert forall|n: Seq<char>| true implies #[trigger] find_member(fields@, n) == (if n == key@ {
                            Some(value)
                        } else {
                            find_member(f0, n)
                        }) by {
                            lemma_find_member_update(f0, k as int, key@, value, n);
                        }
                    }
                    let r = JsonValue::Object(fields);
                    assert forall|n: Seq<char>| n != key@ implies #[trigger] member(r, n) == member(orig, n) by {
                        assert(member(orig, n) == find_member(f_orig, n));
                    }
                    assert(member(r, key@) == find_member(fields@, key@));
                    return r;
                }
                k += 1;
            }
            let ghost f0 = fields@;
            let p = (string_from_chars(kc.as_slice()), value);
            fields.push(p);
            proof {
                assert(find_member(f0, key@) is None) by {
                    lemma_no_member(f0, key@);
                }
                assert forall|n: Seq<char>| true implies #[trigger] find_member(fields@, n) == (if n == key@ {
                    Some(value)
                } else {
                    find_member(f0, n)
                }) by {
                    lemma_find_member_append(f0, p, n);
                }
            }
            let r = JsonValue::Object(fields);
            assert forall|n: Seq<char>| n != key@ implies #[trigger] member(r, n) == member(orig, n) by {
                assert(member(orig, n) == find_member(f_orig, n));
            }
            assert(member(r, key@) == find_member(fields@, key@));
            r
        },
        _ => obj,
    }
}

proof fn lemma_no_member(f: Seq<(String, JsonValue)>, key: Seq<char>)
    requires
        forall|j: int| 0 <= j < f.len() ==> (#[trigger] f[j]).0@ != key,
    ensures
        find_member(f, key) is None,
    decreases f.len(),
{
    if f.len() > 0 {
        assert forall|j: int| 0 <= j < f.drop_first().len() implies (#[trigger] f.drop_first()[j]).0@ != key by {
            assert(f.drop_first()[j] == f[j + 1]);
        }
        lemma_no_member(f.drop_first(), key);
    }
}

} // verus!
