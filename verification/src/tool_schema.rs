//! What a tool's JSON input schema says a call may carry: the fields it
//! requires and accepts and the actions it names, with `$ref`s into the
//! schema's definitions followed.
use crate::json_value::{find_member, member, member_of, JsonValue};
use crate::diff::lex_lt;
use crate::sync::{has_text, insert_sorted};
use crate::text::{chars_of, starts_with_chars, starts_with_seq, string_from_chars, subrange_chars};
use crate::workflows::{contains_text, strings_view};
use vstd::prelude::*;

verus! {

// ---------------------------------------------------------------------------
// References
// ---------------------------------------------------------------------------

/// The named definition of `defs_key` (`$defs` or `definitions`) in `root`.
pub open spec fn definition(root: JsonValue, defs_key: Seq<char>, name: Seq<char>) -> Option<
    JsonValue,
> {
    match member(root, defs_key) {
        Some(d) => member(d, name),
        None => None,
    }
}

/// Where the `$ref` of `schema` leads in `root`: `#/$defs/<name>` and
/// `#/definitions/<name>` name a definition; `None` when `schema` has no
/// such reference or the definition does not exist.
pub open spec fn ref_target(schema: JsonValue, root: JsonValue) -> Option<JsonValue> {
    match member(schema, "$ref"@) {
        Some(JsonValue::String(r)) => if starts_with_seq(r@, "#/$defs/"@) {
            definition(root, "$defs"@, r@.subrange(8, r@.len() as int))
        } else if starts_with_seq(r@, "#/definitions/"@) {
            definition(root, "definitions"@, r@.subrange(14, r@.len() as int))
        } else {
            None
        },
        _ => None,
    }
}

/// Follows references from `schema` at most `fuel` times; `None` when the
/// chain is longer.
pub open spec fn resolve_within(schema: JsonValue, root: JsonValue, fuel: nat) -> Option<JsonValue>
    decreases fuel,
{
    match ref_target(schema, root) {
        None => Some(schema),
        Some(t) => if fuel == 0 {
            None
        } else {
            resolve_within(t, root, (fuel - 1) as nat)
        },
    }
}

/// The chain of references from `schema` ends.
pub open spec fn resolves(schema: JsonValue, root: JsonValue) -> bool {
    exists|n: nat| #[trigger] resolve_within(schema, root, n) is Some
}

/// Where the chain of references from `schema` ends.
pub open spec fn resolved(schema: JsonValue, root: JsonValue) -> JsonValue {
    resolve_within(schema, root, choose|n: nat| #[trigger] resolve_within(schema, root, n) is Some)->0
}

/// Every chain of references in `root` ends.
pub open spec fn refs_end(root: JsonValue) -> bool {
    forall|v: JsonValue| #[trigger] resolves(v, root)
}

/// More fuel does not change where a chain ends.
pub proof fn lemma_resolve_fuel(schema: JsonValue, root: JsonValue, n: nat, m: nat)
    requires
        resolve_within(schema, root, n) is Some,
        n <= m,
    ensures
        resolve_within(schema, root, m) == resolve_within(schema, root, n),
    decreases n,
{
    match ref_target(schema, root) {
        None => {},
        Some(t) => {
            lemma_resolve_fuel(t, root, (n - 1) as nat, (m - 1) as nat);
        },
    }
}

/// A chain ends where the chain from its first target ends.
pub proof fn lemma_resolved_step(schema: JsonValue, root: JsonValue, t: JsonValue)
    requires
        resolves(schema, root),
        ref_target(schema, root) == Some(t),
    ensures
        resolves(t, root),
        resolved(t, root) == resolved(schema, root),
{
    let n = choose|n: nat| #[trigger] resolve_within(schema, root, n) is Some;
    assert(n > 0);
    let k = (n - 1) as nat;
    assert(resolve_within(t, root, k) is Some);
    let j = choose|j: nat| #[trigger] resolve_within(t, root, j) is Some;
    if j <= k {
        lemma_resolve_fuel(t, root, j, k);
    } else {
        lemma_resolve_fuel(t, root, k, j);
    }
}

/// A value without a reference resolves to itself.
pub proof fn lemma_resolved_here(schema: JsonValue, root: JsonValue)
    requires
        ref_target(schema, root) is None,
    ensures
        resolves(schema, root),
        resolved(schema, root) == schema,
{
    assert(resolve_within(schema, root, 0) is Some);
}

fn definition_of<'a>(root: &'a JsonValue, defs_key: &str, name: &[char]) -> (r: Option<&'a JsonValue>)
    ensures
        match (r, definition(*root, defs_key@, name@)) {
            (Some(a), Some(b)) => *a == b,
            (None, None) => true,
            _ => false,
        },
{
    match member_of(root, defs_key) {
        Some(d) => {
            let key = string_from_chars(name);
            member_of(d, key.as_str())
        },
        None => None,
    }
}

/// The definition the `$ref` of `schema` names, when it has one that exists.
pub fn ref_target_of<'a>(schema: &'a JsonValue, root: &'a JsonValue) -> (r: Option<&'a JsonValue>)
    ensures
        match (r, ref_target(*schema, *root)) {
            (Some(a), Some(b)) => *a == b,
            (None, None) => true,
            _ => false,
        },
{
    match member_of(schema, "$ref") {
        Some(JsonValue::String(r)) => {
            let rc = chars_of(r.as_str());
            if starts_with_chars(rc.as_slice(), chars_of("#/$defs/").as_slice()) {
                proof {
                    reveal_strlit("#/$defs/");
                }
                let name = subrange_chars(rc.as_slice(), 8, rc.len());
                definition_of(root, "$defs", name.as_slice())
            } else if starts_with_chars(rc.as_slice(), chars_of("#/definitions/").as_slice()) {
                proof {
                    reveal_strlit("#/definitions/");
                }
                let name = subrange_chars(rc.as_slice(), 14, rc.len());
                definition_of(root, "definitions", name.as_slice())
            } else {
                None
            }
        },
        _ => None,
    }
}

/// Follows the `$ref`s from `schema` through the definitions of `root` to
/// the first value without a resolvable reference.
pub fn resolve_schema_ref<'a>(schema: &'a JsonValue, root: &'a JsonValue) -> (r: &'a JsonValue)
    requires
        resolves(*schema, *root),
    ensures
        *r == resolved(*schema, *root),
{
    let ghost n = choose|n: nat| #[trigger] resolve_within(*schema, *root, n) is Some;
    let mut cur = schema;
    let ghost mut k: nat = n;
    loop
        invariant
            resolve_within(*cur, *root, k) is Some,
            resolves(*cur, *root),
            resolved(*cur, *root) == resolved(*schema, *root),
        decreases k,
    {
        match ref_target_of(cur, root) {
            None => {
                proof {
                    lemma_resolved_here(*cur, *root);
                }
                return cur;
            },
            Some(t) => {
                proof {
                    lemma_resolved_step(*cur, *root, *t);
                    k = (k - 1) as nat;
                }
                cur = t;
            },
        }
    }
}

// ---------------------------------------------------------------------------
// Deciding that reference chains end
// ---------------------------------------------------------------------------

/// The values of the members of `v` when it is an object.
pub open spec fn member_values(v: Option<JsonValue>) -> Seq<JsonValue> {
    match v {
        Some(JsonValue::Object(f)) => Seq::new(f@.len(), |k: int| f@[k].1),
        _ => Seq::empty(),
    }
}

/// Every definition a reference of `root` can lead to.
pub open spec fn definitions(root: JsonValue) -> Seq<JsonValue> {
    member_values(member(root, "$defs"@)) + member_values(member(root, "definitions"@))
}

/// The value `i` references on from `v` (`None` once a value has none).
pub open spec fn chain(v: JsonValue, root: JsonValue, i: nat) -> Option<JsonValue>
    decreases i,
{
    if i == 0 {
        Some(v)
    } else {
        match chain(v, root, (i - 1) as nat) {
            Some(c) => ref_target(c, root),
            None => None,
        }
    }
}

proof fn lemma_find_member_in(f: Seq<(String, JsonValue)>, key: Seq<char>)
    requires
        find_member(f, key) is Some,
    ensures
        exists|k: int| 0 <= k < f.len() && f[k].1 == find_member(f, key)->0,
    decreases f.len(),
{
    if f[0].0@ != key {
        lemma_find_member_in(f.drop_first(), key);
        let k = choose|k: int| 0 <= k < f.drop_first().len() && f.drop_first()[k].1 == find_member(
            f.drop_first(),
            key,
        )->0;
        assert(f[k + 1].1 == find_member(f, key)->0);
    } else {
        assert(f[0].1 == find_member(f, key)->0);
    }
}

/// Every reference leads to one of the definitions.
proof fn lemma_target_is_definition(v: JsonValue, root: JsonValue)
    requires
        ref_target(v, root) is Some,
    ensures
        definitions(root).contains(ref_target(v, root)->0),
{
    let t = ref_target(v, root)->0;
    let d1 = member_values(member(root, "$defs"@));
    let d2 = member_values(member(root, "definitions"@));
    let r = match member(v, "$ref"@) {
        Some(JsonValue::String(r)) => r@,
        _ => Seq::empty(),
    };
    if starts_with_seq(r, "#/$defs/"@) {
        let d = member(root, "$defs"@)->0;
        let f = d->Object_0@;
        lemma_find_member_in(f, r.subrange(8, r.len() as int));
        let k = choose|k: int| 0 <= k < f.len() && f[k].1 == t;
        assert(d1[k] == t);
        assert(definitions(root)[k] == t);
    } else {
        let d = member(root, "definitions"@)->0;
        let f = d->Object_0@;
        lemma_find_member_in(f, r.subrange(14, r.len() as int));
        let k = choose|k: int| 0 <= k < f.len() && f[k].1 == t;
        assert(d2[k] == t);
        assert(definitions(root)[d1.len() + k] == t);
    }
}

proof fn lemma_chain_shift(v: JsonValue, root: JsonValue, i: nat)
    ensures
        chain(v, root, i + 1) == match ref_target(v, root) {
            Some(t) => chain(t, root, i),
            None => None,
        },
    decreases i,
{
    if i > 0 {
        lemma_chain_shift(v, root, (i - 1) as nat);
        match ref_target(v, root) {
            Some(t) => {
                assert(chain(t, root, i) == match chain(t, root, (i - 1) as nat) {
                    Some(c) => ref_target(c, root),
                    None => None,
                });
            },
            None => {},
        }
    } else {
        assert(chain(v, root, 0) == Some(v));
        match ref_target(v, root) {
            Some(t) => {
                assert(chain(t, root, 0) == Some(t));
            },
            None => {},
        }
    }
}

/// Following references from `v` takes more than `n` steps exactly when
/// the chain goes on for `n + 1` steps.
proof fn lemma_unresolved_chain(v: JsonValue, root: JsonValue, n: nat)
    ensures
        (resolve_within(v, root, n) is None) == (chain(v, root, n + 1) is Some),
    decreases n,
{
    lemma_chain_shift(v, root, n);
    match ref_target(v, root) {
        None => {},
        Some(t) => {
            if n > 0 {
                lemma_unresolved_chain(t, root, (n - 1) as nat);
            } else {
                assert(chain(t, root, 0) is Some);
            }
        },
    }
}

proof fn lemma_chain_add(v: JsonValue, root: JsonValue, a: nat, b: nat)
    requires
        chain(v, root, a) is Some,
    ensures
        chain(v, root, a + b) == chain(chain(v, root, a)->0, root, b),
    decreases b,
{
    if b > 0 {
        lemma_chain_add(v, root, a, (b - 1) as nat);
        assert((a + b - 1) as nat == a + (b - 1) as nat);
    }
}

/// A chain that comes back to where it started goes on for ever.
proof fn lemma_cycle(c: JsonValue, root: JsonValue, p: nat, m: nat)
    requires
        p >= 1,
        chain(c, root, p) == Some(c),
    ensures
        chain(c, root, m) is Some,
    decreases m,
{
    if m >= p {
        lemma_cycle(c, root, p, (m - p) as nat);
        lemma_chain_add(c, root, p, (m - p) as nat);
        assert(p + (m - p) as nat == m);
    } else if m > 0 {
        lemma_cycle_prefix(c, root, p, m);
    }
}

proof fn lemma_cycle_prefix(c: JsonValue, root: JsonValue, p: nat, m: nat)
    requires
        m <= p,
        chain(c, root, p) is Some,
    ensures
        chain(c, root, m) is Some,
    decreases p - m,
{
    if m < p {
        lemma_cycle_prefix(c, root, p, m + 1);
    }
}

/// `n + 1` numbers below `n` repeat one.
proof fn lemma_pigeonhole(idx: Seq<int>, n: int)
    requires
        idx.len() == n + 1,
        n >= 0,
        forall|i: int| 0 <= i < idx.len() ==> 0 <= #[trigger] idx[i] < n,
    ensures
        exists|i: int, j: int| 0 <= i < j < idx.len() && idx[i] == idx[j],
{
    if !(exists|i: int, j: int| 0 <= i < j < idx.len() && idx[i] == idx[j]) {
        assert(idx.no_duplicates()) by {
            assert forall|i: int, j: int| 0 <= i < idx.len() && 0 <= j < idx.len() && i != j implies idx[i]
                != idx[j] by {
                if i < j {
                } else {
                }
            }
        }
        idx.unique_seq_to_set();
        vstd::set_lib::lemma_int_range(0, n);
        assert(idx.to_set().subset_of(vstd::set_lib::set_int_range(0, n))) by {
            assert forall|x: int| idx.to_set().contains(x) implies vstd::set_lib::set_int_range(0, n).contains(x) by {
                assert(idx.contains(x));
            }
        }
        vstd::set_lib::lemma_len_subset(idx.to_set(), vstd::set_lib::set_int_range(0, n));
    }
}

/// A definition whose chain does not end within as many steps as there are
/// definitions never ends.
proof fn lemma_long_chain_cycles(v: JsonValue, root: JsonValue)
    requires
        resolve_within(v, root, definitions(root).len()) is None,
    ensures
        !resolves(v, root),
{
    let d = definitions(root);
    let n = d.len();
    lemma_unresolved_chain(v, root, n);
    assert forall|i: nat| 1 <= i <= n + 1 implies (#[trigger] chain(v, root, i)) is Some && d.contains(chain(v, root, i)->0) by {
        lemma_cycle_prefix(v, root, n + 1, i);
        lemma_cycle_prefix(v, root, n + 1, (i - 1) as nat);
        lemma_target_is_definition(chain(v, root, (i - 1) as nat)->0, root);
    }
    let idx = Seq::new((n + 1) as nat, |i: int| choose|k: int| 0 <= k < n && d[k] == chain(v, root, (i + 1) as nat)->0);
    assert forall|i: int| 0 <= i < idx.len() implies 0 <= #[trigger] idx[i] < n && d[idx[i]] == chain(v, root, (i + 1) as nat)->0 by {
        assert(chain(v, root, (i + 1) as nat) is Some && d.contains(chain(v, root, (i + 1) as nat)->0));
    }
    lemma_pigeonhole(idx, n as int);
    let (i, j) = choose|i: int, j: int| 0 <= i < j < idx.len() && idx[i] == idx[j];
    let ci = chain(v, root, (i + 1) as nat)->0;
    assert(chain(v, root, (j + 1) as nat)->0 == ci);
    lemma_chain_add(v, root, (i + 1) as nat, (j - i) as nat);
    assert((i + 1) as nat + (j - i) as nat == (j + 1) as nat);
    assert(chain(ci, root, (j - i) as nat) == Some(ci));
    if resolves(v, root) {
        let m = choose|m: nat| #[trigger] resolve_within(v, root, m) is Some;
        lemma_unresolved_chain(v, root, m);
        lemma_cycle(ci, root, (j - i) as nat, m);
        lemma_chain_add(v, root, (i + 1) as nat, m);
        lemma_cycle_prefix(v, root, (i + 1) as nat + m, m + 1);
        assert(false);
    }
}

/// Checks the chain from one value within `fuel` steps.
fn resolves_within(v: &JsonValue, root: &JsonValue, fuel: usize) -> (r: bool)
    ensures
        r == (resolve_within(*v, *root, fuel as nat) is Some),
{
    let mut cur = v;
    let mut k = fuel;
    while true
        invariant
            (resolve_within(*cur, *root, k as nat) is Some) == (resolve_within(*v, *root, fuel as nat) is Some),
        decreases k,
    {
        match ref_target_of(cur, root) {
            None => {
                return true;
            },
            Some(t) => {
                if k == 0 {
                    return false;
                }
                cur = t;
                k -= 1;
            },
        }
    }
    false
}

fn all_resolve<'a>(defs: &Vec<&'a JsonValue>, root: &JsonValue, fuel: usize) -> (r: bool)
    ensures
        r == forall|k: int| 0 <= k < defs@.len() ==> #[trigger] resolve_within(*defs@[k], *root, fuel as nat) is Some,
{
    let mut k: usize = 0;
    while k < defs.len()
        invariant
            k <= defs@.len(),
            forall|j: int| 0 <= j < k ==> #[trigger] resolve_within(*defs@[j], *root, fuel as nat) is Some,
        decreases defs@.len() - k,
    {
        if !resolves_within(defs[k], root, fuel) {
            return false;
        }
        k += 1;
    }
    true
}

fn push_members<'a>(v: Option<&'a JsonValue>, out: &mut Vec<&'a JsonValue>)
    ensures
        final(out)@.map_values(|x: &JsonValue| *x) == old(out)@.map_values(|x: &JsonValue| *x) + member_values(
            match v {
                Some(x) => Some(*x),
                None => None,
            },
        ),
{
    let ghost o0 = out@.map_values(|x: &JsonValue| *x);
    match v {
        Some(JsonValue::Object(f)) => {
            let mut k: usize = 0;
            while k < f.len()
                invariant
                    k <= f@.len(),
                    out@.map_values(|x: &JsonValue| *x) == o0 + Seq::new(k as nat, |j: int| f@[j].1),
                decreases f@.len() - k,
            {
                let ghost before = out@;
                out.push(&f[k].1);
                proof {
                    assert(out@.map_values(|x: &JsonValue| *x) =~= before.map_values(|x: &JsonValue| *x).push(f@[k as int].1));
                    assert(out@.map_values(|x: &JsonValue| *x) =~= o0 + Seq::new((k + 1) as nat, |j: int| f@[j].1));
                }
                k += 1;
            }
            assert(Seq::new(f@.len(), |j: int| f@[j].1) =~= Seq::new(k as nat, |j: int| f@[j].1));
        },
        _ => {
            assert(out@.map_values(|x: &JsonValue| *x) =~= o0 + Seq::<JsonValue>::empty());
        },
    }
}

/// Whether every chain of references in `root` ends (`refs_end`), the
/// condition on which `schema_hints` and the answers built on it do not
/// follow references for ever.
pub fn refs_terminate(root: &JsonValue) -> (r: bool)
    ensures
        r == refs_end(*root),
{
    let mut defs: Vec<&JsonValue> = Vec::new();
    push_members(member_of(root, "$defs"), &mut defs);
    push_members(member_of(root, "definitions"), &mut defs);
    let ghost d = definitions(*root);
    proof {
        assert(defs@.map_values(|x: &JsonValue| *x) =~= d);
    }
    let n = defs.len();
    let r = all_resolve(&defs, root, n);
    proof {
        if r {
            assert forall|v: JsonValue| #[trigger] resolves(v, *root) by {
                match ref_target(v, *root) {
                    None => {
                        lemma_resolved_here(v, *root);
                    },
                    Some(t) => {
                        lemma_target_is_definition(v, *root);
                        let k = choose|k: int| 0 <= k < d.len() && d[k] == t;
                        assert(defs@[k] == t);
                        assert(resolve_within(t, *root, n as nat) is Some);
                        assert(resolve_within(v, *root, (n + 1) as nat) is Some);
                    },
                }
            }
        } else {
            let k = choose|k: int| 0 <= k < defs@.len() && !(resolve_within(*defs@[k], *root, n as nat) is Some);
            assert(defs@.map_values(|x: &JsonValue| *x)[k] == d[k]);
            lemma_long_chain_cycles(d[k], *root);
        }
    }
    r
}

// ---------------------------------------------------------------------------
// Fields and actions
// ---------------------------------------------------------------------------

/// The texts among `items`, in order.
pub open spec fn texts_in(items: Seq<JsonValue>) -> Seq<Seq<char>>
    decreases items.len(),
{
    if items.len() == 0 {
        Seq::empty()
    } else {
        let rest = texts_in(items.drop_last());
        match items.last() {
            JsonValue::String(s) => rest.push(s@),
            _ => rest,
        }
    }
}

/// The texts in `v` when it is an array; none otherwise.
pub open spec fn texts_of(v: Option<JsonValue>) -> Seq<Seq<char>> {
    match v {
        Some(JsonValue::Array(a)) => texts_in(a@),
        _ => Seq::empty(),
    }
}

/// The members of the `properties` object of `schema`; none when it has no
/// such object.
pub open spec fn properties(schema: JsonValue) -> Seq<(String, JsonValue)> {
    match member(schema, "properties"@) {
        Some(JsonValue::Object(f)) => f@,
        _ => Seq::empty(),
    }
}

pub open spec fn keys_of(fields: Seq<(String, JsonValue)>) -> Seq<Seq<char>> {
    Seq::new(fields.len(), |k: int| fields[k].0@)
}

/// The actions the `action` property of `schema` names: the texts of its
/// resolved `enum` array, else its resolved `const` text.
pub open spec fn actions_named(schema: JsonValue, root: JsonValue) -> Seq<Seq<char>> {
    match find_member(properties(schema), "action"@) {
        None => Seq::empty(),
        Some(a) => {
            let ra = resolved(a, root);
            match member(ra, "enum"@) {
                Some(JsonValue::Array(es)) => texts_in(es@),
                _ => match member(ra, "const"@) {
                    Some(JsonValue::String(c)) => seq![c@],
                    _ => Seq::empty(),
                },
            }
        },
    }
}

/// `acc` followed by those of `items` it does not hold yet, each once, in
/// the order they first come.
pub open spec fn add_new(acc: Seq<Seq<char>>, items: Seq<Seq<char>>) -> Seq<Seq<char>>
    decreases items.len(),
{
    if items.len() == 0 {
        acc
    } else {
        let a = add_new(acc, items.drop_last());
        if a.contains(items.last()) {
            a
        } else {
            a.push(items.last())
        }
    }
}

fn texts_in_array(items: &Vec<JsonValue>) -> (r: Vec<String>)
    ensures
        strings_view(r@) == texts_in(items@),
{
    let mut r: Vec<String> = Vec::new();
    let mut i: usize = 0;
    proof {
        assert(strings_view(r@) =~= texts_in(items@.subrange(0, 0)));
    }
    while i < items.len()
        invariant
            i <= items@.len(),
            strings_view(r@) == texts_in(items@.subrange(0, i as int)),
        decreases items@.len() - i,
    {
        let ghost before = r@;
        proof {
            let p = items@.subrange(0, i + 1);
            assert(p.drop_last() =~= items@.subrange(0, i as int));
            assert(p.last() == items@[i as int]);
        }
        match &items[i] {
            JsonValue::String(s) => {
                r.push(s.clone());
                proof {
                    assert(strings_view(r@) =~= strings_view(before).push(s@));
                }
            },
            _ => {},
        }
        i += 1;
    }
    proof {
        assert(items@.subrange(0, items@.len() as int) =~= items@);
    }
    r
}

/// The texts of the array `key` of `v`.
fn texts_at(v: &JsonValue, key: &str) -> (r: Vec<String>)
    ensures
        strings_view(r@) == texts_of(member(*v, key@)),
{
    match member_of(v, key) {
        Some(JsonValue::Array(a)) => texts_in_array(a),
        _ => {
            let r: Vec<String> = Vec::new();
            assert(strings_view(r@) =~= Seq::<Seq<char>>::empty());
            r
        },
    }
}

fn keys_in(fields: &Vec<(String, JsonValue)>) -> (r: Vec<String>)
    ensures
        strings_view(r@) == keys_of(fields@),
{
    let mut r: Vec<String> = Vec::new();
    let mut i: usize = 0;
    while i < fields.len()
        invariant
            i <= fields@.len(),
            r@.len() == i,
            forall|k: int| 0 <= k < i ==> #[trigger] r@[k]@ == fields@[k].0@,
        decreases fields@.len() - i,
    {
        r.push(fields[i].0.clone());
        i += 1;
    }
    assert(strings_view(r@) =~= keys_of(fields@));
    r
}

/// The names of the properties of `schema`.
fn property_names(schema: &JsonValue) -> (r: Vec<String>)
    ensures
        strings_view(r@) == keys_of(properties(*schema)),
{
    match member_of(schema, "properties") {
        Some(JsonValue::Object(f)) => keys_in(f),
        _ => {
            let r: Vec<String> = Vec::new();
            assert(strings_view(r@) =~= keys_of(properties(*schema)));
            r
        },
    }
}

/// The actions the `action` property of `schema` names.
fn property_actions(schema: &JsonValue, root: &JsonValue) -> (r: Vec<String>)
    requires
        refs_end(*root),
    ensures
        strings_view(r@) == actions_named(*schema, *root),
{
    let empty: Vec<String> = Vec::new();
    assert(strings_view(empty@) =~= Seq::<Seq<char>>::empty());
    match member_of(schema, "properties") {
        Some(props) => match props {
            JsonValue::Object(_) => match member_of(props, "action") {
                Some(a) => {
                    assert(resolves(*a, *root));
                    let ra = resolve_schema_ref(a, root);
                    match member_of(ra, "enum") {
                        Some(JsonValue::Array(es)) => texts_in_array(es),
                        _ => match member_of(ra, "const") {
                            Some(JsonValue::String(c)) => {
                                let mut r: Vec<String> = Vec::new();
                                r.push(c.clone());
                                assert(strings_view(r@) =~= seq![c@]);
                                r
                            },
                            _ => empty,
                        },
                    }
                },
                None => empty,
            },
            _ => empty,
        },
        None => empty,
    }
}

/// Appends to `acc` those of `items` it does not hold yet.
fn add_new_texts(acc: &mut Vec<String>, items: &Vec<String>)
    ensures
        strings_view(final(acc)@) == add_new(strings_view(old(acc)@), strings_view(items@)),
{
    let ghost a0 = strings_view(acc@);
    let mut i: usize = 0;
    proof {
        assert(strings_view(items@).subrange(0, 0) =~= Seq::<Seq<char>>::empty());
    }
    while i < items.len()
        invariant
            i <= items@.len(),
            strings_view(acc@) == add_new(a0, strings_view(items@).subrange(0, i as int)),
        decreases items@.len() - i,
    {
        let ghost before = acc@;
        proof {
            let p = strings_view(items@).subrange(0, i + 1);
            assert(p.drop_last() =~= strings_view(items@).subrange(0, i as int));
            assert(p.last() == items@[i as int]@);
        }
        if !contains_text(acc, &items[i]) {
            acc.push(items[i].clone());
            proof {
                assert(strings_view(acc@) =~= strings_view(before).push(items@[i as int]@));
            }
        }
        i += 1;
    }
    proof {
        assert(strings_view(items@).subrange(0, items@.len() as int) =~= strings_view(items@));
    }
}

// ---------------------------------------------------------------------------
// Hints
// ---------------------------------------------------------------------------

/// The alternatives of a schema: its `oneOf`, else its `anyOf`, when that
/// member is an array.
pub open spec fn alternatives(schema: JsonValue) -> Option<Seq<JsonValue>> {
    let v = match member(schema, "oneOf"@) {
        Some(x) => Some(x),
        None => member(schema, "anyOf"@),
    };
    match v {
        Some(JsonValue::Array(a)) => Some(a@),
        _ => None,
    }
}

/// The property names of the alternatives, each once, in the order they
/// first come.
pub open spec fn accepted_over(vs: Seq<JsonValue>, root: JsonValue) -> Seq<Seq<char>>
    decreases vs.len(),
{
    if vs.len() == 0 {
        Seq::empty()
    } else {
        add_new(accepted_over(vs.drop_last(), root), keys_of(properties(resolved(vs.last(), root))))
    }
}

/// The actions the alternatives name, each once, in the order they first
/// come.
pub open spec fn actions_over(vs: Seq<JsonValue>, root: JsonValue) -> Seq<Seq<char>>
    decreases vs.len(),
{
    if vs.len() == 0 {
        Seq::empty()
    } else {
        add_new(actions_over(vs.drop_last(), root), actions_named(resolved(vs.last(), root), root))
    }
}

/// The fields a schema lists as required.
pub open spec fn required_set(schema: JsonValue) -> Set<Seq<char>> {
    Set::new(|x: Seq<char>| texts_of(member(schema, "required"@)).contains(x))
}

/// The fields every alternative requires; `None` when there are none.
pub open spec fn required_over(vs: Seq<JsonValue>, root: JsonValue) -> Option<Set<Seq<char>>>
    decreases vs.len(),
{
    if vs.len() == 0 {
        None
    } else {
        let here = required_set(resolved(vs.last(), root));
        match required_over(vs.drop_last(), root) {
            None => Some(here),
            Some(c) => Some(c.intersect(here)),
        }
    }
}

pub open spec fn sorted_texts(v: Seq<String>) -> bool {
    forall|i: int, j: int| 0 <= i < j < v.len() ==> lex_lt(#[trigger] v[i]@, #[trigger] v[j]@)
}

/// `required`, `accepted` and `actions` are the hints of the tool schema
/// `root`. For a schema of alternatives: the fields all alternatives
/// require, in sorted order; the property names of any alternative; and the
/// actions any alternative names. Otherwise: the schema's own required
/// fields, property names and actions, as listed.
pub open spec fn hints_ok(
    root: JsonValue,
    required: Seq<String>,
    accepted: Seq<String>,
    actions: Seq<String>,
) -> bool {
    let rr = resolved(root, root);
    match alternatives(rr) {
        Some(vs) => {
            &&& sorted_texts(required)
            &&& forall|x: Seq<char>| #[trigger]
                has_text(required, x) <==> (required_over(vs, root) matches Some(c) && c.contains(x))
            &&& strings_view(accepted) == accepted_over(vs, root)
            &&& strings_view(actions) == actions_over(vs, root)
        },
        None => {
            &&& strings_view(required) == texts_of(member(rr, "required"@))
            &&& strings_view(accepted) == keys_of(properties(rr))
            &&& strings_view(actions) == actions_named(rr, root)
        },
    }
}

/// The texts of `list` as a sorted set.
fn sorted_set_of(list: &Vec<String>) -> (r: Vec<String>)
    ensures
        sorted_texts(r@),
        forall|x: Seq<char>| #[trigger] has_text(r@, x) <==> strings_view(list@).contains(x),
{
    let mut r: Vec<String> = Vec::new();
    let mut i: usize = 0;
    while i < list.len()
        invariant
            i <= list@.len(),
            sorted_texts(r@),
            forall|x: Seq<char>| #[trigger]
                has_text(r@, x) <==> exists|k: int| 0 <= k < i && #[trigger] list@[k]@ == x,
        decreases list@.len() - i,
    {
        insert_sorted(&mut r, &list[i]);
        proof {
            assert forall|x: Seq<char>| #[trigger] has_text(r@, x) <==> exists|k: int|
                0 <= k < i + 1 && #[trigger] list@[k]@ == x by {
                if x == list@[i as int]@ {
                    assert(list@[i as int]@ == x);
                }
            }
        }
        i += 1;
    }
    proof {
        assert forall|x: Seq<char>| #[trigger] has_text(r@, x) <==> strings_view(list@).contains(x) by {
            if has_text(r@, x) {
                let k = choose|k: int| 0 <= k < list@.len() && #[trigger] list@[k]@ == x;
                assert(strings_view(list@)[k] == x);
            }
            if strings_view(list@).contains(x) {
                let k = choose|k: int| 0 <= k < list@.len() && strings_view(list@)[k] == x;
                assert(list@[k]@ == x);
            }
        }
    }
    r
}

/// Those of the sorted set `set` that `list` holds, as a sorted set.
fn keep_listed(set: &Vec<String>, list: &Vec<String>) -> (r: Vec<String>)
    ensures
        sorted_texts(r@),
        forall|x: Seq<char>| #[trigger]
            has_text(r@, x) <==> (has_text(set@, x) && strings_view(list@).contains(x)),
{
    let mut r: Vec<String> = Vec::new();
    let mut i: usize = 0;
    while i < set.len()
        invariant
            i <= set@.len(),
            sorted_texts(r@),
            forall|x: Seq<char>| #[trigger]
                has_text(r@, x) <==> ((exists|k: int| 0 <= k < i && #[trigger] set@[k]@ == x)
                    && strings_view(list@).contains(x)),
        decreases set@.len() - i,
    {
        let ghost before = r@;
        let keep = contains_text(list, &set[i]);
        if keep {
            insert_sorted(&mut r, &set[i]);
        }
        proof {
            assert forall|x: Seq<char>| #[trigger] has_text(r@, x) <==> ((exists|k: int|
                0 <= k < i + 1 && #[trigger] set@[k]@ == x) && strings_view(list@).contains(x)) by {
                if x == set@[i as int]@ {
                    assert(set@[i as int]@ == x);
                }
                if exists|k: int| 0 <= k < i + 1 && #[trigger] set@[k]@ == x {
                    let k = choose|k: int| 0 <= k < i + 1 && #[trigger] set@[k]@ == x;
                    if k < i {
                        assert(exists|k: int| 0 <= k < i && #[trigger] set@[k]@ == x);
                    }
                }
            }
        }
        i += 1;
    }
    r
}

/// The fields a tool's input schema requires and accepts and the actions
/// it names, following `$ref`s into its definitions: for a schema of
/// alternatives (`oneOf`, else `anyOf`), the fields all alternatives
/// require (sorted), the property names of any alternative and the actions
/// any names, each once in the order first met; otherwise the schema's own
/// lists.
pub fn schema_hints(root: &JsonValue) -> (r: (Vec<String>, Vec<String>, Vec<String>))
    requires
        refs_end(*root),
    ensures
        hints_ok(*root, r.0@, r.1@, r.2@),
{
    assert(resolves(*root, *root));
    let rr = resolve_schema_ref(root, root);
    let alts: Option<&Vec<JsonValue>> = match member_of(rr, "oneOf") {
        Some(x) => match x {
            JsonValue::Array(a) => Some(a),
            _ => None,
        },
        None => match member_of(rr, "anyOf") {
            Some(JsonValue::Array(a)) => Some(a),
            _ => None,
        },
    };
    match alts {
        Some(vs) => {
            let mut accepted: Vec<String> = Vec::new();
            let mut actions: Vec<String> = Vec::new();
            let mut common: Vec<String> = Vec::new();
            let mut i: usize = 0;
            proof {
                assert(vs@.subrange(0, 0) =~= Seq::<JsonValue>::empty());
                assert(strings_view(accepted@) =~= Seq::<Seq<char>>::empty());
                assert(strings_view(actions@) =~= Seq::<Seq<char>>::empty());
            }
            while i < vs.len()
                invariant
                    i <= vs@.len(),
                    refs_end(*root),
                    strings_view(accepted@) == accepted_over(vs@.subrange(0, i as int), *root),
                    strings_view(actions@) == actions_over(vs@.subrange(0, i as int), *root),
                    sorted_texts(common@),
                    forall|x: Seq<char>| #[trigger]
                        has_text(common@, x) <==> (required_over(vs@.subrange(0, i as int), *root) matches Some(
                            c,
                        ) && c.contains(x)),
                decreases vs@.len() - i,
            {
                let ghost p = vs@.subrange(0, i + 1);
                proof {
                    assert(p.drop_last() =~= vs@.subrange(0, i as int));
                    assert(p.last() == vs@[i as int]);
                    assert(resolves(vs@[i as int], *root));
                }
                let rv = resolve_schema_ref(&vs[i], root);
                let names = property_names(rv);
                add_new_texts(&mut accepted, &names);
                let acts = property_actions(rv, root);
                add_new_texts(&mut actions, &acts);
                let req = texts_at(rv, "required");
                if i == 0 {
                    common = sorted_set_of(&req);
                } else {
                    common = keep_listed(&common, &req);
                }
                proof {
                    assert forall|x: Seq<char>| #[trigger] has_text(common@, x) <==> (required_over(
                        p,
                        *root,
                    ) matches Some(c) && c.contains(x)) by {
                        assert(required_set(*rv).contains(x) == strings_view(req@).contains(x));
                    }
                }
                i += 1;
            }
            proof {
                assert(vs@.subrange(0, vs@.len() as int) =~= vs@);
            }
            (common, accepted, actions)
        },
        None => {
            let required = texts_at(rr, "required");
            let accepted = property_names(rr);
            let actions = property_actions(rr, root);
            (required, accepted, actions)
        },
    }
}

/// `v` is an object whose `error` member is neither `null` nor the empty
/// text.
pub open spec fn carries_error(v: JsonValue) -> bool {
    match member(v, "error"@) {
        None => false,
        Some(JsonValue::Null) => false,
        Some(JsonValue::String(m)) => m@.len() > 0,
        Some(_) => true,
    }
}

/// Whether a JSON answer reports an error: an object whose `error` is not
/// `null` and not an empty text.
pub fn has_nonempty_error(value: &JsonValue) -> (r: bool)
    ensures
        r == carries_error(*value),
{
    match member_of(value, "error") {
        None => false,
        Some(JsonValue::Null) => false,
        Some(JsonValue::String(m)) => chars_of(m.as_str()).len() > 0,
        Some(_) => true,
    }
}

// ---------------------------------------------------------------------------
// Error answers
// ---------------------------------------------------------------------------

/// `v` is the text `t`.
pub open spec fn text_value(v: JsonValue, t: Seq<char>) -> bool {
    v matches JsonValue::String(s) && s@ == t
}

/// `v` is an array of the texts `t`.
pub open spec fn text_array(v: JsonValue, t: Seq<Seq<char>>) -> bool {
    v matches JsonValue::Array(items) && items@.len() == t.len() && forall|k: int|
        0 <= k < t.len() ==> text_value(#[trigger] items@[k], t[k])
}

/// Member `k` of `f` is `key` with the text `t`.
pub open spec fn text_member(f: Seq<(String, JsonValue)>, k: int, key: Seq<char>, t: Seq<char>) -> bool {
    f[k].0@ == key && text_value(f[k].1, t)
}

/// Member `k` of `f` is `key` with an array of the texts `t`.
pub open spec fn array_member(f: Seq<(String, JsonValue)>, k: int, key: Seq<char>, t: Seq<Seq<char>>) -> bool {
    f[k].0@ == key && text_array(f[k].1, t)
}

fn text_value_of(s: &str) -> (r: JsonValue)
    ensures
        text_value(r, s@),
{
    JsonValue::String(string_from_chars(chars_of(s).as_slice()))
}

fn text_array_of(v: &Vec<String>) -> (r: JsonValue)
    ensures
        text_array(r, strings_view(v@)),
{
    let mut items: Vec<JsonValue> = Vec::new();
    let mut i: usize = 0;
    while i < v.len()
        invariant
            i <= v@.len(),
            items@.len() == i,
            forall|k: int| 0 <= k < i ==> text_value(#[trigger] items@[k], v@[k]@),
        decreases v@.len() - i,
    {
        items.push(JsonValue::String(v[i].clone()));
        i += 1;
    }
    JsonValue::Array(items)
}

fn member_pair(key: &str, value: JsonValue) -> (r: (String, JsonValue))
    ensures
        r.0@ == key@,
        r.1 == value,
{
    (string_from_chars(chars_of(key).as_slice()), value)
}

/// The answer to arguments a tool's own checks refuse: `error`
/// (`invalid_tool_arguments`), `message`, `tool`, `action` and a
/// `correction`, in that order.
pub fn tool_input_error(tool: &str, action: &str, message: String) -> (r: JsonValue)
    ensures
        r matches JsonValue::Object(f) && f@.len() == 5 && text_member(
            f@,
            0,
            "error"@,
            "invalid_tool_arguments"@,
        ) && text_member(f@, 1, "message"@, message@) && text_member(f@, 2, "tool"@, tool@)
            && text_member(f@, 3, "action"@, action@) && text_member(
            f@,
            4,
            "correction"@,
            "Correct the arguments described by message and retry the same tool call."@,
        ),
{
    let mut f: Vec<(String, JsonValue)> = Vec::new();
    f.push(member_pair("error", text_value_of("invalid_tool_arguments")));
    f.push(member_pair("message", JsonValue::String(message)));
    f.push(member_pair("tool", text_value_of(tool)));
    f.push(member_pair("action", text_value_of(action)));
    f.push(
        member_pair(
            "correction",
            text_value_of("Correct the arguments described by message and retry the same tool call."),
        ),
    );
    JsonValue::Object(f)
}

/// The answer to a call whose arguments do not fit the tool's input schema:
/// `error` (`invalid_tool_arguments`), `message`, `tool`, the
/// `received_fields`, the schema's `required_fields`, `accepted_fields` and
/// `valid_actions` (see `schema_hints`), and a `correction`, in that order.
pub fn invalid_arguments_result(
    schema: &JsonValue,
    tool_name: &str,
    received_fields: &Vec<String>,
    message: String,
) -> (r: JsonValue)
    requires
        refs_end(*schema),
    ensures
        exists|req: Seq<String>, acc: Seq<String>, act: Seq<String>|
            #![trigger hints_ok(*schema, req, acc, act)]
            hints_ok(*schema, req, acc, act) && (r matches JsonValue::Object(f) && f@.len() == 8
                && text_member(f@, 0, "error"@, "invalid_tool_arguments"@) && text_member(
                f@,
                1,
                "message"@,
                message@,
            ) && text_member(f@, 2, "tool"@, tool_name@) && array_member(
                f@,
                3,
                "received_fields"@,
                strings_view(received_fields@),
            ) && array_member(f@, 4, "required_fields"@, strings_view(req)) && array_member(
                f@,
                5,
                "accepted_fields"@,
                strings_view(acc),
            ) && array_member(f@, 6, "valid_actions"@, strings_view(act)) && text_member(
                f@,
                7,
                "correction"@,
                "Retry the same tool using only accepted_fields, include every required_field, and choose action from valid_actions when present."@,
            )),
{
    let (req, acc, act) = schema_hints(schema);
    let mut f: Vec<(String, JsonValue)> = Vec::new();
    f.push(member_pair("error", text_value_of("invalid_tool_arguments")));
    f.push(member_pair("message", JsonValue::String(message)));
    f.push(member_pair("tool", text_value_of(tool_name)));
    f.push(member_pair("received_fields", text_array_of(received_fields)));
    f.push(member_pair("required_fields", text_array_of(&req)));
    f.push(member_pair("accepted_fields", text_array_of(&acc)));
    f.push(member_pair("valid_actions", text_array_of(&act)));
    f.push(
        member_pair(
            "correction",
            text_value_of(
                "Retry the same tool using only accepted_fields, include every required_field, and choose action from valid_actions when present.",
            ),
        ),
    );
    let r = JsonValue::Object(f);
    assert(hints_ok(*schema, req@, acc@, act@));
    r
}

/// A member appended to an object is found only where no earlier one has
/// its name.
pub proof fn lemma_find_member_push(f: Seq<(String, JsonValue)>, p: (String, JsonValue), key: Seq<char>)
    ensures
        find_member(f.push(p), key) == (match find_member(f, key) {
            Some(x) => Some(x),
            None => if p.0@ == key {
                Some(p.1)
            } else {
                None
            },
        }),
    decreases f.len(),
{
    let g = f.push(p);
    if f.len() > 0 {
        assert(g[0] == f[0]);
        assert(g.drop_first() =~= f.drop_first().push(p));
        lemma_find_member_push(f.drop_first(), p, key);
        if f[0].0@ == key {
            assert(find_member(g, key) == Some(f[0].1));
        } else {
            assert(find_member(g, key) == find_member(g.drop_first(), key));
            assert(find_member(f, key) == find_member(f.drop_first(), key));
        }
    } else {
        assert(g[0] == p);
        assert(g.drop_first() =~= Seq::<(String, JsonValue)>::empty());
        assert(find_member(g.drop_first(), key) is None);
    }
}

fn member_in<'a>(f: &'a Vec<(String, JsonValue)>, key: &str) -> (r: Option<&'a JsonValue>)
    ensures
        match (r, find_member(f@, key@)) {
            (Some(a), Some(b)) => *a == b,
            (None, None) => true,
            _ => false,
        },
{
    let kc = chars_of(key);
    let mut k: usize = 0;
    proof {
        assert(f@.subrange(0, f@.len() as int) =~= f@);
    }
    while k < f.len()
        invariant
            k <= f@.len(),
            kc@ == key@,
            find_member(f@.subrange(k as int, f@.len() as int), key@) == find_member(f@, key@),
        decreases f@.len() - k,
    {
        let ghost rest = f@.subrange(k as int, f@.len() as int);
        proof {
            assert(rest[0] == f@[k as int]);
            assert(rest.drop_first() =~= f@.subrange(k + 1, f@.len() as int));
        }
        if crate::text::chars_eq(chars_of(f[k].0.as_str()).as_slice(), kc.as_slice()) {
            return Some(&f[k].1);
        }
        k += 1;
    }
    None
}

/// Adds the member `key` with `value` unless `f` has one already.
fn put_if_absent(f: &mut Vec<(String, JsonValue)>, key: &str, value: JsonValue)
    ensures
        forall|k: Seq<char>| #[trigger] find_member(final(f)@, k) == (if k == key@ && find_member(
            old(f)@,
            k,
        ) is None {
            Some(value)
        } else {
            find_member(old(f)@, k)
        }),
{
    if member_in(f, key).is_none() {
        let ghost f0 = f@;
        let p = member_pair(key, value);
        f.push(p);
        proof {
            assert forall|k: Seq<char>| #[trigger] find_member(f@, k) == (if k == key@ && find_member(
                f0,
                k,
            ) is None {
                Some(value)
            } else {
                find_member(f0, k)
            }) by {
                lemma_find_member_push(f0, p, k);
            }
        }
    }
}

/// `after` is `before` when that is given, else a value `fresh` accepts.
pub open spec fn defaulted(before: Option<JsonValue>, after: Option<JsonValue>, fresh: spec_fn(JsonValue) -> bool) -> bool {
    match before {
        Some(b) => after == before,
        None => after matches Some(a) && fresh(a),
    }
}

/// The members an error answer gains.
pub open spec fn detail_key(k: Seq<char>) -> bool {
    k == "tool"@ || k == "message"@ || k == "required_fields"@ || k == "accepted_fields"@ || k
        == "valid_actions"@ || k == "correction"@
}

/// `r` is the error answer `value` with what it lacks filled in from the
/// tool name and the schema hints `req`, `acc`, `act`.
pub open spec fn details_ok(
    value: JsonValue,
    r: JsonValue,
    tool_name: Seq<char>,
    req: Seq<String>,
    acc: Seq<String>,
    act: Seq<String>,
) -> bool {
    &&& r is Object
    &&& forall|k: Seq<char>| !detail_key(k) ==> #[trigger] member(r, k) == member(value, k)
    &&& defaulted(member(value, "tool"@), member(r, "tool"@), |a: JsonValue| text_value(a, tool_name))
    &&& member(r, "message"@) == (match (member(value, "message"@), member(value, "error"@)) {
        (Some(m), _) => Some(m),
        (None, Some(JsonValue::String(e))) => Some(JsonValue::String(e)),
        _ => None,
    })
    &&& defaulted(
        member(value, "required_fields"@),
        member(r, "required_fields"@),
        |a: JsonValue| text_array(a, strings_view(req)),
    )
    &&& defaulted(
        member(value, "accepted_fields"@),
        member(r, "accepted_fields"@),
        |a: JsonValue| text_array(a, strings_view(acc)),
    )
    &&& if act.len() > 0 {
        defaulted(
            member(value, "valid_actions"@),
            member(r, "valid_actions"@),
            |a: JsonValue| text_array(a, strings_view(act)),
        )
    } else {
        member(r, "valid_actions"@) == member(value, "valid_actions"@)
    }
    &&& defaulted(
        member(value, "correction"@),
        member(r, "correction"@),
        |a: JsonValue|
            text_value(
                a,
                "Use message plus the accepted fields and valid actions, correct the call, then retry the same tool once."@,
            ),
    )
}

/// Completes an error answer of a tool (an object whose `error` is set):
/// the `tool` name, a `message` (the `error` text when that is a text), the
/// schema's `required_fields`, `accepted_fields` and, when it names any,
/// `valid_actions`, and a `correction`; members it has already are kept.
pub fn tool_error_details(value: JsonValue, schema: &JsonValue, tool_name: &str) -> (r: JsonValue)
    requires
        carries_error(value),
        refs_end(*schema),
    ensures
        exists|req: Seq<String>, acc: Seq<String>, act: Seq<String>|
            #![trigger hints_ok(*schema, req, acc, act)]
            hints_ok(*schema, req, acc, act) && details_ok(value, r, tool_name@, req, acc, act),
{
    let ghost v0 = value;
    proof {
        reveal_strlit("tool");
        reveal_strlit("message");
        reveal_strlit("error");
        reveal_strlit("required_fields");
        reveal_strlit("accepted_fields");
        reveal_strlit("valid_actions");
        reveal_strlit("correction");
        assert("tool"@.len() == 4 && "message"@.len() == 7 && "error"@.len() == 5);
        assert("required_fields"@.len() == 15 && "accepted_fields"@.len() == 15);
        assert("required_fields"@[0] == 'r' && "accepted_fields"@[0] == 'a');
        assert("valid_actions"@.len() == 13 && "correction"@.len() == 10);
    }
    match value {
        JsonValue::Object(mut f) => {
            let ghost f0 = f@;
            put_if_absent(&mut f, "tool", text_value_of(tool_name));
            let ghost f1 = f@;
            if member_in(&f, "message").is_none() {
                let error_text = match member_in(&f, "error") {
                    Some(JsonValue::String(e)) => Some(e.clone()),
                    _ => None,
                };
                match error_text {
                    Some(e) => {
                        put_if_absent(&mut f, "message", JsonValue::String(e));
                    },
                    None => {},
                }
            }
            let ghost f2 = f@;
            let (req, acc, act) = schema_hints(schema);
            put_if_absent(&mut f, "required_fields", text_array_of(&req));
            let ghost f3 = f@;
            put_if_absent(&mut f, "accepted_fields", text_array_of(&acc));
            let ghost f4 = f@;
            if act.len() > 0 {
                put_if_absent(&mut f, "valid_actions", text_array_of(&act));
            }
            let ghost f5 = f@;
            put_if_absent(
                &mut f,
                "correction",
                text_value_of(
                    "Use message plus the accepted fields and valid actions, correct the call, then retry the same tool once.",
                ),
            );
            let r = JsonValue::Object(f);
            proof {
                assert forall|k: Seq<char>| #[trigger] find_member(f@, k) == find_member(f2, k) || k
                    == "required_fields"@ || k == "accepted_fields"@ || k == "valid_actions"@ || k
                    == "correction"@ by {
                    assert(find_member(f3, k) == find_member(f2, k) || k == "required_fields"@);
                    assert(find_member(f4, k) == find_member(f3, k) || k == "accepted_fields"@);
                    assert(find_member(f5, k) == find_member(f4, k) || k == "valid_actions"@);
                    assert(find_member(f@, k) == find_member(f5, k) || k == "correction"@);
                }
                assert forall|k: Seq<char>| k != "tool"@ && k != "message"@ implies #[trigger] find_member(f2, k)
                    == find_member(f0, k) by {
                    assert(find_member(f1, k) == find_member(f0, k));
                }
                assert(find_member(f2, "tool"@) == find_member(f1, "tool"@));
                assert(find_member(f1, "message"@) == find_member(f0, "message"@));
                assert(find_member(f1, "error"@) == find_member(f0, "error"@));
                assert(find_member(f3, "accepted_fields"@) == find_member(f2, "accepted_fields"@));
                assert(find_member(f3, "valid_actions"@) == find_member(f2, "valid_actions"@));
                assert(find_member(f4, "valid_actions"@) == find_member(f3, "valid_actions"@));
                assert(find_member(f3, "correction"@) == find_member(f2, "correction"@));
                assert(find_member(f4, "correction"@) == find_member(f3, "correction"@));
                assert(find_member(f5, "correction"@) == find_member(f4, "correction"@));
                assert(find_member(f4, "required_fields"@) == find_member(f3, "required_fields"@));
                assert(find_member(f5, "required_fields"@) == find_member(f4, "required_fields"@));
                assert(find_member(f@, "required_fields"@) == find_member(f5, "required_fields"@));
                assert(find_member(f5, "accepted_fields"@) == find_member(f4, "accepted_fields"@));
                assert(find_member(f@, "accepted_fields"@) == find_member(f5, "accepted_fields"@));
                assert(find_member(f@, "valid_actions"@) == find_member(f5, "valid_actions"@));
                assert(details_ok(v0, r, tool_name@, req@, acc@, act@));
                assert(hints_ok(*schema, req@, acc@, act@));
            }
            r
        },
        _ => value,
    }
}

} // verus!
