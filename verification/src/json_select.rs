//! What the segments of a JSONPath select in a JSON document.  Selection
//! works on references into the document: a step takes the values reached
//! so far and gives, in order, the values the segment reaches from each.
use crate::json_path::JsonSegment;
use crate::json_value::{member, member_of, member_path, JsonValue};
use vstd::prelude::*;

verus! {

// ---------------------------------------------------------------------------
// Recursive descent
// ---------------------------------------------------------------------------

/// The members named `t` of `v` and of every value below it, each object's
/// own member before those found inside its members, in document order.
pub open spec fn collect_field(v: JsonValue, t: Seq<char>) -> Seq<JsonValue>
    decreases v,
{
    match v {
        JsonValue::Object(fs) => field_pick(v, t) + collect_field_members(fs@, t),
        JsonValue::Array(a) => collect_field_items(a@, t),
        _ => Seq::empty(),
    }
}

/// `collect_field` over the items `a`, in order.
pub open spec fn collect_field_items(a: Seq<JsonValue>, t: Seq<char>) -> Seq<JsonValue>
    decreases a,
{
    if a.len() == 0 {
        Seq::empty()
    } else {
        collect_field_items(a.drop_last(), t) + collect_field(a.last(), t)
    }
}

/// `collect_field` over the values of the members `fs`, in order.
pub open spec fn collect_field_members(fs: Seq<(String, JsonValue)>, t: Seq<char>) -> Seq<JsonValue>
    decreases fs,
{
    if fs.len() == 0 {
        Seq::empty()
    } else {
        collect_field_members(fs.drop_last(), t) + collect_field(fs.last().1, t)
    }
}

/// Every value below `v`: each child, then the values below it.
pub open spec fn collect_all(v: JsonValue) -> Seq<JsonValue>
    decreases v,
{
    match v {
        JsonValue::Object(fs) => collect_all_members(fs@),
        JsonValue::Array(a) => collect_all_items(a@),
        _ => Seq::empty(),
    }
}

/// `collect_all` over the items `a`, each item first.
pub open spec fn collect_all_items(a: Seq<JsonValue>) -> Seq<JsonValue>
    decreases a,
{
    if a.len() == 0 {
        Seq::empty()
    } else {
        collect_all_items(a.drop_last()) + seq![a.last()] + collect_all(a.last())
    }
}

/// `collect_all` over the values of the members `fs`, each value first.
pub open spec fn collect_all_members(fs: Seq<(String, JsonValue)>) -> Seq<JsonValue>
    decreases fs,
{
    if fs.len() == 0 {
        Seq::empty()
    } else {
        collect_all_members(fs.drop_last()) + seq![fs.last().1] + collect_all(fs.last().1)
    }
}

// ---------------------------------------------------------------------------
// What a segment selects from one value
// ---------------------------------------------------------------------------

/// The values behind a sequence of references.
pub open spec fn derefs(s: Seq<&JsonValue>) -> Seq<JsonValue> {
    Seq::new(s.len(), |k: int| *s[k])
}

/// The member `f` of `v`, if it has one.
pub open spec fn field_pick(v: JsonValue, f: Seq<char>) -> Seq<JsonValue> {
    match member(v, f) {
        Some(x) => seq![x],
        None => Seq::empty(),
    }
}

/// The item `idx` of an array, counted from the end when negative.
pub open spec fn index_pick(v: JsonValue, idx: int) -> Seq<JsonValue> {
    match v {
        JsonValue::Array(a) => {
            let actual = if idx < 0 {
                a@.len() + idx
            } else {
                idx
            };
            if 0 <= actual < a@.len() {
                seq![a@[actual]]
            } else {
                Seq::empty()
            }
        },
        _ => Seq::empty(),
    }
}

/// The values of an object's members, in order.
pub open spec fn member_values(fs: Seq<(String, JsonValue)>) -> Seq<JsonValue> {
    Seq::new(fs.len(), |k: int| fs[k].1)
}

/// Every item of an array or every member value of an object.
pub open spec fn wildcard_pick(v: JsonValue) -> Seq<JsonValue> {
    match v {
        JsonValue::Array(a) => a@,
        JsonValue::Object(fs) => member_values(fs@),
        _ => Seq::empty(),
    }
}

/// A slice bound against an array of `len` items: a negative bound counts
/// from the end; the result lies in `0..=len`.
pub open spec fn slice_bound(b: int, len: int) -> int {
    if b < 0 {
        if len + b < 0 {
            0
        } else {
            len + b
        }
    } else if b < len {
        b
    } else {
        len
    }
}

/// The first item of `a`, then every `step`-th after it.
pub open spec fn every_step(a: Seq<JsonValue>, step: int) -> Seq<JsonValue>
    decreases a.len(),
{
    if a.len() == 0 || step <= 0 {
        Seq::empty()
    } else if step >= a.len() {
        seq![a[0]]
    } else {
        seq![a[0]] + every_step(a.subrange(step, a.len() as int), step)
    }
}

/// The items of an array from `start` (0 by default) up to `end` (the
/// length by default), every `step`-th (1 by default); nothing for a step
/// that is not positive.
pub open spec fn slice_pick(v: JsonValue, start: Option<isize>, end: Option<isize>, step: Option<isize>) -> Seq<JsonValue> {
    match v {
        JsonValue::Array(a) => {
            let len = a@.len() as int;
            let s = match start {
                Some(b) => slice_bound(b as int, len),
                None => 0,
            };
            let e = match end {
                Some(b) => slice_bound(b as int, len),
                None => len,
            };
            let st = match step {
                Some(x) => x as int,
                None => 1,
            };
            if s < e {
                every_step(a@.subrange(s, e), st)
            } else {
                Seq::empty()
            }
        },
        _ => Seq::empty(),
    }
}

/// What one item of a union selects: a member or an array item; any other
/// kind of item selects nothing.
pub open spec fn union_item_pick(v: JsonValue, item: JsonSegment) -> Seq<JsonValue> {
    match item {
        JsonSegment::Field(f) => field_pick(v, f@),
        JsonSegment::Index(i) => index_pick(v, i as int),
        _ => Seq::empty(),
    }
}

/// What the items of a union select, item after item.
pub open spec fn union_pick(v: JsonValue, items: Seq<JsonSegment>) -> Seq<JsonValue>
    decreases items.len(),
{
    if items.len() == 0 {
        Seq::empty()
    } else {
        union_pick(v, items.drop_last()) + union_item_pick(v, items.last())
    }
}

/// What a segment other than a filter selects from `v`.
pub open spec fn segment_pick(v: JsonValue, seg: JsonSegment) -> Seq<JsonValue> {
    match seg {
        JsonSegment::Field(f) => field_pick(v, f@),
        JsonSegment::Index(i) => index_pick(v, i as int),
        JsonSegment::Wildcard => wildcard_pick(v),
        JsonSegment::RecursiveField(f) => collect_field(v, f@),
        JsonSegment::RecursiveWildcard => collect_all(v),
        JsonSegment::Slice { start, end, step } => slice_pick(v, start, end, step),
        JsonSegment::Union(items) => union_pick(v, items@),
        JsonSegment::Filter { .. } => Seq::empty(),
    }
}

/// A union selects, item after item, what each of its items would select
/// alone when the item is a member name or an index; any other item adds
/// nothing.  In particular a union of one name or one index selects what
/// that name or index selects.
pub proof fn lemma_union_items(v: JsonValue, items: Seq<JsonSegment>, item: JsonSegment)
    ensures
        union_pick(v, Seq::empty()) == Seq::<JsonValue>::empty(),
        union_pick(v, items.push(item)) == union_pick(v, items) + (if item is Field || item is Index {
            segment_pick(v, item)
        } else {
            Seq::empty()
        }),
        (item is Field || item is Index) ==> union_pick(v, seq![item]) == segment_pick(v, item),
{
    assert(items.push(item).drop_last() =~= items);
    assert(seq![item].drop_last() =~= Seq::<JsonSegment>::empty());
    assert(union_pick(v, Seq::<JsonSegment>::empty()) + segment_pick(v, item) =~= segment_pick(v, item));
}

/// An index selects the array item at that position, counted from the end
/// when negative (`-1` is the last item); past either end, and on anything
/// but an array, it selects nothing.
pub proof fn lemma_index_selects(v: JsonValue, i: isize)
    ensures
        match v {
            JsonValue::Array(a) => {
                let n = a@.len() as int;
                &&& 0 <= i < n ==> segment_pick(v, JsonSegment::Index(i)) == seq![a@[i as int]]
                &&& -n <= i < 0 ==> segment_pick(v, JsonSegment::Index(i)) == seq![a@[n + i]]
                &&& (i >= n || i < -n) ==> segment_pick(v, JsonSegment::Index(i)).len() == 0
            },
            _ => segment_pick(v, JsonSegment::Index(i)).len() == 0,
        },
{
}

/// A step over several values selects, value after value, what it selects
/// from each: splitting the values splits the selection.
pub proof fn lemma_step_concat(c1: Seq<JsonValue>, c2: Seq<JsonValue>, seg: JsonSegment)
    ensures
        step_all(c1 + c2, seg) == step_all(c1, seg) + step_all(c2, seg),
    decreases c2.len(),
{
    if c2.len() == 0 {
        assert(c1 + c2 =~= c1);
        assert(step_all(c1, seg) + step_all(c2, seg) =~= step_all(c1, seg));
    } else {
        lemma_step_concat(c1, c2.drop_last(), seg);
        assert((c1 + c2).drop_last() =~= c1 + c2.drop_last());
        assert((c1 + c2).last() == c2.last());
        assert(step_all(c1, seg) + step_all(c2, seg) =~= step_all(c1, seg) + step_all(c2.drop_last(), seg)
            + segment_pick(c2.last(), seg));
    }
}

/// A wildcard selects every item of an array and every member value of an
/// object, in order, and nothing from anything else.
pub proof fn lemma_wildcard_selects(v: JsonValue)
    ensures
        match v {
            JsonValue::Array(a) => segment_pick(v, JsonSegment::Wildcard) == a@,
            JsonValue::Object(fs) => {
                &&& segment_pick(v, JsonSegment::Wildcard).len() == fs@.len()
                &&& forall|k: int| 0 <= k < fs@.len() ==> #[trigger] segment_pick(v, JsonSegment::Wildcard)[k] == fs@[k].1
            },
            _ => segment_pick(v, JsonSegment::Wildcard).len() == 0,
        },
{
}

proof fn lemma_find_member_first(fs: Seq<(String, JsonValue)>, f: Seq<char>, k: int)
    requires
        0 <= k < fs.len(),
        fs[k].0@ == f,
        forall|j: int| 0 <= j < k ==> #[trigger] fs[j].0@ != f,
    ensures
        crate::json_value::find_member(fs, f) == Some(fs[k].1),
    decreases k,
{
    if k > 0 {
        assert(fs[0].0@ != f);
        assert forall|j: int| 0 <= j < k - 1 implies #[trigger] fs.drop_first()[j].0@ != f by {
            assert(fs.drop_first()[j] == fs[j + 1]);
        }
        lemma_find_member_first(fs.drop_first(), f, k - 1);
    }
}

proof fn lemma_find_member_none(fs: Seq<(String, JsonValue)>, f: Seq<char>)
    requires
        forall|j: int| 0 <= j < fs.len() ==> #[trigger] fs[j].0@ != f,
    ensures
        crate::json_value::find_member(fs, f) is None,
    decreases fs.len(),
{
    if fs.len() > 0 {
        assert(fs[0].0@ != f);
        assert forall|j: int| 0 <= j < fs.len() - 1 implies #[trigger] fs.drop_first()[j].0@ != f by {
            assert(fs.drop_first()[j] == fs[j + 1]);
        }
        lemma_find_member_none(fs.drop_first(), f);
    }
}

/// A name selects the value of an object's first member with that name,
/// and nothing when the object has no such member or the value is not an
/// object.
pub proof fn lemma_field_selects(v: JsonValue, f: String, k: int)
    ensures
        match v {
            JsonValue::Object(fs) => {
                &&& (0 <= k < fs@.len() && fs@[k].0@ == f@ && (forall|j: int| 0 <= j < k ==> #[trigger] fs@[j].0@ != f@))
                    ==> segment_pick(v, JsonSegment::Field(f)) == seq![fs@[k].1]
                &&& (forall|j: int| 0 <= j < fs@.len() ==> #[trigger] fs@[j].0@ != f@) ==> segment_pick(
                    v,
                    JsonSegment::Field(f),
                ).len() == 0
            },
            _ => segment_pick(v, JsonSegment::Field(f)).len() == 0,
        },
{
    if let JsonValue::Object(fs) = v {
        if 0 <= k < fs@.len() && fs@[k].0@ == f@ && (forall|j: int| 0 <= j < k ==> #[trigger] fs@[j].0@ != f@) {
            lemma_find_member_first(fs@, f@, k);
        }
        if forall|j: int| 0 <= j < fs@.len() ==> #[trigger] fs@[j].0@ != f@ {
            lemma_find_member_none(fs@, f@);
        }
    }
}

proof fn lemma_every_step_one(a: Seq<JsonValue>)
    ensures
        every_step(a, 1) == a,
    decreases a.len(),
{
    if a.len() > 1 {
        lemma_every_step_one(a.subrange(1, a.len() as int));
        assert(seq![a[0]] + a.subrange(1, a.len() as int) =~= a);
    } else if a.len() == 1 {
        assert(seq![a[0]] =~= a);
    }
}

/// A slice with bounds inside the array and step 1 (written or not)
/// selects the items from `start` up to, not including, `end`; a step that
/// is not positive selects nothing.
pub proof fn lemma_slice_selects(v: JsonValue, start: isize, end: isize, step: Option<isize>)
    ensures
        match v {
            JsonValue::Array(a) => {
                &&& (0 <= start <= end <= a@.len() && (step is None || step == Some(1isize)))
                    ==> segment_pick(v, JsonSegment::Slice { start: Some(start), end: Some(end), step })
                    == a@.subrange(start as int, end as int)
                &&& (step matches Some(st) && st <= 0) ==> segment_pick(
                    v,
                    JsonSegment::Slice { start: Some(start), end: Some(end), step },
                ).len() == 0
            },
            _ => segment_pick(v, JsonSegment::Slice { start: Some(start), end: Some(end), step }).len() == 0,
        },
{
    if let JsonValue::Array(a) = v {
        if 0 <= start <= end <= a@.len() && (step is None || step == Some(1isize)) {
            lemma_every_step_one(a@.subrange(start as int, end as int));
            if start == end {
                assert(a@.subrange(start as int, end as int) =~= Seq::<JsonValue>::empty());
            }
        }
        if step is Some && step->0 <= 0 {
            let st = step->0;
            let len = a@.len() as int;
            let sb = slice_bound(start as int, len);
            let eb = slice_bound(end as int, len);
            if sb < eb {
                assert(every_step(a@.subrange(sb, eb), st as int) =~= Seq::<JsonValue>::empty());
            }
        }
    }
}

/// Recursive descent for a name first selects the object's own member of
/// that name, then what it finds inside the member values, in order.
pub proof fn lemma_recursive_field_order(v: JsonValue, f: String)
    ensures
        match v {
            JsonValue::Object(fs) => segment_pick(v, JsonSegment::RecursiveField(f)) == segment_pick(
                v,
                JsonSegment::Field(f),
            ) + collect_field_members(fs@, f@),
            _ => true,
        },
{
}

/// What a segment selects from each of `cur`, in order.
pub open spec fn step_all(cur: Seq<JsonValue>, seg: JsonSegment) -> Seq<JsonValue>
    decreases cur.len(),
{
    if cur.len() == 0 {
        Seq::empty()
    } else {
        step_all(cur.drop_last(), seg) + segment_pick(cur.last(), seg)
    }
}

// ---------------------------------------------------------------------------
// Selection
// ---------------------------------------------------------------------------

proof fn lemma_derefs_push<'a>(s: Seq<&'a JsonValue>, x: &'a JsonValue)
    ensures
        derefs(s.push(x)) == derefs(s) + seq![*x],
{
    assert(derefs(s.push(x)) =~= derefs(s) + seq![*x]);
}

/// Appends the member `f` of `v`, if it has one.
fn push_field<'a>(v: &'a JsonValue, f: &str, out: &mut Vec<&'a JsonValue>)
    ensures
        derefs(final(out)@) == derefs(old(out)@) + field_pick(*v, f@),
{
    match member_of(v, f) {
        Some(x) => {
            proof {
                lemma_derefs_push(out@, x);
            }
            out.push(x);
        },
        None => {
            assert(derefs(out@) =~= derefs(out@) + field_pick(*v, f@));
        },
    }
}

/// Appends the item `idx` of `v`, if `v` is an array that has one.
fn push_index<'a>(v: &'a JsonValue, idx: isize, out: &mut Vec<&'a JsonValue>)
    ensures
        derefs(final(out)@) == derefs(old(out)@) + index_pick(*v, idx as int),
{
    match v {
        JsonValue::Array(a) => {
            let len = a.len();
            let pick: Option<usize> = if idx < 0 {
                let back: usize = ((-(idx + 1)) as usize) + 1;
                if back <= len {
                    Some(len - back)
                } else {
                    None
                }
            } else {
                let i = idx as usize;
                if i < len {
                    Some(i)
                } else {
                    None
                }
            };
            match pick {
                Some(i) => {
                    proof {
                        lemma_derefs_push(out@, &a[i as int]);
                    }
                    out.push(&a[i]);
                },
                None => {
                    assert(derefs(out@) =~= derefs(out@) + index_pick(*v, idx as int));
                },
            }
        },
        _ => {
            assert(derefs(out@) =~= derefs(out@) + index_pick(*v, idx as int));
        },
    }
}

/// Appends every item of an array or every member value of an object.
fn push_wildcard<'a>(v: &'a JsonValue, out: &mut Vec<&'a JsonValue>)
    ensures
        derefs(final(out)@) == derefs(old(out)@) + wildcard_pick(*v),
{
    match v {
        JsonValue::Array(a) => {
            let ghost start = derefs(out@);
            let mut i: usize = 0;
            while i < a.len()
                invariant
                    i <= a@.len(),
                    derefs(out@) == start + a@.subrange(0, i as int),
                decreases a@.len() - i,
            {
                proof {
                    lemma_derefs_push(out@, &a[i as int]);
                    assert(a@.subrange(0, i + 1) =~= a@.subrange(0, i as int).push(a@[i as int]));
                }
                out.push(&a[i]);
                i += 1;
            }
            assert(a@.subrange(0, a@.len() as int) =~= a@);
        },
        JsonValue::Object(fs) => {
            let ghost start = derefs(out@);
            let mut i: usize = 0;
            while i < fs.len()
                invariant
                    i <= fs@.len(),
                    derefs(out@) == start + member_values(fs@).subrange(0, i as int),
                decreases fs@.len() - i,
            {
                proof {
                    lemma_derefs_push(out@, &fs[i as int].1);
                    assert(member_values(fs@).subrange(0, i + 1) =~= member_values(fs@).subrange(
                        0,
                        i as int,
                    ).push(fs@[i as int].1));
                }
                out.push(&fs[i].1);
                i += 1;
            }
            assert(member_values(fs@).subrange(0, fs@.len() as int) =~= member_values(fs@));
        },
        _ => {
            assert(derefs(out@) =~= derefs(out@) + wildcard_pick(*v));
        },
    }
}

/// `slice_bound` on machine integers.
fn bound_of(b: isize, len: usize) -> (r: usize)
    ensures
        r as int == slice_bound(b as int, len as int),
{
    if b < 0 {
        let back: usize = ((-(b + 1)) as usize) + 1;
        if back <= len {
            len - back
        } else {
            0
        }
    } else {
        let i = b as usize;
        if i < len {
            i
        } else {
            len
        }
    }
}

/// Appends the items of a slice of an array.
fn push_slice<'a>(
    v: &'a JsonValue,
    start: Option<isize>,
    end: Option<isize>,
    step: Option<isize>,
    out: &mut Vec<&'a JsonValue>,
)
    ensures
        derefs(final(out)@) == derefs(old(out)@) + slice_pick(*v, start, end, step),
{
    match v {
        JsonValue::Array(a) => {
            let len = a.len();
            let s = match start {
                Some(b) => bound_of(b, len),
                None => 0,
            };
            let e = match end {
                Some(b) => bound_of(b, len),
                None => len,
            };
            let st: isize = match step {
                Some(x) => x,
                None => 1,
            };
            if st <= 0 || s >= e {
                proof {
                    if s < e {
                        assert(every_step(a@.subrange(s as int, e as int), st as int) =~= Seq::empty());
                    }
                }
                assert(derefs(out@) =~= derefs(out@) + slice_pick(*v, start, end, step));
                return;
            }
            let stride = st as usize;
            let ghost start_out = derefs(out@);
            let ghost whole = every_step(a@.subrange(s as int, e as int), st as int);
            let mut i: usize = s;
            loop
                invariant_except_break
                    s <= i < e,
                    start_out + whole == derefs(out@) + every_step(
                        a@.subrange(i as int, e as int),
                        st as int,
                    ),
                invariant
                    e <= a@.len(),
                    stride as int == st as int,
                    st > 0,
                    whole == every_step(a@.subrange(s as int, e as int), st as int),
                ensures
                    start_out + whole == derefs(out@),
                decreases e - i,
            {
                let ghost sub = a@.subrange(i as int, e as int);
                proof {
                    lemma_derefs_push(out@, &a[i as int]);
                    assert(sub[0] == a@[i as int]);
                }
                out.push(&a[i]);
                if stride >= e - i {
                    assert(every_step(sub, st as int) =~= seq![a@[i as int]]);
                    break;
                }
                proof {
                    assert(sub.subrange(st as int, sub.len() as int) =~= a@.subrange(i + stride, e as int));
                    assert(every_step(sub, st as int) == seq![sub[0]] + every_step(
                        sub.subrange(st as int, sub.len() as int),
                        st as int,
                    ));
                }
                i = i + stride;
                assert(start_out + whole == derefs(out@) + every_step(a@.subrange(i as int, e as int), st as int));
            }
        },
        _ => {
            assert(derefs(out@) =~= derefs(out@) + slice_pick(*v, start, end, step));
        },
    }
}

/// Appends what the items of a union select from `v`.
fn push_union<'a>(v: &'a JsonValue, items: &Vec<JsonSegment>, out: &mut Vec<&'a JsonValue>)
    ensures
        derefs(final(out)@) == derefs(old(out)@) + union_pick(*v, items@),
{
    let ghost start = derefs(out@);
    let mut k: usize = 0;
    while k < items.len()
        invariant
            k <= items@.len(),
            derefs(out@) == start + union_pick(*v, items@.subrange(0, k as int)),
        decreases items@.len() - k,
    {
        proof {
            let pre = items@.subrange(0, k + 1);
            assert(pre.drop_last() =~= items@.subrange(0, k as int));
            assert(pre.last() == items@[k as int]);
        }
        match &items[k] {
            JsonSegment::Field(f) => push_field(v, f.as_str(), out),
            JsonSegment::Index(i) => push_index(v, *i, out),
            _ => {},
        }
        k += 1;
    }
    assert(items@.subrange(0, items@.len() as int) =~= items@);
}

/// Appends `collect_field(v, t)`.
fn push_collect_field<'a>(v: &'a JsonValue, t: &str, out: &mut Vec<&'a JsonValue>)
    ensures
        derefs(final(out)@) == derefs(old(out)@) + collect_field(*v, t@),
    decreases v,
{
    match v {
        JsonValue::Object(fs) => {
            let ghost start = derefs(out@);
            push_field(v, t, out);
            let mut i: usize = 0;
            while i < fs.len()
                invariant
                    i <= fs@.len(),
                    *v == JsonValue::Object(*fs),
                    derefs(out@) == start + field_pick(*v, t@) + collect_field_members(
                        fs@.subrange(0, i as int),
                        t@,
                    ),
                decreases fs@.len() - i,
            {
                proof {
                    let pre = fs@.subrange(0, i + 1);
                    assert(pre.drop_last() =~= fs@.subrange(0, i as int));
                    assert(pre.last() == fs@[i as int]);
                    assert(decreases_to!(*v => v->Object_0));
                    assert(decreases_to!(*fs => fs@));
                    assert(decreases_to!(fs@ => fs@[i as int]));
                    assert(decreases_to!(fs@[i as int] => fs@[i as int].1));
                }
                push_collect_field(&fs[i].1, t, out);
                i += 1;
            }
            assert(fs@.subrange(0, fs@.len() as int) =~= fs@);
        },
        JsonValue::Array(a) => {
            let ghost start = derefs(out@);
            let mut i: usize = 0;
            while i < a.len()
                invariant
                    i <= a@.len(),
                    *v == JsonValue::Array(*a),
                    derefs(out@) == start + collect_field_items(a@.subrange(0, i as int), t@),
                decreases a@.len() - i,
            {
                proof {
                    let pre = a@.subrange(0, i + 1);
                    assert(pre.drop_last() =~= a@.subrange(0, i as int));
                    assert(pre.last() == a@[i as int]);
                    assert(decreases_to!(*v => v->Array_0));
                    assert(decreases_to!(*a => a@));
                    assert(decreases_to!(a@ => a@[i as int]));
                }
                push_collect_field(&a[i], t, out);
                i += 1;
            }
            assert(a@.subrange(0, a@.len() as int) =~= a@);
        },
        _ => {
            assert(derefs(out@) =~= derefs(out@) + collect_field(*v, t@));
        },
    }
}

/// Appends `collect_all(v)`.
fn push_collect_all<'a>(v: &'a JsonValue, out: &mut Vec<&'a JsonValue>)
    ensures
        derefs(final(out)@) == derefs(old(out)@) + collect_all(*v),
    decreases v,
{
    match v {
        JsonValue::Object(fs) => {
            let ghost start = derefs(out@);
            let mut i: usize = 0;
            while i < fs.len()
                invariant
                    i <= fs@.len(),
                    *v == JsonValue::Object(*fs),
                    derefs(out@) == start + collect_all_members(fs@.subrange(0, i as int)),
                decreases fs@.len() - i,
            {
                proof {
                    let pre = fs@.subrange(0, i + 1);
                    assert(pre.drop_last() =~= fs@.subrange(0, i as int));
                    assert(pre.last() == fs@[i as int]);
                    assert(decreases_to!(*v => v->Object_0));
                    assert(decreases_to!(*fs => fs@));
                    assert(decreases_to!(fs@ => fs@[i as int]));
                    assert(decreases_to!(fs@[i as int] => fs@[i as int].1));
                    lemma_derefs_push(out@, &fs[i as int].1);
                }
                out.push(&fs[i].1);
                push_collect_all(&fs[i].1, out);
                i += 1;
            }
            assert(fs@.subrange(0, fs@.len() as int) =~= fs@);
        },
        JsonValue::Array(a) => {
            let ghost start = derefs(out@);
            let mut i: usize = 0;
            while i < a.len()
                invariant
                    i <= a@.len(),
                    *v == JsonValue::Array(*a),
                    derefs(out@) == start + collect_all_items(a@.subrange(0, i as int)),
                decreases a@.len() - i,
            {
                proof {
                    let pre = a@.subrange(0, i + 1);
                    assert(pre.drop_last() =~= a@.subrange(0, i as int));
                    assert(pre.last() == a@[i as int]);
                    assert(decreases_to!(*v => v->Array_0));
                    assert(decreases_to!(*a => a@));
                    assert(decreases_to!(a@ => a@[i as int]));
                    lemma_derefs_push(out@, &a[i as int]);
                }
                out.push(&a[i]);
                push_collect_all(&a[i], out);
                i += 1;
            }
            assert(a@.subrange(0, a@.len() as int) =~= a@);
        },
        _ => {
            assert(derefs(out@) =~= derefs(out@) + collect_all(*v));
        },
    }
}

/// Appends what a segment other than a filter selects from `v`.
fn push_segment<'a>(v: &'a JsonValue, seg: &JsonSegment, out: &mut Vec<&'a JsonValue>)
    ensures
        derefs(final(out)@) == derefs(old(out)@) + segment_pick(*v, *seg),
{
    match seg {
        JsonSegment::Field(f) => push_field(v, f.as_str(), out),
        JsonSegment::Index(i) => push_index(v, *i, out),
        JsonSegment::Wildcard => push_wildcard(v, out),
        JsonSegment::RecursiveField(f) => push_collect_field(v, f.as_str(), out),
        JsonSegment::RecursiveWildcard => push_collect_all(v, out),
        JsonSegment::Slice { start, end, step } => push_slice(v, *start, *end, *step, out),
        JsonSegment::Union(items) => push_union(v, items, out),
        JsonSegment::Filter { .. } => {
            assert(derefs(out@) =~= derefs(out@) + segment_pick(*v, *seg));
        },
    }
}

/// One step of a JSONPath: what `seg` selects from each of the values
/// `cur`, in order.  A filter compares numbers as floating point, so it is
/// not taken here: for a filter the result is `None` (see
/// `filter_candidates`).
pub fn select_step<'a>(cur: &Vec<&'a JsonValue>, seg: &JsonSegment) -> (r: Option<Vec<&'a JsonValue>>)
    ensures
        match r {
            Some(out) => !(seg is Filter) && derefs(out@) == step_all(derefs(cur@), *seg),
            None => seg is Filter,
        },
{
    if let JsonSegment::Filter { .. } = seg {
        return None;
    }
    let mut out: Vec<&'a JsonValue> = Vec::new();
    let mut k: usize = 0;
    assert(derefs(out@) =~= step_all(derefs(cur@).subrange(0, 0), *seg));
    while k < cur.len()
        invariant
            k <= cur@.len(),
            derefs(out@) == step_all(derefs(cur@).subrange(0, k as int), *seg),
        decreases cur@.len() - k,
    {
        proof {
            let pre = derefs(cur@).subrange(0, k + 1);
            assert(pre.drop_last() =~= derefs(cur@).subrange(0, k as int));
            assert(pre.last() == *cur@[k as int]);
        }
        push_segment(cur[k], seg, &mut out);
        k += 1;
    }
    assert(derefs(cur@).subrange(0, cur@.len() as int) =~= derefs(cur@));
    Some(out)
}

/// The values a filter tests when applied to `v`: the items of an array,
/// or `v` itself.
pub fn filter_candidates<'a>(v: &'a JsonValue) -> (r: Vec<&'a JsonValue>)
    ensures
        derefs(r@) == match *v {
            JsonValue::Array(a) => a@,
            _ => seq![*v],
        },
{
    match v {
        JsonValue::Array(a) => {
            let mut out: Vec<&'a JsonValue> = Vec::new();
            push_wildcard(v, &mut out);
            assert(derefs(out@) =~= a@);
            out
        },
        _ => {
            let out: Vec<&'a JsonValue> = vec![v];
            assert(derefs(out@) =~= seq![*v]);
            out
        },
    }
}

/// The names of a filter's path, as text.
pub open spec fn names_view(path: Seq<String>) -> Seq<Seq<char>> {
    Seq::new(path.len(), |k: int| path[k]@)
}

/// The value that a filter's path names inside `item`: its members followed
/// one after another, `None` as soon as one is missing.
pub fn filter_target<'a>(item: &'a JsonValue, path: &Vec<String>) -> (r: Option<&'a JsonValue>)
    ensures
        match (r, member_path(*item, names_view(path@))) {
            (Some(a), Some(b)) => *a == b,
            (None, None) => true,
            _ => false,
        },
{
    let ghost names = names_view(path@);
    let mut cur: &'a JsonValue = item;
    let mut k: usize = 0;
    assert(names.subrange(0, names.len() as int) =~= names);
    while k < path.len()
        invariant
            k <= path@.len(),
            names == names_view(path@),
            member_path(*item, names) == member_path(*cur, names.subrange(k as int, names.len() as int)),
        decreases path@.len() - k,
    {
        let ghost rest = names.subrange(k as int, names.len() as int);
        proof {
            assert(rest[0] == path@[k as int]@);
            assert(rest.drop_first() =~= names.subrange(k + 1, names.len() as int));
        }
        match member_of(cur, path[k].as_str()) {
            Some(next) => {
                cur = next;
            },
            None => {
                return None;
            },
        }
        k += 1;
    }
    assert(names.subrange(k as int, names.len() as int) =~= Seq::<Seq<char>>::empty());
    Some(cur)
}

} // verus!
