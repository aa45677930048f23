//! The generic structural value that record files parse into: a typed core
//! is converted out of it, partial updates are merged over it, and the
//! canonical serialized form is rebuilt from it. Numbers that are not
//! integers are carried as their decimal text and never interpreted.
use vstd::prelude::*;

verus! {

/// Executable structural value.
pub enum Json {
    Null,
    Bool(bool),
    Int(i64),
    Num(String),
    Str(String),
    Arr(Vec<Json>),
    Obj(Vec<(String, Json)>),
}

/// Mathematical model of a structural value.
#[verifier::ext_equal]
pub enum JsonV {
    Null,
    Bool(bool),
    Int(i64),
    Num(Seq<char>),
    Str(Seq<char>),
    Arr(Seq<JsonV>),
    Obj(Seq<(Seq<char>, JsonV)>),
}

/// The model of an executable structural value.
pub open spec fn jv(j: Json) -> JsonV
    decreases j,
{
    match j {
        Json::Null => JsonV::Null,
        Json::Bool(b) => JsonV::Bool(b),
        Json::Int(n) => JsonV::Int(n),
        Json::Num(s) => JsonV::Num(s@),
        Json::Str(s) => JsonV::Str(s@),
        Json::Arr(items) => JsonV::Arr(jv_list(items@)),
        Json::Obj(entries) => JsonV::Obj(jv_entries(entries@)),
    }
}

/// Models of a list of structural values.
pub open spec fn jv_list(items: Seq<Json>) -> Seq<JsonV>
    decreases items,
{
    if items.len() == 0 {
        Seq::empty()
    } else {
        jv_list(items.drop_last()).push(jv(items.last()))
    }
}

/// Models of the entry list of an object.
pub open spec fn jv_entries(entries: Seq<(String, Json)>) -> Seq<(Seq<char>, JsonV)>
    decreases entries,
{
    if entries.len() == 0 {
        Seq::empty()
    } else {
        jv_entries(entries.drop_last()).push((entries.last().0@, jv(entries.last().1)))
    }
}

/// Pointwise reading of `jv_list`.
pub proof fn lemma_jv_list_index(items: Seq<Json>)
    ensures
        jv_list(items).len() == items.len(),
        forall|i: int| 0 <= i < items.len() ==> jv_list(items)[i] == jv(items[i]),
    decreases items,
{
    if items.len() > 0 {
        lemma_jv_list_index(items.drop_last());
    }
}

/// Pointwise reading of `jv_entries`.
pub proof fn lemma_jv_entries_index(entries: Seq<(String, Json)>)
    ensures
        jv_entries(entries).len() == entries.len(),
        forall|i: int| 0 <= i < entries.len() ==> jv_entries(entries)[i] == (
            entries[i].0@,
            jv(entries[i].1),
        ),
    decreases entries,
{
    if entries.len() > 0 {
        lemma_jv_entries_index(entries.drop_last());
    }
}

/// Structural size, the termination measure for code that walks a value.
pub open spec fn json_size(j: Json) -> nat
    decreases j,
{
    match j {
        Json::Null => 1,
        Json::Bool(_) => 1,
        Json::Int(_) => 1,
        Json::Num(_) => 1,
        Json::Str(_) => 1,
        Json::Arr(items) => 1 + size_list(items@),
        Json::Obj(entries) => 1 + size_entries(entries@),
    }
}

/// Total size of a list of values.
pub open spec fn size_list(items: Seq<Json>) -> nat
    decreases items,
{
    if items.len() == 0 {
        0
    } else {
        size_list(items.drop_last()) + json_size(items.last())
    }
}

/// Total size of an object's entry list.
pub open spec fn size_entries(entries: Seq<(String, Json)>) -> nat
    decreases entries,
{
    if entries.len() == 0 {
        0
    } else {
        size_entries(entries.drop_last()) + json_size(entries.last().1)
    }
}

/// Every element's size is bounded by the list's size.
pub proof fn lemma_size_list_element(items: Seq<Json>, i: int)
    requires
        0 <= i < items.len(),
    ensures
        json_size(items[i]) <= size_list(items),
    decreases items,
{
    if i == items.len() - 1 {
        assert(items.last() == items[i]);
    } else {
        lemma_size_list_element(items.drop_last(), i);
        assert(items.drop_last()[i] == items[i]);
    }
}

/// Every entry value's size is bounded by the entry list's size.
pub proof fn lemma_size_entries_element(entries: Seq<(String, Json)>, i: int)
    requires
        0 <= i < entries.len(),
    ensures
        json_size(entries[i].1) <= size_entries(entries),
    decreases entries,
{
    if i == entries.len() - 1 {
        assert(entries.last() == entries[i]);
    } else {
        lemma_size_entries_element(entries.drop_last(), i);
        assert(entries.drop_last()[i] == entries[i]);
    }
}

/// Pushing an entry pushes its model.
pub proof fn lemma_jv_entries_push(prev: Seq<(String, Json)>, p: (String, Json))
    ensures
        jv_entries(prev.push(p)) =~= jv_entries(prev).push((p.0@, jv(p.1))),
{
    assert(prev.push(p).drop_last() =~= prev);
    assert(prev.push(p).last() == p);
}

/// An exact copy: the clone of a structural value has the same model.
pub fn json_clone(j: &Json) -> (r: Json)
    ensures
        jv(r) == jv(*j),
    decreases json_size(*j),
{
    match j {
        Json::Null => Json::Null,
        Json::Bool(b) => Json::Bool(*b),
        Json::Int(n) => Json::Int(*n),
        Json::Num(s) => Json::Num(s.clone()),
        Json::Str(s) => Json::Str(s.clone()),
        Json::Arr(items) => {
            let mut out: Vec<Json> = Vec::new();
            let mut i: usize = 0;
            while i < items.len()
                invariant
                    *j == Json::Arr(*items),
                    i <= items.len(),
                    out@.len() == i,
                    forall|k: int| 0 <= k < i ==> jv(out@[k]) == jv(items@[k]),
                decreases items.len() - i,
            {
                proof {
                    lemma_size_list_element(items@, i as int);
                }
                let c = json_clone(&items[i]);
                out.push(c);
                i = i + 1;
            }
            proof {
                lemma_jv_list_index(out@);
                lemma_jv_list_index(items@);
                assert(jv_list(out@) =~= jv_list(items@));
            }
            Json::Arr(out)
        },
        Json::Obj(entries) => {
            let mut out: Vec<(String, Json)> = Vec::new();
            let mut i: usize = 0;
            while i < entries.len()
                invariant
                    *j == Json::Obj(*entries),
                    i <= entries.len(),
                    out@.len() == i,
                    forall|k: int| 0 <= k < i ==> out@[k].0@ == entries@[k].0@ && jv(out@[k].1)
                        == jv(entries@[k].1),
                decreases entries.len() - i,
            {
                proof {
                    lemma_size_entries_element(entries@, i as int);
                }
                let key = entries[i].0.clone();
                let val = json_clone(&entries[i].1);
                out.push((key, val));
                i = i + 1;
            }
            proof {
                lemma_jv_entries_index(out@);
                lemma_jv_entries_index(entries@);
                assert(jv_entries(out@) =~= jv_entries(entries@));
            }
            Json::Obj(out)
        },
    }
}

/// First value bound to `key` in a model entry list.
pub open spec fn ov_get(m: Seq<(Seq<char>, JsonV)>, key: Seq<char>) -> Option<JsonV>
    decreases m,
{
    if m.len() == 0 {
        None
    } else if m[0].0 == key {
        Some(m[0].1)
    } else {
        ov_get(m.drop_first(), key)
    }
}

/// Index of the first entry bound to `key`, or -1.
pub open spec fn ov_find(m: Seq<(Seq<char>, JsonV)>, key: Seq<char>) -> int
    decreases m,
{
    if m.len() == 0 {
        -1
    } else if m[0].0 == key {
        0
    } else if ov_find(m.drop_first(), key) < 0 {
        -1
    } else {
        ov_find(m.drop_first(), key) + 1
    }
}

/// Characterization of `ov_find`: it is the first matching index.
pub proof fn lemma_ov_find(m: Seq<(Seq<char>, JsonV)>, key: Seq<char>)
    ensures
        ov_find(m, key) == -1 ==> (forall|j: int| 0 <= j < m.len() ==> m[j].0 != key),
        ov_find(m, key) >= 0 ==> {
            &&& ov_find(m, key) < m.len()
            &&& m[ov_find(m, key)].0 == key
            &&& (forall|j: int| 0 <= j < ov_find(m, key) ==> m[j].0 != key)
            &&& ov_get(m, key) == Some(m[ov_find(m, key)].1)
        },
        (ov_find(m, key) == -1) == (ov_get(m, key) is None),
    decreases m,
{
    if m.len() > 0 && m[0].0 != key {
        let md = m.drop_first();
        lemma_ov_find(md, key);
        assert(forall|j: int| 0 <= j < md.len() ==> md[j] == m[j + 1]);
        if ov_find(md, key) == -1 {
            assert forall|j: int| 0 <= j < m.len() implies m[j].0 != key by {
                if j > 0 {
                    assert(md[j - 1] == m[j]);
                }
            }
        } else {
            let r = ov_find(md, key);
            assert(m[r + 1] == md[r]);
            assert forall|j: int| 0 <= j < r + 1 implies m[j].0 != key by {
                if j > 0 {
                    assert(md[j - 1] == m[j]);
                }
            }
        }
    }
}

/// `ov_find` returns the first match: any witness pins it down.
pub proof fn lemma_ov_find_witness(m: Seq<(Seq<char>, JsonV)>, key: Seq<char>, i: int)
    requires
        0 <= i < m.len(),
        m[i].0 == key,
        forall|j: int| 0 <= j < i ==> m[j].0 != key,
    ensures
        ov_find(m, key) == i,
    decreases m,
{
    if m.len() > 0 && m[0].0 != key {
        lemma_ov_find_witness(m.drop_first(), key, i - 1);
    }
}

/// Lookup distributes over concatenation: the left entries shadow the
/// right ones.
pub proof fn lemma_ov_get_concat(
    a: Seq<(Seq<char>, JsonV)>,
    b: Seq<(Seq<char>, JsonV)>,
    key: Seq<char>,
)
    ensures
        ov_get(a + b, key) == if ov_get(a, key) is Some {
            ov_get(a, key)
        } else {
            ov_get(b, key)
        },
    decreases a,
{
    if a.len() == 0 {
        assert(a + b =~= b);
    } else {
        assert((a + b).drop_first() =~= a.drop_first() + b);
        assert((a + b)[0] == a[0]);
        lemma_ov_get_concat(a.drop_first(), b, key);
    }
}

/// A key bound by no entry looks up to nothing.
pub proof fn lemma_ov_get_absent(m: Seq<(Seq<char>, JsonV)>, key: Seq<char>)
    requires
        forall|i: int| 0 <= i < m.len() ==> (#[trigger] m[i]).0 != key,
    ensures
        ov_get(m, key) is None,
    decreases m,
{
    if m.len() > 0 {
        lemma_ov_get_absent(m.drop_first(), key);
    }
}

/// Binding `key` to `v`: the first occurrence is replaced in place, a new
/// key is appended at the end.
pub open spec fn ov_set(m: Seq<(Seq<char>, JsonV)>, key: Seq<char>, v: JsonV) -> Seq<
    (Seq<char>, JsonV),
> {
    if ov_find(m, key) < 0 {
        m.push((key, v))
    } else {
        m.update(ov_find(m, key), (key, v))
    }
}

/// Shallow merge: every binding of `u`, in order, replaces or extends `b`.
pub open spec fn ov_merge(b: Seq<(Seq<char>, JsonV)>, u: Seq<(Seq<char>, JsonV)>) -> Seq<
    (Seq<char>, JsonV),
>
    decreases u,
{
    if u.len() == 0 {
        b
    } else {
        ov_set(ov_merge(b, u.drop_last()), u.last().0, u.last().1)
    }
}

/// Finds the first entry whose key equals `key`, scanning in order.
pub fn obj_find(entries: &Vec<(String, Json)>, key: &str) -> (r: Option<usize>)
    ensures
        match r {
            Some(i) => {
                &&& i < entries@.len()
                &&& entries@[i as int].0@ == key@
                &&& forall|j: int| 0 <= j < i ==> entries@[j].0@ != key@
            },
            None => forall|j: int| 0 <= j < entries@.len() ==> entries@[j].0@ != key@,
        },
{
    let mut i: usize = 0;
    while i < entries.len()
        invariant
            i <= entries@.len(),
            forall|j: int| 0 <= j < i ==> entries@[j].0@ != key@,
        decreases entries@.len() - i,
    {
        if str_eq(entries[i].0.as_str(), key) {
            return Some(i);
        }
        i = i + 1;
    }
    None
}

/// Exec string equality by view.
pub fn str_eq(a: &str, b: &str) -> (r: bool)
    ensures
        r == (a@ == b@),
{
    let alen = a.unicode_len();
    let blen = b.unicode_len();
    if alen != blen {
        return false;
    }
    let mut i: usize = 0;
    while i < alen
        invariant
            i <= alen,
            alen == a@.len(),
            blen == b@.len(),
            alen == blen,
            forall|j: int| 0 <= j < i ==> a@[j] == b@[j],
        decreases alen - i,
    {
        if a.get_char(i) != b.get_char(i) {
            return false;
        }
        i = i + 1;
    }
    proof {
        assert(a@ =~= b@);
    }
    true
}

/// Replaces the first binding of `key` or appends a new one, realizing
/// `ov_set` on the object's model.
pub fn obj_set(entries: &mut Vec<(String, Json)>, key: String, v: Json)
    ensures
        jv_entries(final(entries)@) == ov_set(jv_entries(old(entries)@), key@, jv(v)),
{
    let ghost m0 = jv_entries(old(entries)@);
    proof {
        lemma_jv_entries_index(old(entries)@);
    }
    match obj_find(entries, key.as_str()) {
        Some(i) => {
            proof {
                lemma_ov_find_witness(m0, key@, i as int);
            }
            entries.remove(i);
            entries.insert(i, (key, v));
            proof {
                lemma_jv_entries_index(entries@);
                assert(entries@ =~= old(entries)@.update(i as int, entries@[i as int]));
                assert(jv_entries(entries@) =~= ov_set(m0, key@, jv(v)));
            }
        },
        None => {
            proof {
                lemma_ov_find(m0, key@);
                if ov_find(m0, key@) >= 0 {
                    assert(m0[ov_find(m0, key@)].0 == key@);
                    assert(old(entries)@[ov_find(m0, key@)].0@ == key@);
                }
            }
            entries.push((key, v));
            proof {
                lemma_jv_entries_index(entries@);
                assert(jv_entries(entries@) =~= ov_set(m0, key@, jv(v)));
            }
        },
    }
}

/// Merges `updates` into `base`: every top-level binding of `updates`
/// replaces the corresponding binding of `base` wholesale, realizing
/// `ov_merge` on the models.
pub fn obj_merge(base: &mut Vec<(String, Json)>, updates: &Vec<(String, Json)>)
    ensures
        jv_entries(final(base)@) == ov_merge(jv_entries(old(base)@), jv_entries(updates@)),
{
    let ghost b0 = jv_entries(old(base)@);
    let ghost um = jv_entries(updates@);
    proof {
        lemma_jv_entries_index(updates@);
    }
    let mut i: usize = 0;
    while i < updates.len()
        invariant
            i <= updates@.len(),
            um == jv_entries(updates@),
            um.len() == updates@.len(),
            forall|k: int| 0 <= k < updates@.len() ==> um[k] == (updates@[k].0@, jv(
                updates@[k].1,
            )),
            jv_entries(base@) == ov_merge(b0, um.take(i as int)),
        decreases updates@.len() - i,
    {
        let key = updates[i].0.clone();
        let v = json_clone(&updates[i].1);
        obj_set(base, key, v);
        proof {
            assert(um.take(i + 1).drop_last() =~= um.take(i as int));
            assert(um.take(i + 1).last() == um[i as int]);
        }
        i = i + 1;
    }
    proof {
        assert(um.take(um.len() as int) =~= um);
    }
}

} // verus!
