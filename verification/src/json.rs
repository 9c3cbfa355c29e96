//! An ordered JSON document model.
//!
//! The generated project's manifest is edited as a generic JSON tree.  The
//! tree is modelled exactly: an object is an ordered list of key/value
//! members, inserting under an existing key overwrites in place, and a
//! number is kept as its literal digit string, so no precision is lost and
//! no floating point is involved.
//!
//! `JsonValue` is the executable tree; `JsonModel` is its ghost mirror, the
//! value every contract speaks about.

use vstd::prelude::*;

verus! {

/// One member of a JSON object.
#[derive(Debug, PartialEq)]
pub struct JsonMember {
    pub key: Vec<char>,
    pub value: JsonValue,
}

/// An executable JSON document.
#[derive(Debug, PartialEq)]
pub enum JsonValue {
    Null,
    Bool(bool),
    /// A number, kept verbatim as its literal text.
    Num(Vec<char>),
    Str(Vec<char>),
    Arr(Vec<JsonValue>),
    Obj(Vec<JsonMember>),
}

/// The mathematical mirror of `JsonValue`.
pub enum JsonModel {
    Null,
    Bool(bool),
    Num(Seq<char>),
    Str(Seq<char>),
    Arr(Seq<JsonModel>),
    Obj(Seq<(Seq<char>, JsonModel)>),
}

pub open spec fn json_view(v: JsonValue) -> JsonModel
    decreases v,
{
    match v {
        JsonValue::Null => JsonModel::Null,
        JsonValue::Bool(b) => JsonModel::Bool(b),
        JsonValue::Num(s) => JsonModel::Num(s@),
        JsonValue::Str(s) => JsonModel::Str(s@),
        JsonValue::Arr(items) => JsonModel::Arr(json_view_seq(items@)),
        JsonValue::Obj(ms) => JsonModel::Obj(json_view_members(ms@)),
    }
}

pub open spec fn json_view_seq(items: Seq<JsonValue>) -> Seq<JsonModel>
    decreases items,
{
    if items.len() == 0 {
        Seq::empty()
    } else {
        seq![json_view(items[0])] + json_view_seq(items.drop_first())
    }
}

pub open spec fn json_view_members(ms: Seq<JsonMember>) -> Seq<(Seq<char>, JsonModel)>
    decreases ms,
{
    if ms.len() == 0 {
        Seq::empty()
    } else {
        seq![(ms[0].key@, json_view(ms[0].value))] + json_view_members(ms.drop_first())
    }
}

impl View for JsonValue {
    type V = JsonModel;

    open spec fn view(&self) -> JsonModel {
        json_view(*self)
    }
}

pub broadcast proof fn lemma_view_seq_index(items: Seq<JsonValue>)
    ensures
        (#[trigger] json_view_seq(items)).len() == items.len(),
        forall|i: int|
            0 <= i < items.len() ==> json_view_seq(items)[i] == json_view(items[i]),
    decreases items,
{
    if items.len() > 0 {
        lemma_view_seq_index(items.drop_first());
        assert forall|i: int| 0 <= i < items.len() implies json_view_seq(items)[i] == json_view(
            items[i],
        ) by {
            if i > 0 {
                assert(json_view_seq(items)[i] == json_view_seq(items.drop_first())[i - 1]);
                assert(items.drop_first()[i - 1] == items[i]);
            }
        }
    }
}

pub broadcast proof fn lemma_view_members_index(ms: Seq<JsonMember>)
    ensures
        (#[trigger] json_view_members(ms)).len() == ms.len(),
        forall|i: int|
            0 <= i < ms.len() ==> json_view_members(ms)[i] == (ms[i].key@, json_view(ms[i].value)),
    decreases ms,
{
    if ms.len() > 0 {
        lemma_view_members_index(ms.drop_first());
        assert forall|i: int| 0 <= i < ms.len() implies json_view_members(ms)[i] == (
        ms[i].key@,
        json_view(ms[i].value),
        ) by {
            if i > 0 {
                assert(json_view_members(ms)[i] == json_view_members(ms.drop_first())[i - 1]);
                assert(ms.drop_first()[i - 1] == ms[i]);
            }
        }
    }
}

/// Index of the first member with key `k`, or -1.
pub open spec fn model_key_index(ms: Seq<(Seq<char>, JsonModel)>, k: Seq<char>) -> int
    decreases ms.len(),
{
    if ms.len() == 0 {
        -1
    } else if ms[0].0 == k {
        0
    } else {
        let r = model_key_index(ms.drop_first(), k);
        if r == -1 {
            -1
        } else {
            r + 1
        }
    }
}

pub open spec fn model_has_key(ms: Seq<(Seq<char>, JsonModel)>, k: Seq<char>) -> bool {
    model_key_index(ms, k) >= 0
}

/// The value under key `k`; meaningful only when the key is present.
pub open spec fn model_get(ms: Seq<(Seq<char>, JsonModel)>, k: Seq<char>) -> JsonModel {
    ms[model_key_index(ms, k)].1
}

pub broadcast proof fn lemma_model_key_index(ms: Seq<(Seq<char>, JsonModel)>, k: Seq<char>)
    ensures
        -1 <= #[trigger] model_key_index(ms, k) < ms.len(),
        model_key_index(ms, k) >= 0 ==> ms[model_key_index(ms, k)].0 == k && (forall|j: int|
            0 <= j < model_key_index(ms, k) ==> ms[j].0 != k),
        model_key_index(ms, k) == -1 ==> (forall|j: int| 0 <= j < ms.len() ==> ms[j].0 != k),
    decreases ms.len(),
{
    if ms.len() > 0 && ms[0].0 != k {
        lemma_model_key_index(ms.drop_first(), k);
        let r = model_key_index(ms.drop_first(), k);
        if r >= 0 {
            assert(ms[r + 1] == ms.drop_first()[r]);
            assert forall|j: int| 0 <= j < r + 1 implies ms[j].0 != k by {
                if j > 0 {
                    assert(ms.drop_first()[j - 1] == ms[j]);
                }
            }
        } else {
            assert forall|j: int| 0 <= j < ms.len() implies ms[j].0 != k by {
                if j > 0 {
                    assert(ms.drop_first()[j - 1] == ms[j]);
                }
            }
        }
    }
}

/// Insert-or-overwrite: replaces the first member with key `k` in place, or
/// appends a new member at the end.
pub open spec fn model_insert(
    ms: Seq<(Seq<char>, JsonModel)>,
    k: Seq<char>,
    v: JsonModel,
) -> Seq<(Seq<char>, JsonModel)>
    decreases ms.len(),
{
    if ms.len() == 0 {
        seq![(k, v)]
    } else if ms[0].0 == k {
        seq![(k, v)] + ms.drop_first()
    } else {
        seq![ms[0]] + model_insert(ms.drop_first(), k, v)
    }
}

/// Where the key is present, insertion is an in-place update.
pub proof fn lemma_model_insert_found(ms: Seq<(Seq<char>, JsonModel)>, k: Seq<char>, v: JsonModel)
    requires
        model_key_index(ms, k) >= 0,
    ensures
        model_insert(ms, k, v) == ms.update(model_key_index(ms, k), (k, v)),
    decreases ms.len(),
{
    lemma_model_key_index(ms, k);
    lemma_model_key_index(ms.drop_first(), k);
    let idx = model_key_index(ms, k);
    if ms[0].0 == k {
        assert(model_insert(ms, k, v) =~= ms.update(0, (k, v)));
    } else {
        let r = model_key_index(ms.drop_first(), k);
        assert(r >= 0 && idx == r + 1);
        lemma_model_insert_found(ms.drop_first(), k, v);
        assert(model_insert(ms, k, v) == seq![ms[0]] + ms.drop_first().update(r, (k, v)));
        assert forall|j: int| 0 <= j < ms.len() implies model_insert(ms, k, v)[j] == ms.update(
            idx,
            (k, v),
        )[j] by {
            if j > 0 {
                assert(model_insert(ms, k, v)[j] == ms.drop_first().update(r, (k, v))[j - 1]);
                if j - 1 == r {
                } else {
                    assert(ms.drop_first().update(r, (k, v))[j - 1] == ms.drop_first()[j - 1]);
                }
            }
        }
        assert(model_insert(ms, k, v) =~= ms.update(idx, (k, v)));
    }
}

/// Where the key is absent, insertion appends.
pub proof fn lemma_model_insert_missing(ms: Seq<(Seq<char>, JsonModel)>, k: Seq<char>, v: JsonModel)
    requires
        model_key_index(ms, k) == -1,
    ensures
        model_insert(ms, k, v) == ms.push((k, v)),
    decreases ms.len(),
{
    if ms.len() == 0 {
        assert(model_insert(ms, k, v) =~= ms.push((k, v)));
    } else {
        assert(ms[0].0 != k);
        lemma_model_key_index(ms.drop_first(), k);
        assert(model_key_index(ms.drop_first(), k) == -1);
        lemma_model_insert_missing(ms.drop_first(), k, v);
        assert(model_insert(ms, k, v) =~= ms.push((k, v)));
    }
}

/// Inserting under one key twice keeps one entry, with the later value.
pub proof fn lemma_model_insert_idempotent(
    ms: Seq<(Seq<char>, JsonModel)>,
    k: Seq<char>,
    v1: JsonModel,
    v2: JsonModel,
)
    ensures
        model_insert(model_insert(ms, k, v1), k, v2) == model_insert(ms, k, v2),
    decreases ms.len(),
{
    if ms.len() == 0 {
        assert(model_insert(model_insert(ms, k, v1), k, v2) =~= model_insert(ms, k, v2));
    } else if ms[0].0 == k {
        assert(model_insert(ms, k, v1) == seq![(k, v1)] + ms.drop_first());
        assert((seq![(k, v1)] + ms.drop_first()).drop_first() =~= ms.drop_first());
        assert(model_insert(model_insert(ms, k, v1), k, v2) =~= model_insert(ms, k, v2));
    } else {
        lemma_model_insert_idempotent(ms.drop_first(), k, v1, v2);
        assert((seq![ms[0]] + model_insert(ms.drop_first(), k, v1)).drop_first()
            =~= model_insert(ms.drop_first(), k, v1));
        assert(model_insert(model_insert(ms, k, v1), k, v2) =~= model_insert(ms, k, v2));
    }
}

/// Character-vector equality.
pub fn eq_chars(a: &Vec<char>, b: &Vec<char>) -> (r: bool)
    ensures
        r == (a@ == b@),
{
    if a.len() != b.len() {
        return false;
    }
    let mut i: usize = 0;
    while i < a.len()
        invariant
            i <= a@.len(),
            a@.len() == b@.len(),
            forall|j: int| 0 <= j < i ==> a@[j] == b@[j],
        decreases a@.len() - i,
    {
        if a[i] != b[i] {
            return false;
        }
        i += 1;
    }
    proof {
        assert(a@ =~= b@);
    }
    true
}

/// Index of the first member with the given key, if any.
pub fn find_key(ms: &Vec<JsonMember>, key: &Vec<char>) -> (r: Option<usize>)
    ensures
        ({
            let idx = model_key_index(json_view_members(ms@), key@);
            match r {
                Option::Some(i) => i as int == idx,
                Option::None => idx == -1,
            }
        }),
{
    proof {
        broadcast use lemma_view_members_index;

        lemma_model_key_index(json_view_members(ms@), key@);
    }
    let mut i: usize = 0;
    while i < ms.len()
        invariant
            i <= ms@.len(),
            forall|j: int| 0 <= j < i ==> json_view_members(ms@)[j].0 != key@,
            json_view_members(ms@).len() == ms@.len(),
            forall|j: int|
                0 <= j < ms@.len() ==> json_view_members(ms@)[j] == (
                    ms@[j].key@,
                    json_view(ms@[j].value),
                ),
        decreases ms@.len() - i,
    {
        if eq_chars(&ms[i].key, key) {
            proof {
                lemma_model_key_index(json_view_members(ms@), key@);
                let idx = model_key_index(json_view_members(ms@), key@);
                assert(json_view_members(ms@)[i as int].0 == key@);
                if idx < i {
                    assert(json_view_members(ms@)[idx].0 != key@);
                }
                if idx > i {
                    assert(json_view_members(ms@)[i as int].0 != key@);
                }
                assert(i as int == idx);
            }
            return Option::Some(i);
        }
        i += 1;
    }
    proof {
        lemma_model_key_index(json_view_members(ms@), key@);
    }
    Option::None
}

/// Insert-or-overwrite on an object's member list.
pub fn obj_set(ms: &mut Vec<JsonMember>, key: Vec<char>, value: JsonValue)
    ensures
        json_view_members(final(ms)@) == model_insert(
            json_view_members(old(ms)@),
            key@,
            json_view(value),
        ),
{
    proof {
        broadcast use lemma_view_members_index;

    }
    let found = find_key(ms, &key);
    match found {
        Option::Some(i) => {
            proof {
                lemma_model_key_index(json_view_members(ms@), key@);
                lemma_model_insert_found(json_view_members(ms@), key@, json_view(value));
            }
            let ghost before = ms@;
            let m = JsonMember { key, value };
            let ghost gm = m;
            ms.remove(i);
            ms.insert(i, m);
            proof {
                assert(gm.key@ == key@ && gm.value == value);
                let idx = model_key_index(json_view_members(before), key@);
                assert(i as int == idx);
                assert(ms@ =~= before.update(i as int, gm));
                assert(json_view_members(ms@) =~= json_view_members(before).update(
                    i as int,
                    (gm.key@, json_view(gm.value)),
                ));
                assert(model_insert(json_view_members(before), key@, json_view(value))
                    == json_view_members(before).update(i as int, (key@, json_view(value))));
                assert(json_view_members(ms@) == model_insert(
                    json_view_members(before),
                    key@,
                    json_view(value),
                ));
            }
        },
        Option::None => {
            proof {
                lemma_model_key_index(json_view_members(ms@), key@);
                lemma_model_insert_missing(json_view_members(ms@), key@, json_view(value));
            }
            let ghost before = ms@;
            let m = JsonMember { key, value };
            let ghost gm = m;
            ms.push(m);
            proof {
                assert(ms@ == before.push(gm));
                assert(json_view_members(ms@) =~= json_view_members(before).push(
                    (gm.key@, json_view(gm.value)),
                ));
                assert(json_view_members(ms@) == model_insert(
                    json_view_members(before),
                    key@,
                    json_view(value),
                ));
            }
        },
    }
}

} // verus!
