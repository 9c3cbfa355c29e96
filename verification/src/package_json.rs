//! Editing of the generated project's `package.json`.
//!
//! The manifest is held as a [`JsonValue`] tree.  Editing steps set the
//! project name, the `scripts` entries for the resolved project type, merge
//! dependency records into `dependencies`/`devDependencies` (last write
//! wins), and finally sort both dependency maps by key.  Every step is
//! specified as a function on the ghost [`JsonModel`] mirror.

use vstd::prelude::*;

use crate::json::JsonMember;
use crate::json::JsonModel;
use crate::json::JsonValue;
use crate::json::json_view;
use crate::json::json_view_members;
use crate::json::json_view_seq;
use crate::json::lemma_view_members_index;
use crate::json::lemma_view_seq_index;
use crate::json::model_key_index;
use crate::json::model_insert;
use crate::json::lemma_model_insert_found;
use crate::json::lemma_model_insert_missing;
use crate::json::model_has_key;
use crate::json::lemma_model_key_index;
use crate::text::lex_lt;
use crate::text::lex_lt_exec;
use crate::text::lemma_lex_lt_connected;
use crate::text::lemma_lex_lt_trans;
use crate::json::eq_chars;
use crate::json::obj_set;
use crate::json::find_key;
use crate::cli::DependenciesMod;
use crate::text::chars_of;

verus! {

/// Size measure for recursion over JSON trees.
pub open spec fn model_size(m: JsonModel) -> nat
    decreases m,
{
    match m {
        JsonModel::Arr(items) => 1 + model_size_seq(items),
        JsonModel::Obj(es) => 1 + model_size_entries(es),
        _ => 1,
    }
}

pub open spec fn model_size_seq(items: Seq<JsonModel>) -> nat
    decreases items,
{
    if items.len() == 0 {
        0
    } else {
        1 + model_size(items[0]) + model_size_seq(items.drop_first())
    }
}

pub open spec fn model_size_entries(es: Seq<(Seq<char>, JsonModel)>) -> nat
    decreases es,
{
    if es.len() == 0 {
        0
    } else {
        1 + model_size(es[0].1) + model_size_entries(es.drop_first())
    }
}

/// Every key strictly precedes every later key.
pub open spec fn entries_strictly_sorted(es: Seq<(Seq<char>, JsonModel)>) -> bool {
    forall|i: int, j: int| 0 <= i < j < es.len() ==> lex_lt(es[i].0, es[j].0)
}

/// No key occurs twice.
pub open spec fn entries_distinct(es: Seq<(Seq<char>, JsonModel)>) -> bool {
    forall|i: int, j: int| 0 <= i < j < es.len() ==> es[i].0 != es[j].0
}

/// Inserts an entry into a key-sorted list, before the first larger key.
pub open spec fn entries_insert_sorted(
    es: Seq<(Seq<char>, JsonModel)>,
    e: (Seq<char>, JsonModel),
) -> Seq<(Seq<char>, JsonModel)>
    decreases es.len(),
{
    if es.len() == 0 {
        seq![e]
    } else if lex_lt(e.0, es[0].0) {
        seq![e] + es
    } else {
        seq![es[0]] + entries_insert_sorted(es.drop_first(), e)
    }
}

/// Insertion sort of an object's members by key.
pub open spec fn entries_sort(es: Seq<(Seq<char>, JsonModel)>) -> Seq<(Seq<char>, JsonModel)>
    decreases es.len(),
{
    if es.len() == 0 {
        Seq::empty()
    } else {
        entries_insert_sorted(entries_sort(es.drop_first()), es[0])
    }
}

pub proof fn lemma_entries_insert_sorted_props(
    es: Seq<(Seq<char>, JsonModel)>,
    e: (Seq<char>, JsonModel),
)
    ensures
        forall|k: Seq<char>|
            #[trigger] model_has_key(entries_insert_sorted(es, e), k) == (model_has_key(es, k) || k
                == e.0),
        entries_insert_sorted(es, e).len() == es.len() + 1,
        forall|i: int|
            0 <= i < entries_insert_sorted(es, e).len() ==> (entries_insert_sorted(es, e)[i] == e
                || es.contains(entries_insert_sorted(es, e)[i])),
        forall|x: (Seq<char>, JsonModel)|
            es.contains(x) || x == e ==> #[trigger] entries_insert_sorted(es, e).contains(x),
    decreases es.len(),
{
    let r = entries_insert_sorted(es, e);
    if es.len() == 0 {
        assert forall|k: Seq<char>| #[trigger] model_has_key(r, k) == (model_has_key(es, k) || k
            == e.0) by {
            lemma_model_key_index(r, k);
            lemma_model_key_index(es, k);
            if k == e.0 {
                assert(r[0].0 == k);
                assert(model_key_index(r, k) == 0);
            }
        }
        assert forall|x: (Seq<char>, JsonModel)| es.contains(x) || x == e implies r.contains(
            x,
        ) by {
            assert(r[0] == e);
        }
    } else if lex_lt(e.0, es[0].0) {
        assert(r == seq![e] + es);
        assert forall|k: Seq<char>| #[trigger] model_has_key(r, k) == (model_has_key(es, k) || k
            == e.0) by {
            lemma_model_key_index(r, k);
            lemma_model_key_index(es, k);
            if model_has_key(es, k) {
                let i = model_key_index(es, k);
                assert(r[i + 1].0 == k);
            }
            if k == e.0 {
                assert(r[0].0 == k);
            }
            if model_has_key(r, k) {
                let i = model_key_index(r, k);
                if i > 0 {
                    assert(es[i - 1].0 == k);
                }
            }
        }
        assert forall|i: int| 0 <= i < r.len() implies (r[i] == e || es.contains(r[i])) by {
            if i > 0 {
                assert(r[i] == es[i - 1]);
            }
        }
        assert forall|x: (Seq<char>, JsonModel)| es.contains(x) || x == e implies r.contains(
            x,
        ) by {
            if x == e {
                assert(r[0] == e);
            } else {
                let i = choose|i: int| 0 <= i < es.len() && es[i] == x;
                assert(r[i + 1] == x);
            }
        }
    } else {
        lemma_entries_insert_sorted_props(es.drop_first(), e);
        let rr = entries_insert_sorted(es.drop_first(), e);
        assert(r == seq![es[0]] + rr);
        assert forall|k: Seq<char>| #[trigger] model_has_key(r, k) == (model_has_key(es, k) || k
            == e.0) by {
            lemma_model_key_index(r, k);
            lemma_model_key_index(es, k);
            lemma_model_key_index(rr, k);
            lemma_model_key_index(es.drop_first(), k);
            if model_has_key(r, k) {
                let i = model_key_index(r, k);
                if i > 0 {
                    assert(rr[i - 1].0 == k);
                }
                if es[0].0 != k {
                    if !model_has_key(es.drop_first(), k) && k != e.0 {
                        assert(false);
                    }
                }
            }
            if model_has_key(es, k) {
                let i = model_key_index(es, k);
                if i == 0 {
                    assert(r[0].0 == k);
                } else {
                    assert(es.drop_first()[i - 1].0 == k);
                    assert(model_has_key(es.drop_first(), k));
                    assert(model_has_key(rr, k));
                    let j = model_key_index(rr, k);
                    assert(rr[j].0 == k);
                    assert(r[j + 1].0 == k);
                }
            }
            if k == e.0 {
                assert(model_has_key(rr, k));
                let j = model_key_index(rr, k);
                assert(rr[j].0 == k);
                assert(r[j + 1].0 == k);
            }
        }
        assert forall|i: int| 0 <= i < r.len() implies (r[i] == e || es.contains(r[i])) by {
            if i == 0 {
                assert(es.contains(es[0]));
            } else {
                assert(r[i] == rr[i - 1]);
                if rr[i - 1] == e {
                } else {
                    assert(es.drop_first().contains(rr[i - 1]));
                    let j = choose|j: int|
                        0 <= j < es.drop_first().len() && es.drop_first()[j] == rr[i - 1];
                    assert(es[j + 1] == rr[i - 1]);
                }
            }
        }
        assert forall|x: (Seq<char>, JsonModel)| es.contains(x) || x == e implies r.contains(
            x,
        ) by {
            if x == e {
                assert(rr.contains(x));
                let j = choose|j: int| 0 <= j < rr.len() && rr[j] == x;
                assert(r[j + 1] == x);
            } else {
                let i = choose|i: int| 0 <= i < es.len() && es[i] == x;
                if i == 0 {
                    assert(r[0] == x);
                } else {
                    assert(es.drop_first()[i - 1] == x);
                    assert(rr.contains(x));
                    let j = choose|j: int| 0 <= j < rr.len() && rr[j] == x;
                    assert(r[j + 1] == x);
                }
            }
        }
    }
}

pub proof fn lemma_entries_insert_sorted_sorted(
    es: Seq<(Seq<char>, JsonModel)>,
    e: (Seq<char>, JsonModel),
)
    requires
        entries_strictly_sorted(es),
        !model_has_key(es, e.0),
    ensures
        entries_strictly_sorted(entries_insert_sorted(es, e)),
    decreases es.len(),
{
    let r = entries_insert_sorted(es, e);
    lemma_model_key_index(es, e.0);
    if es.len() == 0 {
    } else if lex_lt(e.0, es[0].0) {
        assert forall|i: int, j: int| 0 <= i < j < r.len() implies lex_lt(r[i].0, r[j].0) by {
            if i == 0 {
                if j == 1 {
                } else {
                    lemma_lex_lt_trans(e.0, es[0].0, es[j - 1].0);
                }
            }
        }
    } else {
        assert(!lex_lt(e.0, es[0].0));
        assert(es[0].0 != e.0);
        lemma_lex_lt_connected(e.0, es[0].0);
        assert(lex_lt(es[0].0, e.0));
        assert(entries_strictly_sorted(es.drop_first()));
        assert forall|j: int| 0 <= j < es.drop_first().len() implies es.drop_first()[j].0 != e.0 by {
            assert(es.drop_first()[j] == es[j + 1]);
        }
        lemma_model_key_index(es.drop_first(), e.0);
        lemma_entries_insert_sorted_sorted(es.drop_first(), e);
        lemma_entries_insert_sorted_props(es.drop_first(), e);
        let rr = entries_insert_sorted(es.drop_first(), e);
        assert forall|i: int, j: int| 0 <= i < j < r.len() implies lex_lt(r[i].0, r[j].0) by {
            if i == 0 {
                assert(r[j] == rr[j - 1]);
                if rr[j - 1] == e {
                    assert(lex_lt(es[0].0, e.0));
                } else {
                    assert(es.drop_first().contains(rr[j - 1]));
                    let x = choose|x: int|
                        0 <= x < es.drop_first().len() && es.drop_first()[x] == rr[j - 1];
                    assert(es[x + 1] == rr[j - 1]);
                    assert(lex_lt(es[0].0, es[x + 1].0));
                }
            } else {
                assert(r[i] == rr[i - 1] && r[j] == rr[j - 1]);
            }
        }
    }
}

pub proof fn lemma_entries_sort_props(es: Seq<(Seq<char>, JsonModel)>)
    requires
        entries_distinct(es),
    ensures
        entries_strictly_sorted(entries_sort(es)),
        forall|k: Seq<char>|
            #[trigger] model_has_key(entries_sort(es), k) == model_has_key(es, k),
        entries_sort(es).len() == es.len(),
        forall|i: int|
            0 <= i < entries_sort(es).len() ==> es.contains(entries_sort(es)[i]),
        forall|x: (Seq<char>, JsonModel)| es.contains(x) ==> #[trigger] entries_sort(es).contains(
            x,
        ),
    decreases es.len(),
{
    let r = entries_sort(es);
    if es.len() > 0 {
        let tail = es.drop_first();
        assert(entries_distinct(tail)) by {
            assert forall|i: int, j: int| 0 <= i < j < tail.len() implies tail[i].0 != tail[j].0 by {
                assert(tail[i] == es[i + 1] && tail[j] == es[j + 1]);
            }
        }
        lemma_entries_sort_props(tail);
        let st = entries_sort(tail);
        assert(!model_has_key(tail, es[0].0)) by {
            lemma_model_key_index(tail, es[0].0);
            if model_has_key(tail, es[0].0) {
                let i = model_key_index(tail, es[0].0);
                assert(tail[i] == es[i + 1]);
                assert(es[0].0 == es[i + 1].0);
            }
        }
        assert(!model_has_key(st, es[0].0));
        lemma_entries_insert_sorted_sorted(st, es[0]);
        lemma_entries_insert_sorted_props(st, es[0]);
        assert forall|k: Seq<char>| #[trigger] model_has_key(r, k) == model_has_key(es, k) by {
            lemma_model_key_index(es, k);
            lemma_model_key_index(tail, k);
            if model_has_key(es, k) {
                let i = model_key_index(es, k);
                if i > 0 {
                    assert(tail[i - 1].0 == k);
                    assert(model_has_key(tail, k));
                }
            }
            if model_has_key(tail, k) {
                let i = model_key_index(tail, k);
                assert(es[i + 1].0 == k);
                assert(model_has_key(es, k));
            }
        }
        assert forall|i: int| 0 <= i < r.len() implies es.contains(r[i]) by {
            if r[i] == es[0] {
                assert(es.contains(es[0]));
            } else {
                assert(st.contains(r[i]));
                let j = choose|j: int| 0 <= j < st.len() && st[j] == r[i];
                assert(tail.contains(st[j]));
                let x = choose|x: int| 0 <= x < tail.len() && tail[x] == r[i];
                assert(es[x + 1] == r[i]);
            }
        }
        assert forall|x: (Seq<char>, JsonModel)| es.contains(x) implies r.contains(x) by {
            let i = choose|i: int| 0 <= i < es.len() && es[i] == x;
            if i == 0 {
                assert(x == es[0]);
                assert(r.contains(x));
            } else {
                assert(tail[i - 1] == x);
                assert(tail.contains(x));
                assert(st.contains(x));
                assert(r.contains(x));
            }
        }
    }
}

/// The member keys `sort` reorders.
pub open spec fn dependencies_key() -> Seq<char> {
    "dependencies"@
}

pub open spec fn dev_dependencies_key() -> Seq<char> {
    "devDependencies"@
}

/// Sorting a whole document: the two dependency maps of an object are
/// sorted; arrays are walked element by element; everything else is left.
pub open spec fn model_sort_json(m: JsonModel) -> JsonModel
    decreases model_size(m),
{
    match m {
        JsonModel::Obj(es) => JsonModel::Obj(model_sort_top(es)),
        JsonModel::Arr(items) => JsonModel::Arr(model_sort_seq(items)),
        _ => m,
    }
}

pub open spec fn model_sort_seq(items: Seq<JsonModel>) -> Seq<JsonModel>
    decreases model_size_seq(items),
    when model_size_seq(items) >= 0
{
    if items.len() == 0 {
        Seq::empty()
    } else {
        seq![model_sort_json(items[0])] + model_sort_seq(items.drop_first())
    }
}

/// Applies `model_sort_map` to the values of the two dependency keys.
pub open spec fn model_sort_top(es: Seq<(Seq<char>, JsonModel)>) -> Seq<(Seq<char>, JsonModel)>
    decreases model_size_entries(es),
    when model_size_entries(es) >= 0
{
    if es.len() == 0 {
        Seq::empty()
    } else {
        let e = es[0];
        let e2 = if e.0 == dependencies_key() || e.0 == dev_dependencies_key() {
            (e.0, model_sort_map(e.1))
        } else {
            e
        };
        seq![e2] + model_sort_top(es.drop_first())
    }
}

/// Sorts one dependency map: members ordered by key, values walked.
pub open spec fn model_sort_map(m: JsonModel) -> JsonModel
    decreases model_size(m),
{
    match m {
        JsonModel::Obj(es) => JsonModel::Obj(entries_sort(model_sort_values(es))),
        _ => m,
    }
}

pub open spec fn model_sort_values(es: Seq<(Seq<char>, JsonModel)>) -> Seq<(Seq<char>, JsonModel)>
    decreases model_size_entries(es),
    when model_size_entries(es) >= 0
{
    if es.len() == 0 {
        Seq::empty()
    } else {
        seq![(es[0].0, model_sort_json(es[0].1))] + model_sort_values(es.drop_first())
    }
}

/// First position whose key the new entry's key precedes; equals the split
/// point of `entries_insert_sorted`.
pub proof fn lemma_insert_sorted_at(
    es: Seq<(Seq<char>, JsonModel)>,
    e: (Seq<char>, JsonModel),
    i: int,
)
    requires
        0 <= i <= es.len(),
        forall|j: int| 0 <= j < i ==> !lex_lt(e.0, es[j].0),
        i < es.len() ==> lex_lt(e.0, es[i].0),
    ensures
        entries_insert_sorted(es, e) == es.take(i) + seq![e] + es.skip(i),
    decreases es.len(),
{
    if i == 0 {
        if es.len() == 0 {
            assert(entries_insert_sorted(es, e) =~= es.take(0) + seq![e] + es.skip(0));
        } else {
            assert(lex_lt(e.0, es[0].0));
            assert(entries_insert_sorted(es, e) =~= es.take(0) + seq![e] + es.skip(0));
        }
    } else {
        assert(!lex_lt(e.0, es[0].0));
        let tail = es.drop_first();
        assert forall|j: int| 0 <= j < i - 1 implies !lex_lt(e.0, tail[j].0) by {
            assert(tail[j] == es[j + 1]);
        }
        if i - 1 < tail.len() {
            assert(tail[i - 1] == es[i]);
        }
        lemma_insert_sorted_at(tail, e, i - 1);
        assert(entries_insert_sorted(es, e) == seq![es[0]] + (tail.take(i - 1) + seq![e]
            + tail.skip(i - 1)));
        assert(tail.take(i - 1) =~= es.subrange(1, i));
        assert(tail.skip(i - 1) =~= es.skip(i));
        assert(entries_insert_sorted(es, e) =~= es.take(i) + seq![e] + es.skip(i));
    }
}

/// Inserts a member before the first member with a larger key.
fn sorted_insert_member(ms: Vec<JsonMember>, m: JsonMember) -> (r: Vec<JsonMember>)
    ensures
        json_view_members(r@) == entries_insert_sorted(
            json_view_members(ms@),
            (m.key@, json_view(m.value)),
        ),
{
    proof {
        broadcast use lemma_view_members_index;

    }
    let mut i: usize = 0;
    let mut found: bool = false;
    while i < ms.len() && !found
        invariant
            0 <= i <= ms@.len(),
            forall|j: int| 0 <= j < i ==> !lex_lt(m.key@, ms@[j].key@),
            found ==> i < ms@.len() && lex_lt(m.key@, ms@[i as int].key@),
        decreases ms@.len() - i + (if found { 0int } else { 1int }),
    {
        if lex_lt_exec(&m.key, &ms[i].key) {
            found = true;
        } else {
            i += 1;
        }
    }
    proof {
        let es = json_view_members(ms@);
        let e = (m.key@, json_view(m.value));
        assert forall|j: int| 0 <= j < i implies !lex_lt(e.0, es[j].0) by {
            assert(es[j] == (ms@[j].key@, json_view(ms@[j].value)));
        }
        if i < ms@.len() {
            assert(lex_lt(e.0, es[i as int].0));
        }
        lemma_insert_sorted_at(es, e, i as int);
    }
    let ghost before = ms@;
    let ghost gm = m;
    let mut out = ms;
    out.insert(i, m);
    proof {
        assert(out@ =~= before.take(i as int) + seq![gm] + before.skip(i as int));
        assert(json_view_members(out@) =~= json_view_members(before).take(i as int) + seq![
            (gm.key@, json_view(gm.value)),
        ] + json_view_members(before).skip(i as int));
    }
    out
}

/// Insertion sort of an object's members by key.
fn insertion_sort_members(ms: Vec<JsonMember>) -> (r: Vec<JsonMember>)
    ensures
        json_view_members(r@) == entries_sort(json_view_members(ms@)),
    decreases ms@.len(),
{
    proof {
        broadcast use lemma_view_members_index;

    }
    if ms.len() == 0 {
        let r: Vec<JsonMember> = Vec::new();
        proof {
            assert(json_view_members(r@) =~= entries_sort(json_view_members(ms@)));
        }
        return r;
    }
    let ghost orig = ms@;
    let mut rest = ms;
    let m = rest.remove(0);
    proof {
        assert(rest@ =~= orig.drop_first());
        assert(json_view_members(rest@) =~= json_view_members(orig).drop_first());
        assert(json_view_members(orig) == seq![(orig[0].key@, json_view(orig[0].value))]
            + json_view_members(orig.drop_first()));
    }
    let sorted_tail = insertion_sort_members(rest);
    let r = sorted_insert_member(sorted_tail, m);
    proof {
        assert(json_view_members(r@) == entries_sort(json_view_members(orig)));
    }
    r
}

/// Sorts a whole document as [`model_sort_json`] describes.
fn sort_value(v: JsonValue) -> (r: JsonValue)
    ensures
        json_view(r) == model_sort_json(json_view(v)),
    decreases model_size(json_view(v)),
{
    match v {
        JsonValue::Obj(ms) => {
            proof {
                assert(json_view(v) == JsonModel::Obj(json_view_members(ms@)));
            }
            let sorted = sort_top_members(ms);
            JsonValue::Obj(sorted)
        },
        JsonValue::Arr(items) => {
            proof {
                assert(json_view(v) == JsonModel::Arr(json_view_seq(items@)));
            }
            let sorted = sort_items(items);
            JsonValue::Arr(sorted)
        },
        other => {
            proof {
                assert(json_view(other) == model_sort_json(json_view(other)));
            }
            other
        },
    }
}

/// Walks an array, sorting each element.
fn sort_items(items: Vec<JsonValue>) -> (r: Vec<JsonValue>)
    ensures
        json_view_seq(r@) == model_sort_seq(json_view_seq(items@)),
    decreases model_size_seq(json_view_seq(items@)),
{
    proof {
        broadcast use lemma_view_seq_index;

    }
    if items.len() == 0 {
        let r: Vec<JsonValue> = Vec::new();
        proof {
            assert(json_view_seq(r@) =~= model_sort_seq(json_view_seq(items@)));
        }
        return r;
    }
    let ghost orig = items@;
    let mut rest = items;
    let x = rest.remove(0);
    proof {
        assert(rest@ =~= orig.drop_first());
        assert(json_view_seq(rest@) =~= json_view_seq(orig).drop_first());
        assert(json_view_seq(orig) == seq![json_view(orig[0])] + json_view_seq(orig.drop_first()));
        assert(x == orig[0]);
    }
    let y = sort_value(x);
    let mut out: Vec<JsonValue> = Vec::new();
    out.push(y);
    let mut tail_sorted = sort_items(rest);
    out.append(&mut tail_sorted);
    proof {
        assert(json_view_seq(out@) =~= model_sort_seq(json_view_seq(orig)));
    }
    out
}

/// Walks a document's top-level members, sorting the two dependency maps.
fn sort_top_members(ms: Vec<JsonMember>) -> (r: Vec<JsonMember>)
    ensures
        json_view_members(r@) == model_sort_top(json_view_members(ms@)),
    decreases model_size_entries(json_view_members(ms@)),
{
    proof {
        broadcast use lemma_view_members_index;

    }
    if ms.len() == 0 {
        let r: Vec<JsonMember> = Vec::new();
        proof {
            assert(json_view_members(r@) =~= model_sort_top(json_view_members(ms@)));
        }
        return r;
    }
    let ghost orig = ms@;
    let mut rest = ms;
    let m = rest.remove(0);
    proof {
        assert(rest@ =~= orig.drop_first());
        assert(json_view_members(rest@) =~= json_view_members(orig).drop_first());
        assert(json_view_members(orig) == seq![(orig[0].key@, json_view(orig[0].value))]
            + json_view_members(orig.drop_first()));
        assert(m == orig[0]);
    }
    let dep_key = chars_of("dependencies");
    let dev_key = chars_of("devDependencies");
    let is_dep = eq_chars(&m.key, &dep_key) || eq_chars(&m.key, &dev_key);
    let new_member = if is_dep {
        let sorted_value = sort_map_value(m.value);
        JsonMember { key: m.key, value: sorted_value }
    } else {
        m
    };
    let ghost gnew = new_member;
    let mut out: Vec<JsonMember> = Vec::new();
    out.push(new_member);
    let mut tail_sorted = sort_top_members(rest);
    out.append(&mut tail_sorted);
    proof {
        assert((gnew.key@, json_view(gnew.value)) == ({
            let e = json_view_members(orig)[0];
            if e.0 == dependencies_key() || e.0 == dev_dependencies_key() {
                (e.0, model_sort_map(e.1))
            } else {
                e
            }
        }));
        assert(json_view_members(out@) =~= model_sort_top(json_view_members(orig)));
    }
    out
}

/// Sorts one dependency map.
fn sort_map_value(v: JsonValue) -> (r: JsonValue)
    ensures
        json_view(r) == model_sort_map(json_view(v)),
    decreases model_size(json_view(v)),
{
    match v {
        JsonValue::Obj(ms) => {
            proof {
                assert(json_view(v) == JsonModel::Obj(json_view_members(ms@)));
            }
            let walked = sort_values_members(ms);
            let sorted = insertion_sort_members(walked);
            JsonValue::Obj(sorted)
        },
        other => {
            proof {
                assert(json_view(other) == model_sort_map(json_view(other)));
            }
            other
        },
    }
}

/// Applies the whole-document sort to each member's value.
fn sort_values_members(ms: Vec<JsonMember>) -> (r: Vec<JsonMember>)
    ensures
        json_view_members(r@) == model_sort_values(json_view_members(ms@)),
    decreases model_size_entries(json_view_members(ms@)),
{
    proof {
        broadcast use lemma_view_members_index;

    }
    if ms.len() == 0 {
        let r: Vec<JsonMember> = Vec::new();
        proof {
            assert(json_view_members(r@) =~= model_sort_values(json_view_members(ms@)));
        }
        return r;
    }
    let ghost orig = ms@;
    let mut rest = ms;
    let m = rest.remove(0);
    proof {
        assert(rest@ =~= orig.drop_first());
        assert(json_view_members(rest@) =~= json_view_members(orig).drop_first());
        assert(json_view_members(orig) == seq![(orig[0].key@, json_view(orig[0].value))]
            + json_view_members(orig.drop_first()));
        assert(m == orig[0]);
    }
    let sorted_value = sort_value(m.value);
    let new_member = JsonMember { key: m.key, value: sorted_value };
    let ghost gnew = new_member;
    let mut out: Vec<JsonMember> = Vec::new();
    out.push(new_member);
    let mut tail_sorted = sort_values_members(rest);
    out.append(&mut tail_sorted);
    proof {
        assert(json_view_members(out@) =~= model_sort_values(json_view_members(orig)));
    }
    out
}


/// The resolved (build tool, framework, language) combination of a
/// generated project; decides scripts and config patching.
#[derive(Clone, Copy, Debug, PartialEq, Eq, Structural)]
pub enum ProjectType {
    WebpackReactJs,
    WebpackReactTs,
    ViteReactJs,
    ViteReactTs,
    RspackReactJs,
    RspackReactTs,
    FarmReact,
    ElzaReactJs,
    ElzaReactTs,
}

/// The fields `update_basic` writes.
#[derive(Debug, Clone)]
pub struct PackageBasicInfo {
    pub name: String,
    pub project_type: ProjectType,
}

/// Shapes the manifest editor refuses instead of failing midway.
#[derive(Clone, Copy, Debug, PartialEq, Eq, Structural)]
pub enum ManifestError {
    RootNotObject,
    ScriptsNotObject,
    SectionMissing,
    SectionNotObject,
}

/// The `scripts.start` command per project type.
pub open spec fn scripts_start(t: ProjectType) -> Seq<char> {
    match t {
        ProjectType::WebpackReactJs =>
            "cross-env NODE_ENV=development webpack-dev-server --config ./scripts/webpack.dev.js"@,
        ProjectType::WebpackReactTs =>
            "cross-env NODE_ENV=development webpack-dev-server --config ./scripts/webpack.dev.ts"@,
        ProjectType::ViteReactJs => "vite"@,
        ProjectType::ViteReactTs => "vite"@,
        ProjectType::RspackReactJs => "rsbuild dev"@,
        ProjectType::RspackReactTs => "rsbuild dev"@,
        ProjectType::FarmReact => "farm start"@,
        ProjectType::ElzaReactJs => "elza dev"@,
        ProjectType::ElzaReactTs => "elza dev"@,
    }
}

/// The `scripts.build` command per project type.
pub open spec fn scripts_build(t: ProjectType) -> Seq<char> {
    match t {
        ProjectType::WebpackReactJs =>
            "cross-env NODE_ENV=production webpack --config ./scripts/webpack.prod.js"@,
        ProjectType::WebpackReactTs =>
            "cross-env NODE_ENV=production webpack --config ./scripts/webpack.prod.ts"@,
        ProjectType::ViteReactJs => "vite build"@,
        ProjectType::ViteReactTs => "vite build"@,
        ProjectType::RspackReactJs => "rsbuild build"@,
        ProjectType::RspackReactTs => "rsbuild build"@,
        ProjectType::FarmReact => "farm build"@,
        ProjectType::ElzaReactJs => "elza build"@,
        ProjectType::ElzaReactTs => "elza build"@,
    }
}

/// The `scripts.preview` command, for the tools that have one.
pub open spec fn scripts_preview(t: ProjectType) -> Option<Seq<char>> {
    match t {
        ProjectType::WebpackReactJs => Option::None,
        ProjectType::WebpackReactTs => Option::None,
        ProjectType::ViteReactJs => Option::Some("vite preview"@),
        ProjectType::ViteReactTs => Option::Some("vite preview"@),
        ProjectType::RspackReactJs => Option::Some("rsbuild preview"@),
        ProjectType::RspackReactTs => Option::Some("rsbuild preview"@),
        ProjectType::FarmReact => Option::Some("farm preview"@),
        ProjectType::ElzaReactJs => Option::None,
        ProjectType::ElzaReactTs => Option::None,
    }
}

/// Whether the manifest gets `"type": "module"`.
pub open spec fn sets_module_type(t: ProjectType) -> bool {
    match t {
        ProjectType::ViteReactJs => true,
        ProjectType::ViteReactTs => true,
        ProjectType::ElzaReactJs => true,
        ProjectType::ElzaReactTs => true,
        _ => false,
    }
}

/// Which section a dependency kind selects.
pub open spec fn section_key(mode: crate::cli::DependenciesMod) -> Seq<char> {
    match mode {
        crate::cli::DependenciesMod::Dev => "devDependencies"@,
        crate::cli::DependenciesMod::Prod => "dependencies"@,
    }
}

/// Setting the name, the module type and the script commands.  The scripts
/// object may be missing or `null` (an empty one is made); any other
/// non-object there, or a non-object root, is refused.
pub open spec fn model_update_basic(m: JsonModel, name: Seq<char>, t: ProjectType) -> Result<
    JsonModel,
    ManifestError,
> {
    match m {
        JsonModel::Obj(es) => {
            let scr_idx = model_key_index(es, "scripts"@);
            let scr = if scr_idx == -1 || es[scr_idx].1 is Null {
                JsonModel::Obj(Seq::empty())
            } else {
                es[scr_idx].1
            };
            match scr {
                JsonModel::Obj(ses) => {
                    let es1 = model_insert(es, "name"@, JsonModel::Str(name));
                    let es2 = if sets_module_type(t) {
                        model_insert(es1, "type"@, JsonModel::Str("module"@))
                    } else {
                        es1
                    };
                    let s1 = model_insert(ses, "start"@, JsonModel::Str(scripts_start(t)));
                    let s2 = model_insert(s1, "build"@, JsonModel::Str(scripts_build(t)));
                    let s3 = match scripts_preview(t) {
                        Option::Some(p) => model_insert(s2, "preview"@, JsonModel::Str(p)),
                        Option::None => s2,
                    };
                    Result::Ok(JsonModel::Obj(model_insert(es2, "scripts"@, JsonModel::Obj(s3))))
                },
                _ => Result::Err(ManifestError::ScriptsNotObject),
            }
        },
        _ => Result::Err(ManifestError::RootNotObject),
    }
}

/// Merging one dependency record: the section must exist and be an object;
/// the record overwrites an entry of the same name.
pub open spec fn model_update_dependencies(
    m: JsonModel,
    name: Seq<char>,
    version: Seq<char>,
    mode: crate::cli::DependenciesMod,
) -> Result<JsonModel, ManifestError> {
    match m {
        JsonModel::Obj(es) => {
            let idx = model_key_index(es, section_key(mode));
            if idx == -1 {
                Result::Err(ManifestError::SectionMissing)
            } else {
                match es[idx].1 {
                    JsonModel::Obj(deps) => Result::Ok(
                        JsonModel::Obj(
                            es.update(
                                idx,
                                (
                                    section_key(mode),
                                    JsonModel::Obj(
                                        model_insert(deps, name, JsonModel::Str(version)),
                                    ),
                                ),
                            ),
                        ),
                    ),
                    _ => Result::Err(ManifestError::SectionNotObject),
                }
            }
        },
        _ => Result::Err(ManifestError::RootNotObject),
    }
}

/// The length of a member list after an insert.
pub proof fn lemma_model_insert_len(es: Seq<(Seq<char>, JsonModel)>, k: Seq<char>, v: JsonModel)
    ensures
        model_insert(es, k, v).len() == if model_has_key(es, k) {
            es.len() as int
        } else {
            (es.len() + 1) as int
        },
    decreases es.len(),
{
    if es.len() > 0 && es[0].0 != k {
        lemma_model_insert_len(es.drop_first(), k, v);
    }
}

/// Inserting under one key leaves every other key's position and value.
pub proof fn lemma_model_insert_other_keys(
    es: Seq<(Seq<char>, JsonModel)>,
    k: Seq<char>,
    v: JsonModel,
    k2: Seq<char>,
)
    requires
        k2 != k,
    ensures
        model_key_index(model_insert(es, k, v), k2) == model_key_index(es, k2),
        model_key_index(es, k2) >= 0 ==> model_insert(es, k, v)[model_key_index(es, k2)] == es[
            model_key_index(es, k2)
        ],
    decreases es.len(),
{
    lemma_model_key_index(es, k2);
    lemma_model_insert_len(es, k, v);
    let r = model_insert(es, k, v);
    if es.len() == 0 {
        assert(r == seq![(k, v)]);
        assert(r[0].0 == k);
        assert(r.drop_first() =~= Seq::<(Seq<char>, JsonModel)>::empty());
        assert(model_key_index(r.drop_first(), k2) == -1);
        assert(model_key_index(r, k2) == -1);
    } else if es[0].0 == k {
        assert(r == seq![(k, v)] + es.drop_first());
        assert(r.drop_first() =~= es.drop_first());
        assert(r[0].0 == k);
    } else {
        lemma_model_insert_other_keys(es.drop_first(), k, v, k2);
        assert(r == seq![es[0]] + model_insert(es.drop_first(), k, v));
        assert(r.drop_first() =~= model_insert(es.drop_first(), k, v));
        if model_key_index(es, k2) > 0 {
            let i = model_key_index(es, k2);
            assert(model_key_index(es.drop_first(), k2) == i - 1);
            assert(r[i] == model_insert(es.drop_first(), k, v)[i - 1]);
        }
    }
}

/// Two member lists with the same keys in the same places have the same
/// first index for every key.
proof fn lemma_key_index_same_keys(
    a: Seq<(Seq<char>, JsonModel)>,
    b: Seq<(Seq<char>, JsonModel)>,
    k: Seq<char>,
)
    requires
        a.len() == b.len(),
        forall|i: int| 0 <= i < a.len() ==> a[i].0 == b[i].0,
    ensures
        model_key_index(a, k) == model_key_index(b, k),
    decreases a.len(),
{
    if a.len() > 0 {
        assert(a.drop_first().len() == b.drop_first().len());
        assert forall|i: int|
            0 <= i < a.drop_first().len() implies a.drop_first()[i].0 == b.drop_first()[i].0 by {
            assert(a.drop_first()[i] == a[i + 1] && b.drop_first()[i] == b[i + 1]);
        }
        lemma_key_index_same_keys(a.drop_first(), b.drop_first(), k);
    }
}

/// Merging the same dependency record twice is the same as merging it once.
pub proof fn lemma_update_dependencies_idempotent(
    m: JsonModel,
    name: Seq<char>,
    version: Seq<char>,
    mode: crate::cli::DependenciesMod,
)
    ensures
        ({
            let once = model_update_dependencies(m, name, version, mode);
            match once {
                Result::Ok(m1) => model_update_dependencies(m1, name, version, mode) == once,
                Result::Err(_) => true,
            }
        }),
{
    let once = model_update_dependencies(m, name, version, mode);
    if once is Ok {
        let es = m->Obj_0;
        let idx = model_key_index(es, section_key(mode));
        lemma_model_key_index(es, section_key(mode));
        let deps = es[idx].1->Obj_0;
        let deps1 = model_insert(deps, name, JsonModel::Str(version));
        let es1 = es.update(idx, (section_key(mode), JsonModel::Obj(deps1)));
        lemma_key_index_same_keys(es, es1, section_key(mode));
        assert(model_key_index(es1, section_key(mode)) == idx);
        crate::json::lemma_model_insert_idempotent(deps, name, JsonModel::Str(version), JsonModel::Str(version));
        assert(es1.update(
            idx,
            (
                section_key(mode),
                JsonModel::Obj(model_insert(deps1, name, JsonModel::Str(version))),
            ),
        ) =~= es1);
    }
}


/// The script command set of one project type.
fn script_commands(t: ProjectType) -> (r: (Vec<char>, Vec<char>, Option<Vec<char>>, bool))
    ensures
        r.0@ == scripts_start(t),
        r.1@ == scripts_build(t),
        (match r.2 {
            Option::Some(p) => scripts_preview(t) == Option::Some(p@),
            Option::None => scripts_preview(t) is None,
        }),
        r.3 == sets_module_type(t),
{
    match t {
        ProjectType::WebpackReactJs => (
            chars_of(
                "cross-env NODE_ENV=development webpack-dev-server --config ./scripts/webpack.dev.js",
            ),
            chars_of("cross-env NODE_ENV=production webpack --config ./scripts/webpack.prod.js"),
            Option::None,
            false,
        ),
        ProjectType::WebpackReactTs => (
            chars_of(
                "cross-env NODE_ENV=development webpack-dev-server --config ./scripts/webpack.dev.ts",
            ),
            chars_of("cross-env NODE_ENV=production webpack --config ./scripts/webpack.prod.ts"),
            Option::None,
            false,
        ),
        ProjectType::ViteReactJs => (
            chars_of("vite"),
            chars_of("vite build"),
            Option::Some(chars_of("vite preview")),
            true,
        ),
        ProjectType::ViteReactTs => (
            chars_of("vite"),
            chars_of("vite build"),
            Option::Some(chars_of("vite preview")),
            true,
        ),
        ProjectType::RspackReactJs => (
            chars_of("rsbuild dev"),
            chars_of("rsbuild build"),
            Option::Some(chars_of("rsbuild preview")),
            false,
        ),
        ProjectType::RspackReactTs => (
            chars_of("rsbuild dev"),
            chars_of("rsbuild build"),
            Option::Some(chars_of("rsbuild preview")),
            false,
        ),
        ProjectType::FarmReact => (
            chars_of("farm start"),
            chars_of("farm build"),
            Option::Some(chars_of("farm preview")),
            false,
        ),
        ProjectType::ElzaReactJs => (
            chars_of("elza dev"),
            chars_of("elza build"),
            Option::None,
            true,
        ),
        ProjectType::ElzaReactTs => (
            chars_of("elza dev"),
            chars_of("elza build"),
            Option::None,
            true,
        ),
    }
}

/// The generated project's manifest, held as a JSON tree.
#[derive(Debug)]
pub struct PackageJson {
    pub json: JsonValue,
}

impl PackageJson {
    /// Wraps an already-built document.
    pub fn from_value(json: JsonValue) -> (r: PackageJson)
        ensures
            json_view(r.json) == json_view(json),
    {
        PackageJson { json }
    }

    /// Sets the project name, the module type where due, and the script
    /// commands of the resolved project type.
    pub fn update_basic(&mut self, basic_info: PackageBasicInfo) -> (r: Result<(), ManifestError>)
        ensures
            ({
                let res = model_update_basic(
                    json_view(old(self).json),
                    basic_info.name@,
                    basic_info.project_type,
                );
                match r {
                    Result::Ok(_) => res is Ok && json_view(final(self).json) == res->Ok_0,
                    Result::Err(e) => res == Result::<JsonModel, ManifestError>::Err(e)
                        && json_view(final(self).json) == json_view(old(self).json),
                }
            }),
    {
        proof {
            broadcast use lemma_view_members_index;

            reveal_strlit("name");
            reveal_strlit("type");
            reveal_strlit("scripts");
        }
        let mut doc = JsonValue::Null;
        core::mem::swap(&mut self.json, &mut doc);
        match doc {
            JsonValue::Obj(mut ms) => {
                let ghost es = json_view_members(ms@);
                proof {
                    assert(json_view(old(self).json) == JsonModel::Obj(es));
                    lemma_model_key_index(es, "scripts"@);
                }
                let scripts_key = chars_of("scripts");
                let found = find_key(&ms, &scripts_key);
                let ghost scr_idx = model_key_index(es, "scripts"@);
                let shape_ok: bool = match found {
                    Option::Some(i) => {
                        match &ms[i].value {
                            JsonValue::Obj(_) => true,
                            JsonValue::Null => true,
                            _ => false,
                        }
                    },
                    Option::None => true,
                };
                proof {
                    assert(shape_ok == (scr_idx == -1 || es[scr_idx].1 is Null || es[scr_idx].1
                        is Obj));
                }
                if !shape_ok {
                    self.json = JsonValue::Obj(ms);
                    return Result::Err(ManifestError::ScriptsNotObject);
                }
                let name_chars = chars_of(basic_info.name.as_str());
                proof {
                    reveal_strlit("name");
                    reveal_strlit("scripts");
                    assert("name"@.len() == 4 && "scripts"@.len() == 7);
                    assert("name"@ != "scripts"@);
                    lemma_model_insert_other_keys(
                        es,
                        "name"@,
                        JsonModel::Str(basic_info.name@),
                        "scripts"@,
                    );
                }
                obj_set(&mut ms, chars_of("name"), JsonValue::Str(name_chars));
                let ghost es1 = json_view_members(ms@);
                let cmds = script_commands(basic_info.project_type);
                let (start_cmd, build_cmd, preview_cmd, module_flag) = cmds;
                if module_flag {
                    proof {
                        reveal_strlit("type");
                        reveal_strlit("scripts");
                        assert("type"@.len() == 4 && "scripts"@.len() == 7);
                        assert("type"@ != "scripts"@);
                        lemma_model_insert_other_keys(
                            es1,
                            "type"@,
                            JsonModel::Str("module"@),
                            "scripts"@,
                        );
                    }
                    obj_set(&mut ms, chars_of("type"), JsonValue::Str(chars_of("module")));
                }
                let ghost es2 = json_view_members(ms@);
                proof {
                    assert(model_key_index(es2, "scripts"@) == scr_idx);
                    if scr_idx >= 0 {
                        assert(es2[scr_idx] == es[scr_idx]);
                    }
                    lemma_model_key_index(es2, "scripts"@);
                }
                let found2 = find_key(&ms, &scripts_key);
                let mut inner: Vec<JsonMember> = Vec::new();
                let mut reinsert_at: Option<usize> = Option::None;
                let mut saved_key: Vec<char> = scripts_key;
                match found2 {
                    Option::Some(i) => {
                        let ghost before2 = ms@;
                        let memb = ms.remove(i);
                        let JsonMember { key: mkey, value: mvalue } = memb;
                        proof {
                            assert((mkey@, json_view(mvalue)) == es2[i as int]);
                        }
                        match mvalue {
                            JsonValue::Obj(v) => {
                                inner = v;
                            },
                            JsonValue::Null => {
                            },
                            other => {
                                proof {
                                    assert(json_view(other) == es[scr_idx].1);
                                    assert(false);
                                }
                                let _ = other;
                            },
                        }
                        proof {
                            assert(json_view_members(inner@) == ({
                                let scr = if scr_idx == -1 || es[scr_idx].1 is Null {
                                    JsonModel::Obj(Seq::empty())
                                } else {
                                    es[scr_idx].1
                                };
                                scr->Obj_0
                            })) by {
                                assert(json_view_members(Seq::<JsonMember>::empty())
                                    =~= Seq::<(Seq<char>, JsonModel)>::empty());
                            }
                        }
                        reinsert_at = Option::Some(i);
                        saved_key = mkey;
                        proof {
                            assert(ms@ =~= before2.remove(i as int));
                        }
                    },
                    Option::None => {
                        proof {
                            assert(scr_idx == -1);
                            assert(json_view_members(inner@)
                                =~= Seq::<(Seq<char>, JsonModel)>::empty());
                        }
                    },
                }
                let ghost ses = json_view_members(inner@);
                obj_set(&mut inner, chars_of("start"), JsonValue::Str(start_cmd));
                obj_set(&mut inner, chars_of("build"), JsonValue::Str(build_cmd));
                match preview_cmd {
                    Option::Some(p) => {
                        obj_set(&mut inner, chars_of("preview"), JsonValue::Str(p));
                    },
                    Option::None => {},
                }
                let ghost s3 = json_view_members(inner@);
                match reinsert_at {
                    Option::Some(i) => {
                        let ghost mid = ms@;
                        proof {
                            assert(saved_key@ == es2[i as int].0);
                            assert(saved_key@ == "scripts"@);
                            lemma_model_insert_found(es2, "scripts"@, JsonModel::Obj(s3));
                        }
                        ms.insert(i, JsonMember { key: saved_key, value: JsonValue::Obj(inner) });
                        proof {
                            assert(json_view_members(ms@) =~= es2.update(
                                scr_idx,
                                ("scripts"@, JsonModel::Obj(s3)),
                            ));
                        }
                    },
                    Option::None => {
                        proof {
                            lemma_model_insert_missing(es2, "scripts"@, JsonModel::Obj(s3));
                        }
                        ms.push(JsonMember { key: saved_key, value: JsonValue::Obj(inner) });
                        proof {
                            assert(json_view_members(ms@) =~= es2.push(
                                ("scripts"@, JsonModel::Obj(s3)),
                            ));
                        }
                    },
                }
                self.json = JsonValue::Obj(ms);
                proof {
                    assert(json_view(self.json) == JsonModel::Obj(
                        model_insert(es2, "scripts"@, JsonModel::Obj(s3)),
                    ));
                }
                Result::Ok(())
            },
            other => {
                self.json = other;
                Result::Err(ManifestError::RootNotObject)
            },
        }
    }

    /// Merges one dependency record into the section its kind selects.
    pub fn update_dependencies(
        &mut self,
        dependency_name: &str,
        dependency_version: &str,
        mode: DependenciesMod,
    ) -> (r: Result<(), ManifestError>)
        ensures
            ({
                let res = model_update_dependencies(
                    json_view(old(self).json),
                    dependency_name@,
                    dependency_version@,
                    mode,
                );
                match r {
                    Result::Ok(_) => res is Ok && json_view(final(self).json) == res->Ok_0,
                    Result::Err(e) => res == Result::<JsonModel, ManifestError>::Err(e)
                        && json_view(final(self).json) == json_view(old(self).json),
                }
            }),
    {
        proof {
            broadcast use lemma_view_members_index;

        }
        let mut doc = JsonValue::Null;
        core::mem::swap(&mut self.json, &mut doc);
        match doc {
            JsonValue::Obj(mut ms) => {
                let ghost es = json_view_members(ms@);
                proof {
                    assert(json_view(old(self).json) == JsonModel::Obj(es));
                    lemma_model_key_index(es, section_key(mode));
                }
                let skey = match mode {
                    DependenciesMod::Dev => chars_of("devDependencies"),
                    DependenciesMod::Prod => chars_of("dependencies"),
                };
                let found = find_key(&ms, &skey);
                match found {
                    Option::None => {
                        self.json = JsonValue::Obj(ms);
                        Result::Err(ManifestError::SectionMissing)
                    },
                    Option::Some(i) => {
                        let ghost before = ms@;
                        let memb = ms.remove(i);
                        let JsonMember { key: mkey, value: mvalue } = memb;
                        proof {
                            assert((mkey@, json_view(mvalue)) == es[i as int]);
                        }
                        match mvalue {
                            JsonValue::Obj(mut deps) => {
                                let ghost deps0 = json_view_members(deps@);
                                obj_set(
                                    &mut deps,
                                    chars_of(dependency_name),
                                    JsonValue::Str(chars_of(dependency_version)),
                                );
                                ms.insert(
                                    i,
                                    JsonMember { key: mkey, value: JsonValue::Obj(deps) },
                                );
                                proof {
                                    assert(ms@ =~= before.update(
                                        i as int,
                                        ms@[i as int],
                                    ));
                                    assert(json_view_members(ms@) =~= es.update(
                                        i as int,
                                        (
                                            section_key(mode),
                                            JsonModel::Obj(
                                                model_insert(
                                                    deps0,
                                                    dependency_name@,
                                                    JsonModel::Str(dependency_version@),
                                                ),
                                            ),
                                        ),
                                    ));
                                }
                                self.json = JsonValue::Obj(ms);
                                Result::Ok(())
                            },
                            other => {
                                ms.insert(i, JsonMember { key: mkey, value: other });
                                proof {
                                    assert(ms@ =~= before);
                                }
                                self.json = JsonValue::Obj(ms);
                                Result::Err(ManifestError::SectionNotObject)
                            },
                        }
                    },
                }
            },
            other => {
                self.json = other;
                Result::Err(ManifestError::RootNotObject)
            },
        }
    }

    /// Reads a manifest from its text.
    pub fn new(content: &Vec<char>) -> (r: Result<PackageJson, crate::json_read::ParseError>)
        ensures
            ({
                let sp = crate::json_read::sp_parse_text(content@);
                match r {
                    Result::Ok(p) => sp is Ok && json_view(p.json) == sp->Ok_0,
                    Result::Err(e) => sp == Result::<JsonModel, crate::json_read::ParseError>::Err(
                        e,
                    ),
                }
            }),
    {
        match crate::json_read::parse_text(content) {
            Result::Ok(v) => Result::Ok(PackageJson { json: v }),
            Result::Err(e) => Result::Err(e),
        }
    }

    /// The manifest's pretty text, as `write` persists it.
    pub fn text(&self) -> (r: Vec<char>)
        ensures
            r@ == crate::json_write::ser(json_view(self.json), Seq::<char>::empty()),
    {
        crate::json_write::to_pretty_text(&self.json)
    }

    /// Sorts the two dependency maps by key, walking nested arrays.
    pub fn sort(&mut self)
        ensures
            json_view(final(self).json) == model_sort_json(json_view(old(self).json)),
    {
        let mut tmp = JsonValue::Null;
        core::mem::swap(&mut self.json, &mut tmp);
        self.json = sort_value(tmp);
    }
}


pub proof fn lemma_model_sort_top_index(es: Seq<(Seq<char>, JsonModel)>)
    ensures
        model_sort_top(es).len() == es.len(),
        forall|i: int|
            0 <= i < es.len() ==> #[trigger] model_sort_top(es)[i] == (if es[i].0
                == dependencies_key() || es[i].0 == dev_dependencies_key() {
                (es[i].0, model_sort_map(es[i].1))
            } else {
                es[i]
            }),
    decreases es.len(),
{
    if es.len() > 0 {
        lemma_model_sort_top_index(es.drop_first());
        assert forall|i: int|
            0 <= i < es.len() implies #[trigger] model_sort_top(es)[i] == (if es[i].0
                == dependencies_key() || es[i].0 == dev_dependencies_key() {
                (es[i].0, model_sort_map(es[i].1))
            } else {
                es[i]
            }) by {
            if i > 0 {
                assert(model_sort_top(es)[i] == model_sort_top(es.drop_first())[i - 1]);
                assert(es.drop_first()[i - 1] == es[i]);
            }
        }
    }
}

pub proof fn lemma_model_sort_values_index(es: Seq<(Seq<char>, JsonModel)>)
    ensures
        model_sort_values(es).len() == es.len(),
        forall|i: int|
            0 <= i < es.len() ==> #[trigger] model_sort_values(es)[i] == (
                es[i].0,
                model_sort_json(es[i].1),
            ),
    decreases es.len(),
{
    if es.len() > 0 {
        lemma_model_sort_values_index(es.drop_first());
        assert forall|i: int|
            0 <= i < es.len() implies #[trigger] model_sort_values(es)[i] == (
                es[i].0,
                model_sort_json(es[i].1),
            ) by {
            if i > 0 {
                assert(model_sort_values(es)[i] == model_sort_values(es.drop_first())[i - 1]);
                assert(es.drop_first()[i - 1] == es[i]);
            }
        }
    }
}

/// After sorting a document, each dependency map whose keys were distinct
/// reads in strictly ascending key order, holding exactly the same keys.
pub proof fn lemma_sort_orders_dependencies(es: Seq<(Seq<char>, JsonModel)>, k: Seq<char>)
    requires
        k == dependencies_key() || k == dev_dependencies_key(),
        model_has_key(es, k),
        es[model_key_index(es, k)].1 is Obj,
        entries_distinct(es[model_key_index(es, k)].1->Obj_0),
    ensures
        ({
            let es2 = model_sort_top(es);
            let deps = es[model_key_index(es, k)].1->Obj_0;
            &&& model_key_index(es2, k) == model_key_index(es, k)
            &&& es2[model_key_index(es, k)].1 is Obj
            &&& entries_strictly_sorted(es2[model_key_index(es, k)].1->Obj_0)
            &&& forall|k2: Seq<char>|
                model_has_key(es2[model_key_index(es, k)].1->Obj_0, k2) == #[trigger] model_has_key(
                    deps,
                    k2,
                )
        }),
{
    let es2 = model_sort_top(es);
    let idx = model_key_index(es, k);
    lemma_model_key_index(es, k);
    lemma_model_sort_top_index(es);
    assert forall|i: int| 0 <= i < es.len() implies es2[i].0 == es[i].0 by {}
    lemma_key_index_same_keys(es, es2, k);
    let deps = es[idx].1->Obj_0;
    assert(es2[idx] == (es[idx].0, model_sort_map(es[idx].1)));
    let walked = model_sort_values(deps);
    assert(model_sort_map(es[idx].1) == JsonModel::Obj(entries_sort(walked)));
    lemma_model_sort_values_index(deps);
    assert(entries_distinct(walked)) by {
        assert forall|i: int, j: int| 0 <= i < j < walked.len() implies walked[i].0 != walked[j].0
            by {
            assert(walked[i].0 == deps[i].0 && walked[j].0 == deps[j].0);
        }
    }
    lemma_entries_sort_props(walked);
    assert forall|k2: Seq<char>|
        model_has_key(entries_sort(walked), k2) == #[trigger] model_has_key(deps, k2) by {
        assert forall|i: int| 0 <= i < deps.len() implies walked[i].0 == deps[i].0 by {}
        lemma_key_index_same_keys(deps, walked, k2);
    }
}

} // verus!
