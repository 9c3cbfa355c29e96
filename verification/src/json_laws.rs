//! The reading of what was written.
//!
//! The central law of the document model: pretty-printing a well-formed
//! document and parsing the text back yields the document again.  Combined
//! with the sorting law this gives the whole story of `sort` followed by
//! `write`: the file on disk re-parses to the sorted document, its
//! dependency maps in strictly ascending key order.

use vstd::prelude::*;

use crate::json::JsonModel;
use crate::json_read::is_number_char;
use crate::json_read::sp_number_end;
use crate::json_read::sp_skip_ws;
use crate::json_write::escape_char;
use crate::json_write::escape_string;
use crate::json_write::ser;
use crate::json_write::ser_items;
use crate::json_write::ser_members;
use crate::json::model_has_key;
use crate::json::model_key_index;
use crate::json::lemma_model_key_index;
use crate::package_json::dependencies_key;
use crate::package_json::dev_dependencies_key;
use crate::package_json::entries_distinct;
use crate::package_json::entries_strictly_sorted;
use crate::package_json::entries_sort;
use crate::package_json::lemma_entries_sort_props;
use crate::package_json::lemma_model_sort_top_index;
use crate::package_json::lemma_model_sort_values_index;
use crate::package_json::lemma_sort_orders_dependencies;
use crate::package_json::model_sort_json;
use crate::package_json::model_sort_map;
use crate::package_json::model_sort_seq;
use crate::package_json::model_sort_top;
use crate::package_json::model_sort_values;
use crate::text::lemma_lex_lt_asym;
use crate::package_json::model_size;
use crate::package_json::model_size_entries;
use crate::package_json::model_size_seq;
use crate::text::is_space;

verus! {

/// Characters a document string may hold: everything the escape table can
/// write and the reader can read back.
pub open spec fn wf_char(c: char) -> bool {
    c as u32 >= 0x20 || c == '\u{8}' || c == '\t' || c == '\n' || c == '\u{c}' || c == '\r'
}

pub open spec fn wf_string(s: Seq<char>) -> bool {
    forall|i: int| 0 <= i < s.len() ==> wf_char(s[i])
}

/// A number lexeme the writer can emit verbatim: non-empty, starting like a
/// number, made of number characters.
pub open spec fn wf_number(s: Seq<char>) -> bool {
    &&& s.len() > 0
    &&& (s[0] == '-' || ('0' <= s[0] && s[0] <= '9'))
    &&& forall|i: int| 0 <= i < s.len() ==> is_number_char(s[i])
}

/// A document the print/parse round trip covers: strings and numbers as
/// above, object keys distinct.
pub open spec fn model_wf(m: JsonModel) -> bool
    decreases m,
{
    match m {
        JsonModel::Null => true,
        JsonModel::Bool(_) => true,
        JsonModel::Num(s) => wf_number(s),
        JsonModel::Str(s) => wf_string(s),
        JsonModel::Arr(items) => wf_seq(items),
        JsonModel::Obj(es) => entries_distinct(es) && wf_entries(es),
    }
}

pub open spec fn wf_seq(items: Seq<JsonModel>) -> bool
    decreases items,
{
    if items.len() == 0 {
        true
    } else {
        model_wf(items[0]) && wf_seq(items.drop_first())
    }
}

pub open spec fn wf_entries(es: Seq<(Seq<char>, JsonModel)>) -> bool
    decreases es,
{
    if es.len() == 0 {
        true
    } else {
        wf_string(es[0].0) && model_wf(es[0].1) && wf_entries(es.drop_first())
    }
}

/// The fuel the reader needs for a value's printed text.
pub open spec fn fuel_value(m: JsonModel) -> nat
    decreases model_size(m),
{
    match m {
        JsonModel::Null => 1,
        JsonModel::Bool(_) => 1,
        JsonModel::Num(_) => 1,
        JsonModel::Str(s) => s.len() + 2,
        JsonModel::Arr(items) => if items.len() == 0 {
            1
        } else {
            1 + fuel_items(items)
        },
        JsonModel::Obj(es) => if es.len() == 0 {
            1
        } else {
            1 + fuel_members(es)
        },
    }
}

pub open spec fn fuel_items(items: Seq<JsonModel>) -> nat
    decreases model_size_seq(items),
    when model_size_seq(items) >= 0
{
    if items.len() == 0 {
        0
    } else {
        1 + fuel_value(items[0]) + fuel_items(items.drop_first())
    }
}

pub open spec fn fuel_members(es: Seq<(Seq<char>, JsonModel)>) -> nat
    decreases model_size_entries(es),
    when model_size_entries(es) >= 0
{
    if es.len() == 0 {
        0
    } else {
        2 + es[0].0.len() + fuel_value(es[0].1) + fuel_members(es.drop_first())
    }
}

/// All characters of a run are spaces.
pub open spec fn all_spaces(p: Seq<char>) -> bool {
    forall|i: int| 0 <= i < p.len() ==> p[i] == ' '
}

/// Whitespace scanning stops exactly at the first non-space position.
pub proof fn lemma_skip_ws_run(s: Seq<char>, a: int, b: int)
    requires
        0 <= a <= b <= s.len(),
        forall|j: int| a <= j < b ==> is_space(s[j]),
        b == s.len() || !is_space(s[b]),
    ensures
        sp_skip_ws(s, a) == b,
    decreases b - a,
{
    if a < b {
        lemma_skip_ws_run(s, a + 1, b);
    }
}

/// Number scanning stops exactly at the first non-number position.
pub proof fn lemma_number_end_run(s: Seq<char>, a: int, b: int)
    requires
        0 <= a <= b <= s.len(),
        forall|j: int| a <= j < b ==> is_number_char(s[j]),
        b == s.len() || !is_number_char(s[b]),
    ensures
        sp_number_end(s, a) == b,
    decreases b - a,
{
    if a < b {
        lemma_number_end_run(s, a + 1, b);
    }
}

/// A value's printed text is never empty and starts with the character
/// that announces its kind; in particular it starts with no space, no
/// closing bracket, and a number character only for a number.
pub proof fn lemma_ser_first(m: JsonModel, pad: Seq<char>)
    requires
        model_wf(m),
    ensures
        ser(m, pad).len() > 0,
        !is_space(ser(m, pad)[0]),
        ser(m, pad)[0] != ']' && ser(m, pad)[0] != '}' && ser(m, pad)[0] != ',' && ser(
            m,
            pad,
        )[0] != ':',
        (m is Null <==> ser(m, pad)[0] == 'n'),
        (m is Bool <==> (ser(m, pad)[0] == 't' || ser(m, pad)[0] == 'f')),
        (m is Str <==> ser(m, pad)[0] == '"'),
        (m is Arr <==> ser(m, pad)[0] == '['),
        (m is Obj <==> ser(m, pad)[0] == '{'),
        (m is Num <==> (ser(m, pad)[0] == '-' || ('0' <= ser(m, pad)[0] && ser(m, pad)[0] <= '9'))),
{
    match m {
        JsonModel::Null => {
            assert(ser(m, pad) == seq!['n', 'u', 'l', 'l']);
        },
        JsonModel::Bool(b) => {
            if b {
                assert(ser(m, pad) == seq!['t', 'r', 'u', 'e']);
            } else {
                assert(ser(m, pad) == seq!['f', 'a', 'l', 's', 'e']);
            }
        },
        JsonModel::Num(s) => {
            assert(ser(m, pad) == s);
        },
        JsonModel::Str(s) => {
            assert(ser(m, pad)[0] == '"');
        },
        JsonModel::Arr(items) => {
            assert(ser(m, pad)[0] == '[');
        },
        JsonModel::Obj(es) => {
            assert(ser(m, pad)[0] == '{');
        },
    }
}


/// Reading back an escaped string: the reader, standing after the opening
/// quote, yields the original characters and stops after the closing quote.
pub proof fn lemma_parse_string_of_escape(s: Seq<char>, i: int, content: Seq<char>, f: nat)
    requires
        wf_string(content),
        0 <= i,
        i + escape_string(content).len() + 1 <= s.len(),
        s.subrange(i, i + escape_string(content).len() + 1) == escape_string(content) + seq!['"'],
        f >= content.len() + 1,
    ensures
        crate::json_read::sp_parse_string(s, i, f) == Result::<
            (Seq<char>, int),
            crate::json_read::ParseError,
        >::Ok((content, i + escape_string(content).len() + 1)),
    decreases content.len(),
{
    let total = escape_string(content).len() as int;
    if content.len() == 0 {
        assert(escape_string(content) =~= Seq::<char>::empty());
        assert(s[i] == (escape_string(content) + seq!['"'])[0]);
        assert(s[i] == '"');
        assert(crate::json_read::sp_parse_string(s, i, f) == Result::<
            (Seq<char>, int),
            crate::json_read::ParseError,
        >::Ok((Seq::empty(), i + 1)));
        assert(content =~= Seq::<char>::empty());
    } else {
        let c = content[0];
        let rest = content.drop_first();
        let e = escape_char(c);
        let er = escape_string(rest);
        assert(escape_string(content) == e + er);
        assert(wf_char(c));
        assert(wf_string(rest)) by {
            assert forall|j: int| 0 <= j < rest.len() implies wf_char(rest[j]) by {
                assert(rest[j] == content[j + 1]);
            }
        }
        if c == '"' || c == '\\' || c == '\n' || c == '\r' || c == '\t' || c == '\u{8}' || c
            == '\u{c}' {
            assert(e.len() == 2 && e[0] == '\\');
            assert(s[i] == (e + er + seq!['"'])[0]);
            assert(s[i + 1] == (e + er + seq!['"'])[1]);
            assert(s[i] == '\\' && s[i + 1] == e[1]);
            assert(crate::json_read::sp_unescape(e[1]) == Option::Some(c));
            assert(s.subrange(i + 2, i + 2 + er.len() + 1) =~= er + seq!['"']) by {
                assert forall|k: int|
                    0 <= k < er.len() + 1 implies s.subrange(i + 2, i + 2 + er.len() + 1)[k] == (er
                    + seq!['"'])[k] by {
                    assert(s.subrange(i + 2, i + 2 + er.len() + 1)[k] == s[i + 2 + k]);
                    assert(s[i + 2 + k] == (e + er + seq!['"'])[2 + k]);
                }
            }
            lemma_parse_string_of_escape(s, i + 2, rest, (f - 1) as nat);
            assert(seq![c] + rest =~= content);
            assert(i + 2 + er.len() + 1 == i + total + 1);
        } else {
            assert(c as u32 >= 0x20);
            assert(e == seq![c]);
            assert(s[i] == (e + er + seq!['"'])[0]);
            assert(s[i] == c);
            assert(s.subrange(i + 1, i + 1 + er.len() + 1) =~= er + seq!['"']) by {
                assert forall|k: int|
                    0 <= k < er.len() + 1 implies s.subrange(i + 1, i + 1 + er.len() + 1)[k] == (er
                    + seq!['"'])[k] by {
                    assert(s.subrange(i + 1, i + 1 + er.len() + 1)[k] == s[i + 1 + k]);
                    assert(s[i + 1 + k] == (e + er + seq!['"'])[1 + k]);
                }
            }
            lemma_parse_string_of_escape(s, i + 1, rest, (f - 1) as nat);
            assert(seq![c] + rest =~= content);
            assert(i + 1 + er.len() + 1 == i + total + 1);
        }
    }
}


/// A piece of a known stretch of the text is itself known.
proof fn lemma_sub_extract(s: Seq<char>, base: int, t: Seq<char>, off: int, part: Seq<char>)
    requires
        0 <= base,
        base + t.len() <= s.len(),
        s.subrange(base, base + t.len() as int) == t,
        0 <= off,
        off + part.len() <= t.len(),
        forall|k: int| 0 <= k < part.len() ==> t[off + k] == part[k],
    ensures
        s.subrange(base + off, base + off + part.len() as int) == part,
{
    assert(s.subrange(base + off, base + off + part.len() as int) =~= part) by {
        assert forall|k: int|
            0 <= k < part.len() implies s.subrange(base + off, base + off + part.len() as int)[k]
            == part[k] by {
            assert(s.subrange(base + off, base + off + part.len() as int)[k] == s[base + off + k]);
            assert(s[base + off + k] == s.subrange(base, base + t.len() as int)[off + k]);
        }
    }
}

/// Reading back a printed value: the reader, pointed anywhere in the
/// whitespace before the text, yields the value and stops right after it.
#[verifier::rlimit(50)]
pub proof fn lemma_parse_ser_value(
    s: Seq<char>,
    i0: int,
    i: int,
    m: JsonModel,
    pad: Seq<char>,
    f: nat,
)
    requires
        model_wf(m),
        all_spaces(pad),
        0 <= i0 <= i,
        i + ser(m, pad).len() <= s.len(),
        sp_skip_ws(s, i0) == i,
        s.subrange(i, i + ser(m, pad).len() as int) == ser(m, pad),
        f >= fuel_value(m),
        i + ser(m, pad).len() == s.len() || !is_number_char(s[i + ser(m, pad).len()]),
    ensures
        crate::json_read::sp_parse_value(s, i0, f) == Result::<
            (JsonModel, int),
            crate::json_read::ParseError,
        >::Ok((m, i + ser(m, pad).len())),
    decreases model_size(m),
{
    let t = ser(m, pad);
    let l = t.len() as int;
    lemma_ser_first(m, pad);
    assert(s[i] == t[0]);
    match m {
        JsonModel::Null => {
            assert(t == seq!['n', 'u', 'l', 'l']);
            assert(crate::text::matches_at(s, i, seq!['n', 'u', 'l', 'l']));
        },
        JsonModel::Bool(b) => {
            if b {
                assert(t == seq!['t', 'r', 'u', 'e']);
                assert(crate::text::matches_at(s, i, seq!['t', 'r', 'u', 'e']));
            } else {
                assert(t == seq!['f', 'a', 'l', 's', 'e']);
                assert(crate::text::matches_at(s, i, seq!['f', 'a', 'l', 's', 'e']));
            }
        },
        JsonModel::Num(lex) => {
            assert(t == lex);
            assert forall|j: int| i <= j < i + l implies is_number_char(s[j]) by {
                assert(s[j] == t[j - i]);
            }
            lemma_number_end_run(s, i, i + l);
            assert(s.subrange(i, i + l) == lex);
        },
        JsonModel::Str(content) => {
            let ek = escape_string(content);
            assert(t == seq!['"'] + ek + seq!['"']);
            assert(s[i] == '"');
            lemma_sub_extract(s, i, t, 1, ek + seq!['"']);
            assert(wf_string(content));
            lemma_parse_string_of_escape(s, i + 1, content, (f - 1) as nat);
        },
        JsonModel::Arr(items) => {
            if items.len() == 0 {
                assert(t == seq!['[', ']']);
                assert(s[i] == '[' && s[i + 1] == ']');
                assert(!is_space(s[i + 1]));
                lemma_skip_ws_run(s, i + 1, i + 1);
                assert(items =~= Seq::<JsonModel>::empty());
                assert(JsonModel::Arr(Seq::<JsonModel>::empty()) == m);
            } else {
                let pad2 = pad + seq![' ', ' '];
                let ti = ser_items(items, pad2);
                assert(t == seq!['[', '\n'] + ti + pad + seq![']']);
                assert(s[i] == '[');
                let close = i + 2 + ti.len() as int + pad.len() as int;
                assert(s[close] == t[close - i]);
                assert(t[close - i] == ']');
                // the text of the element lines
                lemma_sub_extract(s, i, t, 2, ti);
                // whitespace between the last line and the bracket
                assert(s[i + 1] == t[1] && t[1] == '\n');
                assert forall|j: int| i + 2 + ti.len() <= j < close implies is_space(s[j]) by {
                    assert(s[j] == t[j - i]);
                    assert(t[j - i] == pad[j - i - 2 - ti.len()]);
                }
                assert(all_spaces(pad2));
                // the reader does not see an empty array: the first item
                // starts right after the indentation
                assert(ti == pad2 + ser(items[0], pad2) + (if items.len() == 1 {
                    seq!['\n']
                } else {
                    seq![',', '\n']
                }) + ser_items(items.drop_first(), pad2));
                assert(wf_seq(items));
                lemma_ser_first(items[0], pad2);
                let first_item = i + 2 + pad2.len() as int;
                assert forall|j: int| i + 1 <= j < first_item implies is_space(s[j]) by {
                    assert(s[j] == t[j - i]);
                    if j > i + 1 {
                        assert(t[j - i] == ti[j - i - 2]);
                        assert(ti[j - i - 2] == pad2[j - i - 2]);
                    }
                }
                assert(s[first_item] == t[first_item - i] && t[first_item - i] == ti[pad2.len()
                    as int] && ti[pad2.len() as int] == ser(items[0], pad2)[0]);
                lemma_skip_ws_run(s, i + 1, first_item);
                assert(s[first_item] != ']');
                lemma_parse_ser_items(s, i + 1, items, pad2, close, (f - 1) as nat);
            }
        },
        JsonModel::Obj(es) => {
            if es.len() == 0 {
                assert(t == seq!['{', '}']);
                assert(s[i] == '{' && s[i + 1] == '}');
                lemma_skip_ws_run(s, i + 1, i + 1);
                assert(es =~= Seq::<(Seq<char>, JsonModel)>::empty());
                assert(JsonModel::Obj(Seq::<(Seq<char>, JsonModel)>::empty()) == m);
            } else {
                let pad2 = pad + seq![' ', ' '];
                let tm = ser_members(es, pad2);
                assert(t == seq!['{', '\n'] + tm + pad + seq!['}']);
                assert(s[i] == '{');
                let close = i + 2 + tm.len() as int + pad.len() as int;
                assert(s[close] == t[close - i]);
                assert(t[close - i] == '}');
                lemma_sub_extract(s, i, t, 2, tm);
                assert(s[i + 1] == t[1] && t[1] == '\n');
                assert forall|j: int| i + 2 + tm.len() <= j < close implies is_space(s[j]) by {
                    assert(s[j] == t[j - i]);
                    assert(t[j - i] == pad[j - i - 2 - tm.len()]);
                }
                assert(all_spaces(pad2));
                assert(tm == pad2 + seq!['"'] + escape_string(es[0].0) + seq!['"', ':', ' '] + ser(
                    es[0].1,
                    pad2,
                ) + (if es.len() == 1 {
                    seq!['\n']
                } else {
                    seq![',', '\n']
                }) + ser_members(es.drop_first(), pad2));
                let first_key = i + 2 + pad2.len() as int;
                assert forall|j: int| i + 1 <= j < first_key implies is_space(s[j]) by {
                    assert(s[j] == t[j - i]);
                    if j > i + 1 {
                        assert(t[j - i] == tm[j - i - 2]);
                        assert(tm[j - i - 2] == pad2[j - i - 2]);
                    }
                }
                assert(s[first_key] == t[first_key - i] && t[first_key - i] == tm[pad2.len()
                    as int] && tm[pad2.len() as int] == '"');
                lemma_skip_ws_run(s, i + 1, first_key);
                assert(s[first_key] != '}');
                lemma_parse_ser_members(s, i + 1, es, pad2, close, (f - 1) as nat);
            }
        },
    }
}

/// Reading back printed element lines: the reader, standing on the line
/// break before the lines, yields the elements and stops after the closing
/// bracket.
pub proof fn lemma_parse_ser_items(
    s: Seq<char>,
    i: int,
    items: Seq<JsonModel>,
    pad2: Seq<char>,
    close: int,
    f: nat,
)
    requires
        items.len() > 0,
        wf_seq(items),
        all_spaces(pad2),
        0 <= i,
        s[i] == '\n',
        i + 1 + ser_items(items, pad2).len() <= close < s.len(),
        s.subrange(i + 1, i + 1 + ser_items(items, pad2).len() as int) == ser_items(items, pad2),
        forall|j: int| i + 1 + ser_items(items, pad2).len() <= j < close ==> is_space(s[j]),
        s[close] == ']',
        f >= fuel_items(items),
    ensures
        crate::json_read::sp_parse_elements(s, i, f) == Result::<
            (Seq<JsonModel>, int),
            crate::json_read::ParseError,
        >::Ok((items, close + 1)),
    decreases model_size_seq(items),
{
    let ti = ser_items(items, pad2);
    let sep: Seq<char> = if items.len() == 1 {
        seq!['\n']
    } else {
        seq![',', '\n']
    };
    let item0 = items[0];
    let t0 = ser(item0, pad2);
    let rest_t = ser_items(items.drop_first(), pad2);
    assert(ti == pad2 + t0 + sep + rest_t);
    assert(model_wf(item0) && wf_seq(items.drop_first()));
    lemma_ser_first(item0, pad2);
    let first_item = i + 1 + pad2.len() as int;
    // the reader skips the break and the indentation
    assert forall|j: int| i <= j < first_item implies is_space(s[j]) by {
        if j > i {
            assert(s[j] == ti[j - i - 1]);
            assert(ti[j - i - 1] == pad2[j - i - 1]);
        }
    }
    assert(s[first_item] == ti[pad2.len() as int] && ti[pad2.len() as int] == t0[0]);
    lemma_skip_ws_run(s, i, first_item);
    // the first element's text
    lemma_sub_extract(s, i + 1, ti, pad2.len() as int, t0);
    let jv = first_item + t0.len() as int;
    assert(s[jv] == ti[pad2.len() as int + t0.len() as int]);
    assert(ti[pad2.len() as int + t0.len() as int] == sep[0]);
    lemma_parse_ser_value(s, i, first_item, item0, pad2, (f - 1) as nat);
    crate::json_read::lemma_parse_value_bounds(s, i, (f - 1) as nat);
    if items.len() == 1 {
        assert(rest_t =~= Seq::<char>::empty());
        assert(sep == seq!['\n']);
        assert(s[jv] == '\n');
        // whitespace from the break to the closing bracket
        assert forall|j: int| jv <= j < close implies is_space(s[j]) by {
            if j > jv {
                assert(j >= i + 1 + ti.len());
            }
        }
        lemma_skip_ws_run(s, jv, close);
        assert(seq![item0] =~= items);
    } else {
        assert(sep == seq![',', '\n']);
        assert(s[jv] == ',');
        assert(!is_space(s[jv]));
        lemma_skip_ws_run(s, jv, jv);
        assert(s[jv + 1] == ti[pad2.len() as int + t0.len() as int + 1]);
        assert(ti[pad2.len() as int + t0.len() as int + 1] == '\n');
        lemma_sub_extract(s, i + 1, ti, pad2.len() as int + t0.len() as int + 2, rest_t);
        assert forall|j: int| jv + 2 + rest_t.len() <= j < close implies is_space(s[j]) by {
            assert(j >= i + 1 + ti.len());
        }
        lemma_parse_ser_items(s, jv + 1, items.drop_first(), pad2, close, (f - 1) as nat);
        assert(seq![item0] + items.drop_first() =~= items);
    }
}

/// Reading back printed member lines: the reader, standing on the line
/// break before the lines, yields the members and stops after the closing
/// brace.
pub proof fn lemma_parse_ser_members(
    s: Seq<char>,
    i: int,
    es: Seq<(Seq<char>, JsonModel)>,
    pad2: Seq<char>,
    close: int,
    f: nat,
)
    requires
        es.len() > 0,
        wf_entries(es),
        entries_distinct(es),
        all_spaces(pad2),
        0 <= i,
        s[i] == '\n',
        i + 1 + ser_members(es, pad2).len() <= close < s.len(),
        s.subrange(i + 1, i + 1 + ser_members(es, pad2).len() as int) == ser_members(es, pad2),
        forall|j: int| i + 1 + ser_members(es, pad2).len() <= j < close ==> is_space(s[j]),
        s[close] == '}',
        f >= fuel_members(es),
    ensures
        crate::json_read::sp_parse_members(s, i, f) == Result::<
            (Seq<(Seq<char>, JsonModel)>, int),
            crate::json_read::ParseError,
        >::Ok((es, close + 1)),
    decreases model_size_entries(es),
{
    let tm = ser_members(es, pad2);
    let sep: Seq<char> = if es.len() == 1 {
        seq!['\n']
    } else {
        seq![',', '\n']
    };
    let key = es[0].0;
    let v = es[0].1;
    let ek = escape_string(key);
    let tv = ser(v, pad2);
    let rest_t = ser_members(es.drop_first(), pad2);
    assert(tm == pad2 + seq!['"'] + ek + seq!['"', ':', ' '] + tv + sep + rest_t);
    assert(wf_string(key) && model_wf(v) && wf_entries(es.drop_first()));
    lemma_ser_first(v, pad2);
    let kq = i + 1 + pad2.len() as int;
    assert forall|j: int| i <= j < kq implies is_space(s[j]) by {
        if j > i {
            assert(s[j] == tm[j - i - 1]);
            assert(tm[j - i - 1] == pad2[j - i - 1]);
        }
    }
    assert(s[kq] == tm[pad2.len() as int]);
    assert(tm[pad2.len() as int] == '"');
    lemma_skip_ws_run(s, i, kq);
    // the key's characters and its closing quote
    lemma_sub_extract(s, i + 1, tm, pad2.len() as int + 1, ek + seq!['"']);
    lemma_parse_string_of_escape(s, kq + 1, key, (f - 1) as nat);
    let j2 = kq + 1 + ek.len() as int + 1;
    assert(s[j2] == tm[j2 - i - 1]);
    assert(tm[j2 - i - 1] == ':');
    assert(!is_space(s[j2]));
    lemma_skip_ws_run(s, j2, j2);
    // the value's text, one space after the colon
    let vstart = j2 + 2;
    assert(s[j2 + 1] == tm[j2 + 1 - i - 1] && tm[j2 - i] == ' ');
    assert(s[vstart] == tm[vstart - i - 1] && tm[vstart - i - 1] == tv[0]);
    lemma_skip_ws_run(s, j2 + 1, vstart);
    lemma_sub_extract(s, i + 1, tm, pad2.len() as int + 1 + ek.len() as int + 3, tv);
    let jv = vstart + tv.len() as int;
    assert(s[jv] == tm[jv - i - 1]);
    assert(tm[jv - i - 1] == sep[0]);
    lemma_parse_ser_value(s, j2 + 1, vstart, v, pad2, (f - 1) as nat);
    crate::json_read::lemma_parse_value_bounds(s, j2 + 1, (f - 1) as nat);
    if es.len() == 1 {
        assert(rest_t =~= Seq::<char>::empty());
        assert(s[jv] == '\n');
        assert forall|j: int| jv <= j < close implies is_space(s[j]) by {
            if j > jv {
                assert(j >= i + 1 + tm.len());
            }
        }
        lemma_skip_ws_run(s, jv, close);
        assert(seq![(key, v)] =~= es);
    } else {
        assert(s[jv] == ',');
        lemma_skip_ws_run(s, jv, jv);
        assert(s[jv + 1] == tm[jv + 1 - i - 1] && tm[jv - i] == '\n');
        lemma_sub_extract(
            s,
            i + 1,
            tm,
            pad2.len() as int + 1 + ek.len() as int + 3 + tv.len() as int + 2,
            rest_t,
        );
        assert forall|j: int| jv + 2 + rest_t.len() <= j < close implies is_space(s[j]) by {
            assert(j >= i + 1 + tm.len());
        }
        assert(entries_distinct(es.drop_first())) by {
            assert forall|a: int, b: int|
                0 <= a < b < es.drop_first().len() implies es.drop_first()[a].0 != es.drop_first()[
                b
            ].0 by {
                assert(es.drop_first()[a] == es[a + 1] && es.drop_first()[b] == es[b + 1]);
            }
        }
        lemma_parse_ser_members(s, jv + 1, es.drop_first(), pad2, close, (f - 1) as nat);
        let rest = es.drop_first();
        // the key of the first member is not among the later keys
        assert(!crate::json::model_has_key(rest, key)) by {
            crate::json::lemma_model_key_index(rest, key);
            if crate::json::model_has_key(rest, key) {
                let x = crate::json::model_key_index(rest, key);
                assert(rest[x] == es[x + 1]);
                assert(es[0].0 != es[x + 1].0);
            }
        }
        assert(seq![(key, v)] + rest =~= es);
    }
}


/// Escaping never shortens a string.
pub proof fn lemma_escape_len(s: Seq<char>)
    ensures
        escape_string(s).len() >= s.len(),
    decreases s.len(),
{
    if s.len() > 0 {
        lemma_escape_len(s.drop_first());
        assert(escape_char(s[0]).len() >= 1);
    }
}

/// The fuel a printed value needs is covered by its own length.
pub proof fn lemma_fuel_bound(m: JsonModel, pad: Seq<char>)
    ensures
        fuel_value(m) <= ser(m, pad).len() + 1,
    decreases model_size(m),
{
    match m {
        JsonModel::Str(content) => {
            lemma_escape_len(content);
        },
        JsonModel::Arr(items) => {
            if items.len() > 0 {
                lemma_fuel_items_bound(items, pad + seq![' ', ' ']);
            }
        },
        JsonModel::Obj(es) => {
            if es.len() > 0 {
                lemma_fuel_members_bound(es, pad + seq![' ', ' ']);
            }
        },
        _ => {},
    }
}

proof fn lemma_fuel_items_bound(items: Seq<JsonModel>, pad2: Seq<char>)
    requires
        pad2.len() >= 2,
    ensures
        fuel_items(items) <= ser_items(items, pad2).len(),
    decreases model_size_seq(items),
{
    if items.len() > 0 {
        lemma_fuel_bound(items[0], pad2);
        lemma_fuel_items_bound(items.drop_first(), pad2);
    }
}

proof fn lemma_fuel_members_bound(es: Seq<(Seq<char>, JsonModel)>, pad2: Seq<char>)
    requires
        pad2.len() >= 2,
    ensures
        fuel_members(es) <= ser_members(es, pad2).len(),
    decreases model_size_entries(es),
{
    if es.len() > 0 {
        lemma_escape_len(es[0].0);
        lemma_fuel_bound(es[0].1, pad2);
        lemma_fuel_members_bound(es.drop_first(), pad2);
    }
}

/// The parse of the print: a well-formed document's pretty text reads back
/// as the document itself.
pub proof fn lemma_parse_of_print(m: JsonModel)
    requires
        model_wf(m),
        ser(m, Seq::<char>::empty()).len() <= usize::MAX - 8,
    ensures
        crate::json_read::sp_parse_text(ser(m, Seq::<char>::empty())) == Result::<
            JsonModel,
            crate::json_read::ParseError,
        >::Ok(m),
{
    let s = ser(m, Seq::<char>::empty());
    let f = crate::json_read::sp_fuel(s);
    lemma_fuel_bound(m, Seq::<char>::empty());
    assert(f >= fuel_value(m));
    lemma_ser_first(m, Seq::<char>::empty());
    lemma_skip_ws_run(s, 0, 0);
    assert(s.subrange(0, s.len() as int) =~= s);
    assert(all_spaces(Seq::<char>::empty()));
    lemma_parse_ser_value(s, 0, 0, m, Seq::<char>::empty(), f);
    assert(sp_skip_ws(s, s.len() as int) == s.len() as int);
}


/// Each member of a well-formed member list is itself well-formed.
proof fn lemma_wf_entries_index(es: Seq<(Seq<char>, JsonModel)>, i: int)
    requires
        wf_entries(es),
        0 <= i < es.len(),
    ensures
        wf_string(es[i].0),
        model_wf(es[i].1),
    decreases i,
{
    if i > 0 {
        assert(es.drop_first()[i - 1] == es[i]);
        lemma_wf_entries_index(es.drop_first(), i - 1);
    }
}

/// A member list whose members are all well-formed is well-formed.
proof fn lemma_wf_entries_build(es: Seq<(Seq<char>, JsonModel)>)
    requires
        forall|i: int| 0 <= i < es.len() ==> wf_string(#[trigger] es[i].0) && model_wf(es[i].1),
    ensures
        wf_entries(es),
    decreases es.len(),
{
    if es.len() > 0 {
        assert(wf_string(es[0].0) && model_wf(es[0].1));
        assert forall|i: int|
            0 <= i < es.drop_first().len() implies wf_string(
            #[trigger] es.drop_first()[i].0,
        ) && model_wf(es.drop_first()[i].1) by {
            assert(es.drop_first()[i] == es[i + 1]);
            assert(wf_string(es[i + 1].0) && model_wf(es[i + 1].1));
        }
        lemma_wf_entries_build(es.drop_first());
    }
}

/// Sorting keeps a document well-formed.
pub proof fn lemma_sort_preserves_wf(m: JsonModel)
    requires
        model_wf(m),
    ensures
        model_wf(model_sort_json(m)),
    decreases model_size(m),
{
    match m {
        JsonModel::Arr(items) => {
            lemma_sort_seq_wf(items);
        },
        JsonModel::Obj(es) => {
            lemma_sort_top_wf(es);
            lemma_model_sort_top_index(es);
            let es2 = model_sort_top(es);
            assert(entries_distinct(es2)) by {
                assert forall|a: int, b: int|
                    0 <= a < b < es2.len() implies es2[a].0 != es2[b].0 by {
                    assert(es2[a].0 == es[a].0 && es2[b].0 == es[b].0);
                }
            }
        },
        _ => {},
    }
}

proof fn lemma_sort_seq_wf(items: Seq<JsonModel>)
    requires
        wf_seq(items),
    ensures
        wf_seq(model_sort_seq(items)),
    decreases model_size_seq(items),
{
    if items.len() > 0 {
        lemma_sort_preserves_wf(items[0]);
        lemma_sort_seq_wf(items.drop_first());
        let r = model_sort_seq(items);
        assert(r == seq![model_sort_json(items[0])] + model_sort_seq(items.drop_first()));
        assert(r[0] == model_sort_json(items[0]));
        assert(r.drop_first() =~= model_sort_seq(items.drop_first()));
    }
}

proof fn lemma_sort_top_wf(es: Seq<(Seq<char>, JsonModel)>)
    requires
        wf_entries(es),
    ensures
        wf_entries(model_sort_top(es)),
    decreases model_size_entries(es),
{
    if es.len() > 0 {
        let e = es[0];
        let e2: (Seq<char>, JsonModel) = if e.0 == dependencies_key() || e.0
            == dev_dependencies_key() {
            (e.0, model_sort_map(e.1))
        } else {
            e
        };
        lemma_sort_map_wf(e.1);
        lemma_sort_top_wf(es.drop_first());
        let r = model_sort_top(es);
        assert(r == seq![e2] + model_sort_top(es.drop_first()));
        assert(r[0] == e2);
        assert(r.drop_first() =~= model_sort_top(es.drop_first()));
        assert(wf_string(e2.0) && model_wf(e2.1));
    }
}

/// Sorting keeps one dependency map well-formed.
proof fn lemma_sort_map_wf(m: JsonModel)
    requires
        model_wf(m),
    ensures
        model_wf(model_sort_map(m)),
    decreases model_size(m),
{
    match m {
        JsonModel::Obj(es) => {
            lemma_sort_values_wf(es);
            lemma_model_sort_values_index(es);
            let walked = model_sort_values(es);
            assert(entries_distinct(walked)) by {
                assert forall|a: int, b: int|
                    0 <= a < b < walked.len() implies walked[a].0 != walked[b].0 by {
                    assert(walked[a].0 == es[a].0 && walked[b].0 == es[b].0);
                }
            }
            lemma_entries_sort_props(walked);
            let sorted = entries_sort(walked);
            assert forall|i: int|
                0 <= i < sorted.len() implies wf_string(#[trigger] sorted[i].0) && model_wf(
                sorted[i].1,
            ) by {
                assert(walked.contains(sorted[i]));
                let j = choose|j: int| 0 <= j < walked.len() && walked[j] == sorted[i];
                lemma_wf_entries_index(walked, j);
            }
            lemma_wf_entries_build(sorted);
            assert(entries_distinct(sorted)) by {
                assert forall|a: int, b: int|
                    0 <= a < b < sorted.len() implies sorted[a].0 != sorted[b].0 by {
                    assert(crate::text::lex_lt(sorted[a].0, sorted[b].0));
                    if sorted[a].0 == sorted[b].0 {
                        lemma_lex_lt_asym(sorted[a].0, sorted[b].0);
                    }
                }
            }
        },
        _ => {},
    }
}

proof fn lemma_sort_values_wf(es: Seq<(Seq<char>, JsonModel)>)
    requires
        wf_entries(es),
    ensures
        wf_entries(model_sort_values(es)),
    decreases model_size_entries(es),
{
    if es.len() > 0 {
        lemma_sort_preserves_wf(es[0].1);
        lemma_sort_values_wf(es.drop_first());
        let r = model_sort_values(es);
        assert(r == seq![(es[0].0, model_sort_json(es[0].1))] + model_sort_values(
            es.drop_first(),
        ));
        assert(r[0] == (es[0].0, model_sort_json(es[0].1)));
        assert(r.drop_first() =~= model_sort_values(es.drop_first()));
    }
}

/// Sorting, writing, then parsing the written text: the text reads back as
/// the sorted document, and a dependency map that was an object reads back
/// with its keys in strictly ascending order.
pub proof fn lemma_sort_write_reparse(es: Seq<(Seq<char>, JsonModel)>, k: Seq<char>)
    requires
        model_wf(JsonModel::Obj(es)),
        ser(model_sort_json(JsonModel::Obj(es)), Seq::<char>::empty()).len() <= usize::MAX - 8,
        k == dependencies_key() || k == dev_dependencies_key(),
        model_has_key(es, k),
        es[model_key_index(es, k)].1 is Obj,
    ensures
        ({
            let sorted = model_sort_json(JsonModel::Obj(es));
            &&& crate::json_read::sp_parse_text(ser(sorted, Seq::<char>::empty())) == Result::<
                JsonModel,
                crate::json_read::ParseError,
            >::Ok(sorted)
            &&& sorted is Obj
            &&& model_key_index(sorted->Obj_0, k) == model_key_index(es, k)
            &&& sorted->Obj_0[model_key_index(es, k)].1 is Obj
            &&& entries_strictly_sorted(sorted->Obj_0[model_key_index(es, k)].1->Obj_0)
        }),
{
    let sorted = model_sort_json(JsonModel::Obj(es));
    lemma_sort_preserves_wf(JsonModel::Obj(es));
    lemma_parse_of_print(sorted);
    let idx = model_key_index(es, k);
    lemma_model_key_index(es, k);
    assert(entries_distinct(es[idx].1->Obj_0)) by {
        lemma_wf_entries_index(es, idx);
    }
    lemma_sort_orders_dependencies(es, k);
    assert(sorted == JsonModel::Obj(model_sort_top(es)));
}


proof fn lemma_number_end_chars(s: Seq<char>, i: int)
    requires
        0 <= i <= s.len(),
    ensures
        forall|j: int| i <= j < sp_number_end(s, i) ==> is_number_char(#[trigger] s[j]),
    decreases s.len() - i,
{
    crate::json_read::lemma_number_end(s, i);
    if i < s.len() && is_number_char(s[i]) {
        lemma_number_end_chars(s, i + 1);
    }
}

/// A string the reader accepts holds only characters the writer can write.
proof fn lemma_parse_string_wf(s: Seq<char>, i: int, f: nat)
    ensures
        ({
            match crate::json_read::sp_parse_string(s, i, f) {
                Result::Ok((cs, j)) => wf_string(cs),
                Result::Err(_) => true,
            }
        }),
    decreases f,
{
    if f > 0 && 0 <= i < s.len() {
        if s[i] == '\\' && i + 1 < s.len() {
            match crate::json_read::sp_unescape(s[i + 1]) {
                Option::Some(c) => {
                    lemma_parse_string_wf(s, i + 2, (f - 1) as nat);
                    match crate::json_read::sp_parse_string(s, i + 2, (f - 1) as nat) {
                        Result::Ok((rest, _)) => {
                            assert(wf_char(c));
                            assert forall|k: int|
                                0 <= k < (seq![c] + rest).len() implies wf_char(
                                (seq![c] + rest)[k],
                            ) by {
                                if k > 0 {
                                    assert((seq![c] + rest)[k] == rest[k - 1]);
                                }
                            }
                        },
                        Result::Err(_) => {},
                    }
                },
                Option::None => {},
            }
        } else if s[i] != '"' && (s[i] as u32) >= 0x20 {
            lemma_parse_string_wf(s, i + 1, (f - 1) as nat);
            match crate::json_read::sp_parse_string(s, i + 1, (f - 1) as nat) {
                Result::Ok((rest, _)) => {
                    assert forall|k: int|
                        0 <= k < (seq![s[i]] + rest).len() implies wf_char(
                        (seq![s[i]] + rest)[k],
                    ) by {
                        if k > 0 {
                            assert((seq![s[i]] + rest)[k] == rest[k - 1]);
                        }
                    }
                },
                Result::Err(_) => {},
            }
        }
    }
}

/// A value the reader accepts is well-formed.
proof fn lemma_parse_value_wf(s: Seq<char>, i0: int, f: nat)
    requires
        0 <= i0 <= s.len(),
    ensures
        ({
            match crate::json_read::sp_parse_value(s, i0, f) {
                Result::Ok((m, j)) => model_wf(m),
                Result::Err(_) => true,
            }
        }),
    decreases f,
{
    if f > 0 {
        let i = sp_skip_ws(s, i0);
        crate::json_read::lemma_skip_ws(s, i0);
        if i < s.len() {
            if s[i] == '"' {
                lemma_parse_string_wf(s, i + 1, (f - 1) as nat);
            } else if s[i] == '[' {
                lemma_parse_elements_wf(s, i + 1, (f - 1) as nat);
            } else if s[i] == '{' {
                lemma_parse_members_wf(s, i + 1, (f - 1) as nat);
            } else if s[i] == '-' || ('0' <= s[i] && s[i] <= '9') {
                let e = sp_number_end(s, i);
                crate::json_read::lemma_number_end(s, i + 1);
                lemma_number_end_chars(s, i);
                assert(e == sp_number_end(s, i + 1));
                assert(e > i);
                let lex = s.subrange(i, e);
                assert(lex[0] == s[i]);
                assert forall|k: int| 0 <= k < lex.len() implies is_number_char(
                    #[trigger] lex[k],
                ) by {
                    assert(lex[k] == s[i + k]);
                }
                assert(wf_number(lex));
            }
        }
    }
}

/// Elements the reader accepts are well-formed.
proof fn lemma_parse_elements_wf(s: Seq<char>, i: int, f: nat)
    requires
        0 <= i <= s.len(),
    ensures
        ({
            match crate::json_read::sp_parse_elements(s, i, f) {
                Result::Ok((items, j)) => wf_seq(items),
                Result::Err(_) => true,
            }
        }),
    decreases f,
{
    if f > 0 {
        lemma_parse_value_wf(s, i, (f - 1) as nat);
        crate::json_read::lemma_parse_value_bounds(s, i, (f - 1) as nat);
        match crate::json_read::sp_parse_value(s, i, (f - 1) as nat) {
            Result::Ok((v, j)) => {
                crate::json_read::lemma_skip_ws(s, j);
                let j2 = sp_skip_ws(s, j);
                if j2 < s.len() && s[j2] == ']' {
                    assert(wf_seq(seq![v])) by {
                        assert(seq![v][0] == v);
                        assert(seq![v].drop_first() =~= Seq::<JsonModel>::empty());
                        assert(wf_seq(Seq::<JsonModel>::empty()));
                    }
                } else if j2 < s.len() && s[j2] == ',' {
                    lemma_parse_elements_wf(s, j2 + 1, (f - 1) as nat);
                    match crate::json_read::sp_parse_elements(s, j2 + 1, (f - 1) as nat) {
                        Result::Ok((rest, _)) => {
                            assert(wf_seq(seq![v] + rest)) by {
                                assert((seq![v] + rest)[0] == v);
                                assert((seq![v] + rest).drop_first() =~= rest);
                                assert(wf_seq(rest));
                            }
                        },
                        Result::Err(_) => {},
                    }
                }
            },
            Result::Err(_) => {},
        }
    }
}

/// Members the reader accepts are well-formed, with distinct keys.
proof fn lemma_parse_members_wf(s: Seq<char>, i: int, f: nat)
    requires
        0 <= i <= s.len(),
    ensures
        ({
            match crate::json_read::sp_parse_members(s, i, f) {
                Result::Ok((es, j)) => wf_entries(es) && entries_distinct(es),
                Result::Err(_) => true,
            }
        }),
    decreases f,
{
    if f > 0 {
        let j = sp_skip_ws(s, i);
        crate::json_read::lemma_skip_ws(s, i);
        if j < s.len() && s[j] == '"' {
            lemma_parse_string_wf(s, j + 1, (f - 1) as nat);
            crate::json_read::lemma_parse_string_bounds(s, j + 1, (f - 1) as nat);
            match crate::json_read::sp_parse_string(s, j + 1, (f - 1) as nat) {
                Result::Ok((key, j2)) => {
                    crate::json_read::lemma_skip_ws(s, j2);
                    let j3 = sp_skip_ws(s, j2);
                    if j3 < s.len() && s[j3] == ':' {
                        lemma_parse_value_wf(s, j3 + 1, (f - 1) as nat);
                        crate::json_read::lemma_parse_value_bounds(s, j3 + 1, (f - 1) as nat);
                        match crate::json_read::sp_parse_value(s, j3 + 1, (f - 1) as nat) {
                            Result::Ok((v, j4)) => {
                                crate::json_read::lemma_skip_ws(s, j4);
                                let j5 = sp_skip_ws(s, j4);
                                if j5 < s.len() && s[j5] == '}' {
                                    assert(wf_entries(seq![(key, v)])) by {
                                        assert(seq![(key, v)][0] == (key, v));
                                        assert(seq![(key, v)].drop_first() =~= Seq::<
                                            (Seq<char>, JsonModel),
                                        >::empty());
                                        assert(wf_entries(
                                            Seq::<(Seq<char>, JsonModel)>::empty(),
                                        ));
                                    }
                                } else if j5 < s.len() && s[j5] == ',' {
                                    lemma_parse_members_wf(s, j5 + 1, (f - 1) as nat);
                                    match crate::json_read::sp_parse_members(
                                        s,
                                        j5 + 1,
                                        (f - 1) as nat,
                                    ) {
                                        Result::Ok((rest, _)) => {
                                            if !model_has_key(rest, key) {
                                                let es = seq![(key, v)] + rest;
                                                assert(wf_entries(es)) by {
                                                    assert(es[0] == (key, v));
                                                    assert(es.drop_first() =~= rest);
                                                    assert(wf_entries(rest));
                                                }
                                                lemma_model_key_index(rest, key);
                                                assert(entries_distinct(es)) by {
                                                    assert forall|a: int, b: int|
                                                        0 <= a < b < es.len() implies es[a].0
                                                        != es[b].0 by {
                                                        if a == 0 {
                                                            assert(es[b] == rest[b - 1]);
                                                            assert(rest[b - 1].0 != key);
                                                        } else {
                                                            assert(es[a] == rest[a - 1] && es[b]
                                                                == rest[b - 1]);
                                                        }
                                                    }
                                                }
                                            }
                                        },
                                        Result::Err(_) => {},
                                    }
                                }
                            },
                            Result::Err(_) => {},
                        }
                    }
                },
                Result::Err(_) => {},
            }
        }
    }
}

/// Whatever text the reader accepts, the document it yields is well-formed;
/// so the print/parse round trip applies to every document that was read.
pub proof fn lemma_parse_text_wf(s: Seq<char>)
    ensures
        ({
            match crate::json_read::sp_parse_text(s) {
                Result::Ok(m) => model_wf(m),
                Result::Err(_) => true,
            }
        }),
{
    lemma_parse_value_wf(s, 0, crate::json_read::sp_fuel(s));
}

} // verus!
