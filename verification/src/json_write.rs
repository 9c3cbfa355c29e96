//! Pretty-printing a JSON document.
//!
//! The output format is the conventional two-space-indented one: members and
//! elements each on their own line, `": "` between key and value, no
//! trailing newline.  The exact text is given by the specification function
//! [`ser`], and the executable printer is proved to produce it.

use vstd::prelude::*;

use crate::json::JsonMember;
use crate::json::JsonModel;
use crate::json::JsonValue;
use crate::json::json_view;
use crate::json::json_view_members;
use crate::json::json_view_seq;
use crate::json::lemma_view_members_index;
use crate::json::lemma_view_seq_index;
use crate::package_json::model_size;
use crate::package_json::model_size_seq;
use crate::package_json::model_size_entries;

verus! {

/// The sixteen hexadecimal digit characters.
pub open spec fn hex_digit(n: int) -> char {
    if n == 0 {
        '0'
    } else if n == 1 {
        '1'
    } else if n == 2 {
        '2'
    } else if n == 3 {
        '3'
    } else if n == 4 {
        '4'
    } else if n == 5 {
        '5'
    } else if n == 6 {
        '6'
    } else if n == 7 {
        '7'
    } else if n == 8 {
        '8'
    } else if n == 9 {
        '9'
    } else if n == 10 {
        'a'
    } else if n == 11 {
        'b'
    } else if n == 12 {
        'c'
    } else if n == 13 {
        'd'
    } else if n == 14 {
        'e'
    } else {
        'f'
    }
}

/// How one character appears inside a JSON string literal.
pub open spec fn escape_char(c: char) -> Seq<char> {
    if c == '"' {
        seq!['\\', '"']
    } else if c == '\\' {
        seq!['\\', '\\']
    } else if c == '\n' {
        seq!['\\', 'n']
    } else if c == '\r' {
        seq!['\\', 'r']
    } else if c == '\t' {
        seq!['\\', 't']
    } else if c == '\u{8}' {
        seq!['\\', 'b']
    } else if c == '\u{c}' {
        seq!['\\', 'f']
    } else if (c as u32) < 0x20 {
        seq!['\\', 'u', '0', '0', hex_digit((c as u32 >> 4) as int), hex_digit((c as u32 & 0xf) as int)]
    } else {
        seq![c]
    }
}

/// A string's characters, escaped.
pub open spec fn escape_string(s: Seq<char>) -> Seq<char>
    decreases s.len(),
{
    if s.len() == 0 {
        Seq::empty()
    } else {
        escape_char(s[0]) + escape_string(s.drop_first())
    }
}

/// The pretty text of a document; `pad` is the current indentation.
pub open spec fn ser(m: JsonModel, pad: Seq<char>) -> Seq<char>
    decreases model_size(m),
{
    match m {
        JsonModel::Null => seq!['n', 'u', 'l', 'l'],
        JsonModel::Bool(b) => if b {
            seq!['t', 'r', 'u', 'e']
        } else {
            seq!['f', 'a', 'l', 's', 'e']
        },
        JsonModel::Num(s) => s,
        JsonModel::Str(s) => seq!['"'] + escape_string(s) + seq!['"'],
        JsonModel::Arr(items) => if items.len() == 0 {
            seq!['[', ']']
        } else {
            seq!['[', '\n'] + ser_items(items, pad + seq![' ', ' ']) + pad + seq![']']
        },
        JsonModel::Obj(es) => if es.len() == 0 {
            seq!['{', '}']
        } else {
            seq!['{', '\n'] + ser_members(es, pad + seq![' ', ' ']) + pad + seq!['}']
        },
    }
}

/// Array elements, one per line, comma-separated.
pub open spec fn ser_items(items: Seq<JsonModel>, pad: Seq<char>) -> Seq<char>
    decreases model_size_seq(items),
    when model_size_seq(items) >= 0
{
    if items.len() == 0 {
        Seq::empty()
    } else {
        pad + ser(items[0], pad) + (if items.len() == 1 {
            seq!['\n']
        } else {
            seq![',', '\n']
        }) + ser_items(items.drop_first(), pad)
    }
}

/// Object members, one per line, comma-separated.
pub open spec fn ser_members(es: Seq<(Seq<char>, JsonModel)>, pad: Seq<char>) -> Seq<char>
    decreases model_size_entries(es),
    when model_size_entries(es) >= 0
{
    if es.len() == 0 {
        Seq::empty()
    } else {
        pad + seq!['"'] + escape_string(es[0].0) + seq!['"', ':', ' '] + ser(es[0].1, pad) + (
        if es.len() == 1 {
            seq!['\n']
        } else {
            seq![',', '\n']
        }) + ser_members(es.drop_first(), pad)
    }
}

proof fn lemma_size_seq_bound(items: Seq<JsonModel>, i: int)
    requires
        0 <= i < items.len(),
    ensures
        model_size(items[i]) < model_size_seq(items) + 1,
    decreases items.len(),
{
    if i > 0 {
        lemma_size_seq_bound(items.drop_first(), i - 1);
        assert(items.drop_first()[i - 1] == items[i]);
    }
}

proof fn lemma_size_entries_bound(es: Seq<(Seq<char>, JsonModel)>, i: int)
    requires
        0 <= i < es.len(),
    ensures
        model_size(es[i].1) < model_size_entries(es) + 1,
    decreases es.len(),
{
    if i > 0 {
        lemma_size_entries_bound(es.drop_first(), i - 1);
        assert(es.drop_first()[i - 1] == es[i]);
    }
}

proof fn lemma_size_seq_skip(items: Seq<JsonModel>, i: int)
    requires
        0 <= i <= items.len(),
    ensures
        model_size_seq(items.skip(i)) <= model_size_seq(items),
    decreases i,
{
    if i > 0 {
        lemma_size_seq_skip(items.drop_first(), i - 1);
        assert(items.drop_first().skip(i - 1) =~= items.skip(i));
    } else {
        assert(items.skip(0) =~= items);
    }
}

proof fn lemma_size_entries_skip(es: Seq<(Seq<char>, JsonModel)>, i: int)
    requires
        0 <= i <= es.len(),
    ensures
        model_size_entries(es.skip(i)) <= model_size_entries(es),
    decreases i,
{
    if i > 0 {
        lemma_size_entries_skip(es.drop_first(), i - 1);
        assert(es.drop_first().skip(i - 1) =~= es.skip(i));
    } else {
        assert(es.skip(0) =~= es);
    }
}

/// Appends the characters of `s` to `out`.
fn push_chars(out: &mut Vec<char>, s: &Vec<char>)
    ensures
        final(out)@ == old(out)@ + s@,
{
    let mut i: usize = 0;
    proof {
        assert(old(out)@ + s@.take(0) =~= old(out)@);
    }
    while i < s.len()
        invariant
            i <= s@.len(),
            out@ == old(out)@ + s@.take(i as int),
        decreases s@.len() - i,
    {
        out.push(s[i]);
        proof {
            assert(old(out)@ + s@.take(i + 1) =~= (old(out)@ + s@.take(i as int)).push(
                s@[i as int],
            ));
        }
        i += 1;
    }
    proof {
        assert(s@.take(s@.len() as int) =~= s@);
    }
}

fn hex_digit_exec(n: u32) -> (r: char)
    requires
        n < 16,
    ensures
        r == hex_digit(n as int),
{
    if n == 0 {
        '0'
    } else if n == 1 {
        '1'
    } else if n == 2 {
        '2'
    } else if n == 3 {
        '3'
    } else if n == 4 {
        '4'
    } else if n == 5 {
        '5'
    } else if n == 6 {
        '6'
    } else if n == 7 {
        '7'
    } else if n == 8 {
        '8'
    } else if n == 9 {
        '9'
    } else if n == 10 {
        'a'
    } else if n == 11 {
        'b'
    } else if n == 12 {
        'c'
    } else if n == 13 {
        'd'
    } else if n == 14 {
        'e'
    } else {
        'f'
    }
}

/// Appends one escaped character.
fn push_escaped_char(out: &mut Vec<char>, c: char)
    ensures
        final(out)@ == old(out)@ + escape_char(c),
{
    if c == '"' {
        out.push('\\');
        out.push('"');
        proof {
            assert(out@ =~= old(out)@ + escape_char(c));
        }
    } else if c == '\\' {
        out.push('\\');
        out.push('\\');
        proof {
            assert(out@ =~= old(out)@ + escape_char(c));
        }
    } else if c == '\n' {
        out.push('\\');
        out.push('n');
        proof {
            assert(out@ =~= old(out)@ + escape_char(c));
        }
    } else if c == '\r' {
        out.push('\\');
        out.push('r');
        proof {
            assert(out@ =~= old(out)@ + escape_char(c));
        }
    } else if c == '\t' {
        out.push('\\');
        out.push('t');
        proof {
            assert(out@ =~= old(out)@ + escape_char(c));
        }
    } else if c == '\u{8}' {
        out.push('\\');
        out.push('b');
        proof {
            assert(out@ =~= old(out)@ + escape_char(c));
        }
    } else if c == '\u{c}' {
        out.push('\\');
        out.push('f');
        proof {
            assert(out@ =~= old(out)@ + escape_char(c));
        }
    } else if (c as u32) < 0x20 {
        let u = c as u32;
        proof {
            assert(u < 0x20 ==> (u >> 4) < 16 && (u & 0xf) < 16) by (bit_vector);
        }
        out.push('\\');
        out.push('u');
        out.push('0');
        out.push('0');
        out.push(hex_digit_exec(u >> 4));
        out.push(hex_digit_exec(u & 0xf));
        proof {
            assert(out@ =~= old(out)@ + escape_char(c));
        }
    } else {
        out.push(c);
        proof {
            assert(out@ =~= old(out)@ + escape_char(c));
        }
    }
}

/// Appends a string's characters, escaped.
fn push_escaped(out: &mut Vec<char>, s: &Vec<char>)
    ensures
        final(out)@ == old(out)@ + escape_string(s@),
{
    let mut i: usize = 0;
    proof {
        assert(s@.skip(0) =~= s@);
        assert(old(out)@ + Seq::<char>::empty() =~= old(out)@);
    }
    while i < s.len()
        invariant
            i <= s@.len(),
            out@ + escape_string(s@.skip(i as int)) == old(out)@ + escape_string(s@),
        decreases s@.len() - i,
    {
        let ghost prev = out@;
        proof {
            assert(s@.skip(i as int)[0] == s@[i as int]);
            assert(s@.skip(i as int).drop_first() =~= s@.skip(i + 1));
        }
        push_escaped_char(out, s[i]);
        i += 1;
        proof {
            assert(out@ + escape_string(s@.skip(i as int)) =~= prev + (escape_char(s@[i - 1])
                + escape_string(s@.skip(i as int))));
        }
    }
    proof {
        assert(s@.skip(s@.len() as int) =~= Seq::<char>::empty());
        assert(out@ + Seq::<char>::empty() =~= out@);
    }
}

/// Appends the pretty text of a value.
fn write_value(v: &JsonValue, pad: &Vec<char>, out: &mut Vec<char>)
    ensures
        final(out)@ == old(out)@ + ser(json_view(*v), pad@),
    decreases model_size(json_view(*v)),
{
    proof {
        broadcast use lemma_view_seq_index, lemma_view_members_index;

    }
    match v {
        JsonValue::Null => {
            out.push('n');
            out.push('u');
            out.push('l');
            out.push('l');
            proof {
                assert(out@ =~= old(out)@ + ser(json_view(*v), pad@));
            }
        },
        JsonValue::Bool(b) => {
            if *b {
                out.push('t');
                out.push('r');
                out.push('u');
                out.push('e');
            } else {
                out.push('f');
                out.push('a');
                out.push('l');
                out.push('s');
                out.push('e');
            }
            proof {
                assert(out@ =~= old(out)@ + ser(json_view(*v), pad@));
            }
        },
        JsonValue::Num(s) => {
            push_chars(out, s);
            proof {
                assert(out@ =~= old(out)@ + ser(json_view(*v), pad@));
            }
        },
        JsonValue::Str(s) => {
            out.push('"');
            push_escaped(out, s);
            out.push('"');
            proof {
                assert(out@ =~= old(out)@ + ser(json_view(*v), pad@));
            }
        },
        JsonValue::Arr(items) => {
            if items.len() == 0 {
                out.push('[');
                out.push(']');
                proof {
                    assert(json_view_seq(items@) =~= Seq::<JsonModel>::empty());
                    assert(out@ =~= old(out)@ + ser(json_view(*v), pad@));
                }
            } else {
                proof {
                    assert(json_view(*v) == JsonModel::Arr(json_view_seq(items@)));
                }
                out.push('[');
                out.push('\n');
                let mut pad2 = crate::text::slice_range(pad, 0, pad.len());
                pad2.push(' ');
                pad2.push(' ');
                proof {
                    assert(pad2@ =~= pad@ + seq![' ', ' ']);
                    assert(model_size_seq(json_view_seq(items@).skip(0)) <= model_size_seq(
                        json_view_seq(items@),
                    )) by {
                        assert(json_view_seq(items@).skip(0) =~= json_view_seq(items@));
                    }
                }
                write_items(items, 0, &pad2, out);
                push_chars(out, pad);
                out.push(']');
                proof {
                    assert(json_view_seq(items@).skip(0) =~= json_view_seq(items@));
                    assert(out@ =~= old(out)@ + ser(json_view(*v), pad@));
                }
            }
        },
        JsonValue::Obj(ms) => {
            if ms.len() == 0 {
                out.push('{');
                out.push('}');
                proof {
                    assert(json_view_members(ms@) =~= Seq::<(Seq<char>, JsonModel)>::empty());
                    assert(out@ =~= old(out)@ + ser(json_view(*v), pad@));
                }
            } else {
                proof {
                    assert(json_view(*v) == JsonModel::Obj(json_view_members(ms@)));
                }
                out.push('{');
                out.push('\n');
                let mut pad2 = crate::text::slice_range(pad, 0, pad.len());
                pad2.push(' ');
                pad2.push(' ');
                proof {
                    assert(pad2@ =~= pad@ + seq![' ', ' ']);
                    assert(model_size_entries(json_view_members(ms@).skip(0)) <= model_size_entries(
                        json_view_members(ms@),
                    )) by {
                        assert(json_view_members(ms@).skip(0) =~= json_view_members(ms@));
                    }
                }
                write_members(ms, 0, &pad2, out);
                push_chars(out, pad);
                out.push('}');
                proof {
                    assert(json_view_members(ms@).skip(0) =~= json_view_members(ms@));
                    assert(out@ =~= old(out)@ + ser(json_view(*v), pad@));
                }
            }
        },
    }
}

/// Appends the element lines from index `i` on.
fn write_items(items: &Vec<JsonValue>, i: usize, pad: &Vec<char>, out: &mut Vec<char>)
    requires
        i <= items@.len(),
    ensures
        final(out)@ == old(out)@ + ser_items(json_view_seq(items@).skip(i as int), pad@),
    decreases model_size_seq(json_view_seq(items@).skip(i as int)),
{
    proof {
        broadcast use lemma_view_seq_index;

    }
    if i == items.len() {
        proof {
            assert(json_view_seq(items@).skip(i as int) =~= Seq::<JsonModel>::empty());
            assert(out@ + Seq::<char>::empty() =~= out@);
        }
        return ;
    }
    let ghost rest = json_view_seq(items@).skip(i as int);
    proof {
        assert(rest[0] == json_view_seq(items@)[i as int]);
        assert(rest.drop_first() =~= json_view_seq(items@).skip(i + 1));
        lemma_size_seq_skip(json_view_seq(items@), i as int);
        lemma_size_seq_bound(rest, 0);
    }
    push_chars(out, pad);
    write_value(&items[i], pad, out);
    if i + 1 == items.len() {
        out.push('\n');
    } else {
        out.push(',');
        out.push('\n');
    }
    write_items(items, i + 1, pad, out);
    proof {
        assert(out@ =~= old(out)@ + ser_items(rest, pad@));
    }
}

/// Appends the member lines from index `i` on.
fn write_members(ms: &Vec<JsonMember>, i: usize, pad: &Vec<char>, out: &mut Vec<char>)
    requires
        i <= ms@.len(),
    ensures
        final(out)@ == old(out)@ + ser_members(json_view_members(ms@).skip(i as int), pad@),
    decreases model_size_entries(json_view_members(ms@).skip(i as int)),
{
    proof {
        broadcast use lemma_view_members_index;

    }
    if i == ms.len() {
        proof {
            assert(json_view_members(ms@).skip(i as int) =~= Seq::<(Seq<char>, JsonModel)>::empty());
            assert(out@ + Seq::<char>::empty() =~= out@);
        }
        return ;
    }
    let ghost rest = json_view_members(ms@).skip(i as int);
    proof {
        assert(rest[0] == json_view_members(ms@)[i as int]);
        assert(rest.drop_first() =~= json_view_members(ms@).skip(i + 1));
        lemma_size_entries_skip(json_view_members(ms@), i as int);
        lemma_size_entries_bound(rest, 0);
    }
    push_chars(out, pad);
    out.push('"');
    push_escaped(out, &ms[i].key);
    out.push('"');
    out.push(':');
    out.push(' ');
    write_value(&ms[i].value, pad, out);
    if i + 1 == ms.len() {
        out.push('\n');
    } else {
        out.push(',');
        out.push('\n');
    }
    write_members(ms, i + 1, pad, out);
    proof {
        assert(out@ =~= old(out)@ + ser_members(rest, pad@));
    }
}

/// The pretty text of a whole document.
pub fn to_pretty_text(v: &JsonValue) -> (r: Vec<char>)
    ensures
        r@ == ser(json_view(*v), Seq::<char>::empty()),
{
    let mut out: Vec<char> = Vec::new();
    let pad: Vec<char> = Vec::new();
    write_value(v, &pad, &mut out);
    proof {
        assert(Seq::<char>::empty() + ser(json_view(*v), pad@) =~= ser(
            json_view(*v),
            Seq::<char>::empty(),
        ));
    }
    out
}

} // verus!
