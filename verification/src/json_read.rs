//! Parsing JSON text into a document.
//!
//! A plain recursive-descent reader.  The whole grammar is stated by the
//! specification functions below (`sp_parse_text` and its helpers), and the
//! executable reader is proved to return exactly what they say.  Numbers are
//! kept as their literal text; string escapes cover the short forms
//! (`\" \\ \/ \n \r \t \b \f`); `\u` escapes are not accepted, raw control
//! characters in strings are refused, and nesting is bounded by the fuel,
//! which the entry point sets well above any input the text could need.

use vstd::prelude::*;

use crate::json::JsonMember;
use crate::json::JsonModel;
use crate::json::JsonValue;
use crate::json::json_view;
use crate::json::json_view_members;
use crate::json::json_view_seq;
use crate::json::lemma_view_members_index;
use crate::json::lemma_view_seq_index;
use crate::json::model_has_key;
use crate::json::find_key;
use crate::text::is_space;

verus! {

/// Why a text was refused.
#[derive(Clone, Copy, Debug, PartialEq, Eq, Structural)]
pub enum ParseError {
    UnexpectedEnd,
    UnexpectedChar,
    BadEscape,
    TooDeep,
    TrailingCharacters,
}

/// First position at or after `i` holding a non-space character.
pub open spec fn sp_skip_ws(s: Seq<char>, i: int) -> int
    decreases s.len() - i,
    when 0 <= i <= s.len()
{
    if i < s.len() && is_space(s[i]) {
        sp_skip_ws(s, i + 1)
    } else {
        i
    }
}

pub proof fn lemma_skip_ws(s: Seq<char>, i: int)
    requires
        0 <= i <= s.len(),
    ensures
        i <= sp_skip_ws(s, i) <= s.len(),
        sp_skip_ws(s, i) < s.len() ==> !is_space(s[sp_skip_ws(s, i)]),
    decreases s.len() - i,
{
    if i < s.len() && is_space(s[i]) {
        lemma_skip_ws(s, i + 1);
    }
}

/// Characters a number literal is made of.
pub open spec fn is_number_char(c: char) -> bool {
    ('0' <= c && c <= '9') || c == '-' || c == '+' || c == '.' || c == 'e' || c == 'E'
}

/// End of the number literal starting at `i`.
pub open spec fn sp_number_end(s: Seq<char>, i: int) -> int
    decreases s.len() - i,
    when 0 <= i <= s.len()
{
    if i < s.len() && is_number_char(s[i]) {
        sp_number_end(s, i + 1)
    } else {
        i
    }
}

pub proof fn lemma_number_end(s: Seq<char>, i: int)
    requires
        0 <= i <= s.len(),
    ensures
        i <= sp_number_end(s, i) <= s.len(),
    decreases s.len() - i,
{
    if i < s.len() && is_number_char(s[i]) {
        lemma_number_end(s, i + 1);
    }
}

/// The character an escape stands for, if the escape is accepted.
pub open spec fn sp_unescape(c: char) -> Option<char> {
    if c == '"' {
        Option::Some('"')
    } else if c == '\\' {
        Option::Some('\\')
    } else if c == '/' {
        Option::Some('/')
    } else if c == 'n' {
        Option::Some('\n')
    } else if c == 'r' {
        Option::Some('\r')
    } else if c == 't' {
        Option::Some('\t')
    } else if c == 'b' {
        Option::Some('\u{8}')
    } else if c == 'f' {
        Option::Some('\u{c}')
    } else {
        Option::None
    }
}

/// Reads a string body, `i` standing just after the opening quote; yields
/// the decoded characters and the position after the closing quote.
pub open spec fn sp_parse_string(s: Seq<char>, i: int, fuel: nat) -> Result<
    (Seq<char>, int),
    ParseError,
>
    decreases fuel,
{
    if fuel == 0 {
        Result::Err(ParseError::TooDeep)
    } else if !(0 <= i < s.len()) {
        Result::Err(ParseError::UnexpectedEnd)
    } else if s[i] == '"' {
        Result::Ok((Seq::empty(), i + 1))
    } else if s[i] == '\\' {
        if !(i + 1 < s.len()) {
            Result::Err(ParseError::UnexpectedEnd)
        } else {
            match sp_unescape(s[i + 1]) {
                Option::Some(c) => match sp_parse_string(s, i + 2, (fuel - 1) as nat) {
                    Result::Ok((rest, j)) => Result::Ok((seq![c] + rest, j)),
                    Result::Err(e) => Result::Err(e),
                },
                Option::None => Result::Err(ParseError::BadEscape),
            }
        }
    } else if (s[i] as u32) < 0x20 {
        Result::Err(ParseError::UnexpectedChar)
    } else {
        match sp_parse_string(s, i + 1, (fuel - 1) as nat) {
            Result::Ok((rest, j)) => Result::Ok((seq![s[i]] + rest, j)),
            Result::Err(e) => Result::Err(e),
        }
    }
}

/// Reads one value, skipping leading whitespace.
pub open spec fn sp_parse_value(s: Seq<char>, i0: int, fuel: nat) -> Result<
    (JsonModel, int),
    ParseError,
>
    decreases fuel,
    when 0 <= i0 <= s.len()
{
    if fuel == 0 {
        Result::Err(ParseError::TooDeep)
    } else {
        let i = sp_skip_ws(s, i0);
        if !(i < s.len()) {
            Result::Err(ParseError::UnexpectedEnd)
        } else if s[i] == 'n' {
            if crate::text::matches_at(s, i, seq!['n', 'u', 'l', 'l']) {
                Result::Ok((JsonModel::Null, i + 4))
            } else {
                Result::Err(ParseError::UnexpectedChar)
            }
        } else if s[i] == 't' {
            if crate::text::matches_at(s, i, seq!['t', 'r', 'u', 'e']) {
                Result::Ok((JsonModel::Bool(true), i + 4))
            } else {
                Result::Err(ParseError::UnexpectedChar)
            }
        } else if s[i] == 'f' {
            if crate::text::matches_at(s, i, seq!['f', 'a', 'l', 's', 'e']) {
                Result::Ok((JsonModel::Bool(false), i + 5))
            } else {
                Result::Err(ParseError::UnexpectedChar)
            }
        } else if s[i] == '"' {
            match sp_parse_string(s, i + 1, (fuel - 1) as nat) {
                Result::Ok((cs, j)) => Result::Ok((JsonModel::Str(cs), j)),
                Result::Err(e) => Result::Err(e),
            }
        } else if s[i] == '[' {
            let j = sp_skip_ws(s, i + 1);
            if j < s.len() && s[j] == ']' {
                Result::Ok((JsonModel::Arr(Seq::empty()), j + 1))
            } else {
                match sp_parse_elements(s, i + 1, (fuel - 1) as nat) {
                    Result::Ok((items, j2)) => Result::Ok((JsonModel::Arr(items), j2)),
                    Result::Err(e) => Result::Err(e),
                }
            }
        } else if s[i] == '{' {
            let j = sp_skip_ws(s, i + 1);
            if j < s.len() && s[j] == '}' {
                Result::Ok((JsonModel::Obj(Seq::empty()), j + 1))
            } else {
                match sp_parse_members(s, i + 1, (fuel - 1) as nat) {
                    Result::Ok((es, j2)) => Result::Ok((JsonModel::Obj(es), j2)),
                    Result::Err(e) => Result::Err(e),
                }
            }
        } else if s[i] == '-' || ('0' <= s[i] && s[i] <= '9') {
            let e = sp_number_end(s, i);
            Result::Ok((JsonModel::Num(s.subrange(i, e)), e))
        } else {
            Result::Err(ParseError::UnexpectedChar)
        }
    }
}

/// Reads the elements of a non-empty array, `i` standing after `[` or `,`.
pub open spec fn sp_parse_elements(s: Seq<char>, i: int, fuel: nat) -> Result<
    (Seq<JsonModel>, int),
    ParseError,
>
    decreases fuel,
    when 0 <= i <= s.len()
{
    if fuel == 0 {
        Result::Err(ParseError::TooDeep)
    } else {
        match sp_parse_value(s, i, (fuel - 1) as nat) {
            Result::Ok((v, j)) => {
                let j2 = sp_skip_ws(s, if j < 0 {
                    0
                } else if j > s.len() {
                    s.len() as int
                } else {
                    j
                });
                if !(j2 < s.len()) {
                    Result::Err(ParseError::UnexpectedEnd)
                } else if s[j2] == ']' {
                    Result::Ok((seq![v], j2 + 1))
                } else if s[j2] == ',' {
                    match sp_parse_elements(s, j2 + 1, (fuel - 1) as nat) {
                        Result::Ok((rest, j3)) => Result::Ok((seq![v] + rest, j3)),
                        Result::Err(e) => Result::Err(e),
                    }
                } else {
                    Result::Err(ParseError::UnexpectedChar)
                }
            },
            Result::Err(e) => Result::Err(e),
        }
    }
}

/// Reads the members of a non-empty object, `i` standing after `{` or `,`.
/// Under one key the later value wins, at the later position, as a map
/// filled by repeated insertion keeps it.
pub open spec fn sp_parse_members(s: Seq<char>, i: int, fuel: nat) -> Result<
    (Seq<(Seq<char>, JsonModel)>, int),
    ParseError,
>
    decreases fuel,
    when 0 <= i <= s.len()
{
    if fuel == 0 {
        Result::Err(ParseError::TooDeep)
    } else {
        let j = sp_skip_ws(s, i);
        if !(j < s.len()) {
            Result::Err(ParseError::UnexpectedEnd)
        } else if s[j] != '"' {
            Result::Err(ParseError::UnexpectedChar)
        } else {
            match sp_parse_string(s, j + 1, (fuel - 1) as nat) {
                Result::Ok((key, j2)) => {
                    let j3 = sp_skip_ws(s, if j2 < 0 {
                        0
                    } else if j2 > s.len() {
                        s.len() as int
                    } else {
                        j2
                    });
                    if !(j3 < s.len()) {
                        Result::Err(ParseError::UnexpectedEnd)
                    } else if s[j3] != ':' {
                        Result::Err(ParseError::UnexpectedChar)
                    } else {
                        match sp_parse_value(s, j3 + 1, (fuel - 1) as nat) {
                            Result::Ok((v, j4)) => {
                                let j5 = sp_skip_ws(s, if j4 < 0 {
                                    0
                                } else if j4 > s.len() {
                                    s.len() as int
                                } else {
                                    j4
                                });
                                if !(j5 < s.len()) {
                                    Result::Err(ParseError::UnexpectedEnd)
                                } else if s[j5] == '}' {
                                    Result::Ok((seq![(key, v)], j5 + 1))
                                } else if s[j5] == ',' {
                                    match sp_parse_members(s, j5 + 1, (fuel - 1) as nat) {
                                        Result::Ok((rest, j6)) => Result::Ok(
                                            (
                                                if model_has_key(rest, key) {
                                                    rest
                                                } else {
                                                    seq![(key, v)] + rest
                                                },
                                                j6,
                                            ),
                                        ),
                                        Result::Err(e) => Result::Err(e),
                                    }
                                } else {
                                    Result::Err(ParseError::UnexpectedChar)
                                }
                            },
                            Result::Err(e) => Result::Err(e),
                        }
                    }
                },
                Result::Err(e) => Result::Err(e),
            }
        }
    }
}

/// The fuel the entry point grants; far above what any text can use.
pub open spec fn sp_fuel(s: Seq<char>) -> nat {
    if s.len() <= usize::MAX - 8 {
        s.len() + 8
    } else {
        usize::MAX as nat
    }
}

/// Reads a whole text: one value, with nothing but whitespace after it.
pub open spec fn sp_parse_text(s: Seq<char>) -> Result<JsonModel, ParseError> {
    match sp_parse_value(s, 0, sp_fuel(s)) {
        Result::Ok((m, j)) => {
            let j2 = sp_skip_ws(s, if j < 0 {
                0
            } else if j > s.len() {
                s.len() as int
            } else {
                j
            });
            if j2 == s.len() {
                Result::Ok(m)
            } else {
                Result::Err(ParseError::TrailingCharacters)
            }
        },
        Result::Err(e) => Result::Err(e),
    }
}


pub proof fn lemma_parse_string_bounds(s: Seq<char>, i: int, fuel: nat)
    requires
        0 <= i <= s.len(),
    ensures
        match sp_parse_string(s, i, fuel) {
            Result::Ok((cs, j)) => i < j <= s.len(),
            Result::Err(_) => true,
        },
    decreases fuel,
{
    if fuel > 0 && i < s.len() && s[i] == '\\' && i + 1 < s.len() && sp_unescape(s[i + 1])
        is Some {
        lemma_parse_string_bounds(s, i + 2, (fuel - 1) as nat);
    } else if fuel > 0 && i < s.len() && s[i] != '"' && s[i] != '\\' && (s[i] as u32) >= 0x20 {
        lemma_parse_string_bounds(s, i + 1, (fuel - 1) as nat);
    }
}

pub proof fn lemma_parse_value_bounds(s: Seq<char>, i0: int, fuel: nat)
    requires
        0 <= i0 <= s.len(),
    ensures
        match sp_parse_value(s, i0, fuel) {
            Result::Ok((m, j)) => 0 <= j <= s.len(),
            Result::Err(_) => true,
        },
    decreases fuel,
{
    if fuel > 0 {
        let i = sp_skip_ws(s, i0);
        lemma_skip_ws(s, i0);
        if i < s.len() {
            if s[i] == '"' {
                lemma_parse_string_bounds(s, i + 1, (fuel - 1) as nat);
            } else if s[i] == '[' {
                lemma_skip_ws(s, i + 1);
                lemma_parse_elements_bounds(s, i + 1, (fuel - 1) as nat);
            } else if s[i] == '{' {
                lemma_skip_ws(s, i + 1);
                lemma_parse_members_bounds(s, i + 1, (fuel - 1) as nat);
            } else if s[i] == '-' || ('0' <= s[i] && s[i] <= '9') {
                lemma_number_end(s, i);
            }
        }
    }
}

pub proof fn lemma_parse_elements_bounds(s: Seq<char>, i: int, fuel: nat)
    requires
        0 <= i <= s.len(),
    ensures
        match sp_parse_elements(s, i, fuel) {
            Result::Ok((items, j)) => 0 <= j <= s.len(),
            Result::Err(_) => true,
        },
    decreases fuel,
{
    if fuel > 0 {
        lemma_parse_value_bounds(s, i, (fuel - 1) as nat);
        match sp_parse_value(s, i, (fuel - 1) as nat) {
            Result::Ok((v, j)) => {
                lemma_skip_ws(s, j);
                let j2 = sp_skip_ws(s, j);
                if j2 < s.len() && s[j2] == ',' {
                    lemma_parse_elements_bounds(s, j2 + 1, (fuel - 1) as nat);
                }
            },
            Result::Err(_) => {},
        }
    }
}

pub proof fn lemma_parse_members_bounds(s: Seq<char>, i: int, fuel: nat)
    requires
        0 <= i <= s.len(),
    ensures
        match sp_parse_members(s, i, fuel) {
            Result::Ok((es, j)) => 0 <= j <= s.len(),
            Result::Err(_) => true,
        },
    decreases fuel,
{
    if fuel > 0 {
        let j = sp_skip_ws(s, i);
        lemma_skip_ws(s, i);
        if j < s.len() && s[j] == '"' {
            lemma_parse_string_bounds(s, j + 1, (fuel - 1) as nat);
            match sp_parse_string(s, j + 1, (fuel - 1) as nat) {
                Result::Ok((key, j2)) => {
                    lemma_skip_ws(s, j2);
                    let j3 = sp_skip_ws(s, j2);
                    if j3 < s.len() && s[j3] == ':' {
                        lemma_parse_value_bounds(s, j3 + 1, (fuel - 1) as nat);
                        match sp_parse_value(s, j3 + 1, (fuel - 1) as nat) {
                            Result::Ok((v, j4)) => {
                                lemma_skip_ws(s, j4);
                                let j5 = sp_skip_ws(s, j4);
                                if j5 < s.len() && s[j5] == ',' {
                                    lemma_parse_members_bounds(s, j5 + 1, (fuel - 1) as nat);
                                }
                            },
                            Result::Err(_) => {},
                        }
                    }
                },
                Result::Err(_) => {},
            }
        }
    }
}


fn skip_ws_exec(s: &Vec<char>, i: usize) -> (r: usize)
    requires
        i <= s@.len(),
    ensures
        r as int == sp_skip_ws(s@, i as int),
        i <= r <= s@.len(),
{
    let mut j = i;
    while j < s.len() && crate::text::is_space_exec(s[j])
        invariant
            i <= j <= s@.len(),
            sp_skip_ws(s@, i as int) == sp_skip_ws(s@, j as int),
        decreases s@.len() - j,
    {
        j += 1;
    }
    j
}

fn number_end_exec(s: &Vec<char>, i: usize) -> (r: usize)
    requires
        i <= s@.len(),
    ensures
        r as int == sp_number_end(s@, i as int),
        i <= r <= s@.len(),
{
    let mut j = i;
    while j < s.len() && is_number_char_exec(s[j])
        invariant
            i <= j <= s@.len(),
            sp_number_end(s@, i as int) == sp_number_end(s@, j as int),
        decreases s@.len() - j,
    {
        j += 1;
    }
    j
}

fn is_number_char_exec(c: char) -> (r: bool)
    ensures
        r == is_number_char(c),
{
    ('0' <= c && c <= '9') || c == '-' || c == '+' || c == '.' || c == 'e' || c == 'E'
}

fn unescape_exec(c: char) -> (r: Option<char>)
    ensures
        r == sp_unescape(c),
{
    if c == '"' {
        Option::Some('"')
    } else if c == '\\' {
        Option::Some('\\')
    } else if c == '/' {
        Option::Some('/')
    } else if c == 'n' {
        Option::Some('\n')
    } else if c == 'r' {
        Option::Some('\r')
    } else if c == 't' {
        Option::Some('\t')
    } else if c == 'b' {
        Option::Some('\u{8}')
    } else if c == 'f' {
        Option::Some('\u{c}')
    } else {
        Option::None
    }
}

fn parse_string_exec(s: &Vec<char>, i: usize, fuel: usize) -> (r: Result<
    (Vec<char>, usize),
    ParseError,
>)
    requires
        i <= s@.len(),
    ensures
        ({
            let sp = sp_parse_string(s@, i as int, fuel as nat);
            match r {
                Result::Ok((cs, j)) => sp == Result::<(Seq<char>, int), ParseError>::Ok(
                    (cs@, j as int),
                ) && j <= s@.len(),
                Result::Err(e) => sp == Result::<(Seq<char>, int), ParseError>::Err(e),
            }
        }),
    decreases fuel,
{
    if fuel == 0 {
        return Result::Err(ParseError::TooDeep);
    }
    if i >= s.len() {
        return Result::Err(ParseError::UnexpectedEnd);
    }
    let c = s[i];
    if c == '"' {
        let empty: Vec<char> = Vec::new();
        proof {
            assert(empty@ =~= Seq::<char>::empty());
        }
        return Result::Ok((empty, i + 1));
    }
    if c == '\\' {
        if i + 1 >= s.len() {
            return Result::Err(ParseError::UnexpectedEnd);
        }
        match unescape_exec(s[i + 1]) {
            Option::Some(ec) => {
                match parse_string_exec(s, i + 2, fuel - 1) {
                    Result::Ok((rest, j)) => {
                        let mut out: Vec<char> = Vec::new();
                        out.push(ec);
                        let mut rest2 = rest;
                        let ghost grest = rest2@;
                        out.append(&mut rest2);
                        proof {
                            assert(out@ =~= seq![sp_unescape(s@[i + 1])->0] + grest);
                        }
                        Result::Ok((out, j))
                    },
                    Result::Err(e) => Result::Err(e),
                }
            },
            Option::None => Result::Err(ParseError::BadEscape),
        }
    } else if (c as u32) < 0x20 {
        Result::Err(ParseError::UnexpectedChar)
    } else {
        match parse_string_exec(s, i + 1, fuel - 1) {
            Result::Ok((rest, j)) => {
                let mut out: Vec<char> = Vec::new();
                out.push(c);
                let mut rest2 = rest;
                let ghost grest = rest2@;
                out.append(&mut rest2);
                proof {
                    assert(out@ =~= seq![s@[i as int]] + grest);
                }
                Result::Ok((out, j))
            },
            Result::Err(e) => Result::Err(e),
        }
    }
}

/// Does `s` hold `lit`'s characters starting at `i`?
fn matches_lit(s: &Vec<char>, i: usize, lit: &str) -> (r: bool)
    ensures
        r == crate::text::matches_at(s@, i as int, lit@),
{
    let lit_chars = crate::text::chars_of(lit);
    crate::text::has_match_at(s, i, &lit_chars)
}

fn parse_value_exec(s: &Vec<char>, i0: usize, fuel: usize) -> (r: Result<
    (JsonValue, usize),
    ParseError,
>)
    requires
        i0 <= s@.len(),
    ensures
        ({
            let sp = sp_parse_value(s@, i0 as int, fuel as nat);
            match r {
                Result::Ok((v, j)) => sp == Result::<(JsonModel, int), ParseError>::Ok(
                    (json_view(v), j as int),
                ) && j <= s@.len(),
                Result::Err(e) => sp == Result::<(JsonModel, int), ParseError>::Err(e),
            }
        }),
    decreases fuel,
{
    if fuel == 0 {
        return Result::Err(ParseError::TooDeep);
    }
    let i = skip_ws_exec(s, i0);
    if i >= s.len() {
        return Result::Err(ParseError::UnexpectedEnd);
    }
    let c = s[i];
    if c == 'n' {
        proof {
            reveal_strlit("null");
        }
        if matches_lit(s, i, "null") {
            proof {
                assert("null"@ =~= seq!['n', 'u', 'l', 'l']);
            }
            Result::Ok((JsonValue::Null, i + 4))
        } else {
            proof {
                assert("null"@ =~= seq!['n', 'u', 'l', 'l']);
            }
            Result::Err(ParseError::UnexpectedChar)
        }
    } else if c == 't' {
        proof {
            reveal_strlit("true");
        }
        if matches_lit(s, i, "true") {
            proof {
                assert("true"@ =~= seq!['t', 'r', 'u', 'e']);
            }
            Result::Ok((JsonValue::Bool(true), i + 4))
        } else {
            proof {
                assert("true"@ =~= seq!['t', 'r', 'u', 'e']);
            }
            Result::Err(ParseError::UnexpectedChar)
        }
    } else if c == 'f' {
        proof {
            reveal_strlit("false");
        }
        if matches_lit(s, i, "false") {
            proof {
                assert("false"@ =~= seq!['f', 'a', 'l', 's', 'e']);
            }
            Result::Ok((JsonValue::Bool(false), i + 5))
        } else {
            proof {
                assert("false"@ =~= seq!['f', 'a', 'l', 's', 'e']);
            }
            Result::Err(ParseError::UnexpectedChar)
        }
    } else if c == '"' {
        match parse_string_exec(s, i + 1, fuel - 1) {
            Result::Ok((cs, j)) => Result::Ok((JsonValue::Str(cs), j)),
            Result::Err(e) => Result::Err(e),
        }
    } else if c == '[' {
        let j = skip_ws_exec(s, i + 1);
        if j < s.len() && s[j] == ']' {
            let items: Vec<JsonValue> = Vec::new();
            proof {
                assert(json_view_seq(items@) =~= Seq::<JsonModel>::empty());
            }
            Result::Ok((JsonValue::Arr(items), j + 1))
        } else {
            match parse_elements_exec(s, i + 1, fuel - 1) {
                Result::Ok((items, j2)) => Result::Ok((JsonValue::Arr(items), j2)),
                Result::Err(e) => Result::Err(e),
            }
        }
    } else if c == '{' {
        let j = skip_ws_exec(s, i + 1);
        if j < s.len() && s[j] == '}' {
            let ms: Vec<JsonMember> = Vec::new();
            proof {
                assert(json_view_members(ms@) =~= Seq::<(Seq<char>, JsonModel)>::empty());
            }
            Result::Ok((JsonValue::Obj(ms), j + 1))
        } else {
            match parse_members_exec(s, i + 1, fuel - 1) {
                Result::Ok((ms, j2)) => Result::Ok((JsonValue::Obj(ms), j2)),
                Result::Err(e) => Result::Err(e),
            }
        }
    } else if c == '-' || ('0' <= c && c <= '9') {
        let e = number_end_exec(s, i);
        let lexeme = crate::text::slice_range(s, i, e);
        Result::Ok((JsonValue::Num(lexeme), e))
    } else {
        Result::Err(ParseError::UnexpectedChar)
    }
}

fn parse_elements_exec(s: &Vec<char>, i: usize, fuel: usize) -> (r: Result<
    (Vec<JsonValue>, usize),
    ParseError,
>)
    requires
        i <= s@.len(),
    ensures
        ({
            let sp = sp_parse_elements(s@, i as int, fuel as nat);
            match r {
                Result::Ok((items, j)) => sp == Result::<(Seq<JsonModel>, int), ParseError>::Ok(
                    (json_view_seq(items@), j as int),
                ) && j <= s@.len(),
                Result::Err(e) => sp == Result::<(Seq<JsonModel>, int), ParseError>::Err(e),
            }
        }),
    decreases fuel,
{
    proof {
        broadcast use lemma_view_seq_index;

    }
    if fuel == 0 {
        return Result::Err(ParseError::TooDeep);
    }
    match parse_value_exec(s, i, fuel - 1) {
        Result::Ok((v, j)) => {
            let j2 = skip_ws_exec(s, j);
            if j2 >= s.len() {
                return Result::Err(ParseError::UnexpectedEnd);
            }
            let c = s[j2];
            if c == ']' {
                let mut items: Vec<JsonValue> = Vec::new();
                items.push(v);
                proof {
                    assert(json_view_seq(items@) =~= seq![json_view(v)]);
                }
                Result::Ok((items, j2 + 1))
            } else if c == ',' {
                match parse_elements_exec(s, j2 + 1, fuel - 1) {
                    Result::Ok((rest, j3)) => {
                        let ghost grest = rest@;
                        let mut items: Vec<JsonValue> = Vec::new();
                        items.push(v);
                        let mut rest2 = rest;
                        items.append(&mut rest2);
                        proof {
                            assert(items@ =~= seq![v] + grest);
                            assert(json_view_seq(items@) =~= seq![json_view(v)] + json_view_seq(
                                grest,
                            ));
                        }
                        Result::Ok((items, j3))
                    },
                    Result::Err(e) => Result::Err(e),
                }
            } else {
                Result::Err(ParseError::UnexpectedChar)
            }
        },
        Result::Err(e) => Result::Err(e),
    }
}

fn parse_members_exec(s: &Vec<char>, i: usize, fuel: usize) -> (r: Result<
    (Vec<JsonMember>, usize),
    ParseError,
>)
    requires
        i <= s@.len(),
    ensures
        ({
            let sp = sp_parse_members(s@, i as int, fuel as nat);
            match r {
                Result::Ok((ms, j)) => sp == Result::<
                    (Seq<(Seq<char>, JsonModel)>, int),
                    ParseError,
                >::Ok((json_view_members(ms@), j as int)) && j <= s@.len(),
                Result::Err(e) => sp == Result::<
                    (Seq<(Seq<char>, JsonModel)>, int),
                    ParseError,
                >::Err(e),
            }
        }),
    decreases fuel,
{
    proof {
        broadcast use lemma_view_members_index;

    }
    if fuel == 0 {
        return Result::Err(ParseError::TooDeep);
    }
    let j = skip_ws_exec(s, i);
    if j >= s.len() {
        return Result::Err(ParseError::UnexpectedEnd);
    }
    if s[j] != '"' {
        return Result::Err(ParseError::UnexpectedChar);
    }
    match parse_string_exec(s, j + 1, fuel - 1) {
        Result::Ok((key, j2)) => {
            let j3 = skip_ws_exec(s, j2);
            if j3 >= s.len() {
                return Result::Err(ParseError::UnexpectedEnd);
            }
            if s[j3] != ':' {
                return Result::Err(ParseError::UnexpectedChar);
            }
            match parse_value_exec(s, j3 + 1, fuel - 1) {
                Result::Ok((v, j4)) => {
                    let j5 = skip_ws_exec(s, j4);
                    if j5 >= s.len() {
                        return Result::Err(ParseError::UnexpectedEnd);
                    }
                    let c = s[j5];
                    if c == '}' {
                        let mut ms: Vec<JsonMember> = Vec::new();
                        ms.push(JsonMember { key, value: v });
                        proof {
                            assert(json_view_members(ms@) =~= seq![
                                (ms@[0].key@, json_view(ms@[0].value)),
                            ]);
                        }
                        Result::Ok((ms, j5 + 1))
                    } else if c == ',' {
                        match parse_members_exec(s, j5 + 1, fuel - 1) {
                            Result::Ok((rest, j6)) => {
                                let has = find_key(&rest, &key);
                                proof {
                                    crate::json::lemma_model_key_index(
                                        json_view_members(rest@),
                                        key@,
                                    );
                                }
                                match has {
                                    Option::Some(_) => {
                                        Result::Ok((rest, j6))
                                    },
                                    Option::None => {
                                        let ghost grest = rest@;
                                        let mut ms = rest;
                                        ms.insert(0, JsonMember { key, value: v });
                                        proof {
                                            assert(ms@ =~= seq![ms@[0]] + grest);
                                            assert(json_view_members(ms@) =~= seq![
                                                (ms@[0].key@, json_view(ms@[0].value)),
                                            ] + json_view_members(grest));
                                        }
                                        Result::Ok((ms, j6))
                                    },
                                }
                            },
                            Result::Err(e) => Result::Err(e),
                        }
                    } else {
                        Result::Err(ParseError::UnexpectedChar)
                    }
                },
                Result::Err(e) => Result::Err(e),
            }
        },
        Result::Err(e) => Result::Err(e),
    }
}

/// Reads a whole text into a document.
pub fn parse_text(text: &Vec<char>) -> (r: Result<JsonValue, ParseError>)
    ensures
        ({
            let sp = sp_parse_text(text@);
            match r {
                Result::Ok(v) => sp == Result::<JsonModel, ParseError>::Ok(json_view(v)),
                Result::Err(e) => sp == Result::<JsonModel, ParseError>::Err(e),
            }
        }),
{
    let fuel: usize = if text.len() <= usize::MAX - 8 {
        text.len() + 8
    } else {
        usize::MAX
    };
    proof {
        assert(fuel as nat == sp_fuel(text@));
    }
    match parse_value_exec(text, 0, fuel) {
        Result::Ok((v, j)) => {
            let j2 = skip_ws_exec(text, j);
            if j2 == text.len() {
                Result::Ok(v)
            } else {
                Result::Err(ParseError::TrailingCharacters)
            }
        },
        Result::Err(e) => Result::Err(e),
    }
}

} // verus!
