//! Version comparison for the upgrade notice.
//!
//! The tool prints a boxed notice when the published version is newer than
//! the running one.  The decision itself is pure: split both version strings
//! on `.`, read each component as a decimal integer (unparsable or
//! out-of-range components count as 0), and compare the components in
//! order: the first position where they differ decides, and the notice is
//! due exactly when the latest version is greater there.  The box drawing
//! and printing stay outside the library; the
//! width computation for the box is here.

use vstd::prelude::*;

use crate::text::chars_of;
use crate::text::split_on;
use crate::text::split_on_exec;

verus! {

/// A character in the CJK unified ideograph range is rendered two columns
/// wide by the terminals this tool targets.
pub open spec fn spec_is_chinese(c: char) -> bool {
    0x4e00 <= c as u32 && c as u32 <= 0x9fa5
}

pub fn is_chinese(c: char) -> (r: bool)
    ensures
        r == spec_is_chinese(c),
{
    let u = c as u32;
    0x4e00 <= u && u <= 0x9fa5
}

/// Display width of one character: 2 columns for CJK, 1 otherwise.
pub open spec fn char_width(c: char) -> nat {
    if spec_is_chinese(c) {
        2
    } else {
        1
    }
}

/// Display width of a string: the sum of its characters' widths.
pub open spec fn display_width(s: Seq<char>) -> nat
    decreases s.len(),
{
    if s.len() == 0 {
        0
    } else {
        display_width(s.drop_last()) + char_width(s.last())
    }
}

pub fn get_string_length(s: &str) -> (len: usize)
    requires
        s@.len() <= usize::MAX / 2,
    ensures
        len == display_width(s@),
{
    let n = s.unicode_len();
    let mut len: usize = 0;
    let mut i: usize = 0;
    while i < n
        invariant
            i <= n,
            n == s@.len(),
            n <= usize::MAX / 2,
            len == display_width(s@.take(i as int)),
            len <= 2 * i,
        decreases n - i,
    {
        let c = s.get_char(i);
        proof {
            assert(s@.take(i + 1).drop_last() =~= s@.take(i as int));
            assert(s@.take(i + 1).last() == s@[i as int]);
        }
        if is_chinese(c) {
            len += 2;
        } else {
            len += 1;
        }
        i += 1;
    }
    proof {
        assert(s@.take(n as int) =~= s@);
    }
    len
}

/// Decimal digits.
pub open spec fn spec_is_digit(c: char) -> bool {
    '0' <= c && c <= '9'
}

pub open spec fn digit_val(c: char) -> int {
    c as u32 - '0' as u32
}

/// Value of a digit string read in base 10.
pub open spec fn digits_val(s: Seq<char>) -> int
    decreases s.len(),
{
    if s.len() == 0 {
        0
    } else {
        digits_val(s.drop_last()) * 10 + digit_val(s.last())
    }
}

pub open spec fn all_digits(s: Seq<char>) -> bool {
    forall|i: int| 0 <= i < s.len() ==> spec_is_digit(s[i])
}

pub open spec fn sign_of(s: Seq<char>) -> int {
    if s.len() > 0 && s[0] == '-' {
        -1
    } else {
        1
    }
}

pub open spec fn number_body(s: Seq<char>) -> Seq<char> {
    if s.len() > 0 && (s[0] == '-' || s[0] == '+') {
        s.drop_first()
    } else {
        s
    }
}

/// The value a version component contributes: the string read as a signed
/// 32-bit decimal integer, or 0 where it is empty, holds a non-digit, or
/// overflows, as `str::parse::<i32>` with a fallback of 0 behaves.
pub open spec fn component_value(s: Seq<char>) -> int {
    let body = number_body(s);
    if body.len() > 0 && all_digits(body) && i32::MIN <= sign_of(s) * digits_val(body) && sign_of(s)
        * digits_val(body) <= i32::MAX {
        sign_of(s) * digits_val(body)
    } else {
        0
    }
}

/// The component values of a dotted version string.
pub open spec fn version_components(s: Seq<char>) -> Seq<int> {
    split_on(s, '.').map(|i: int, p: Seq<char>| component_value(p))
}

/// The upgrade notice is shown when, at the first position where the two
/// versions' components differ, the latest version's component is the
/// greater one; extra components of the longer version are not compared.
pub open spec fn spec_needs_notice(cur: Seq<char>, latest: Seq<char>) -> bool {
    let c = version_components(cur);
    let l = version_components(latest);
    exists|i: int|
        0 <= i < c.len() && i < l.len() && c[i] < l[i] && (forall|j: int|
            0 <= j < i ==> c[j] == l[j])
}

proof fn lemma_digits_val_nonneg(s: Seq<char>)
    requires
        all_digits(s),
    ensures
        digits_val(s) >= 0,
    decreases s.len(),
{
    if s.len() > 0 {
        assert(all_digits(s.drop_last()));
        lemma_digits_val_nonneg(s.drop_last());
    }
}

fn is_digit_exec(c: char) -> (r: bool)
    ensures
        r == spec_is_digit(c),
{
    '0' <= c && c <= '9'
}

/// Reads one version component, yielding 0 for anything that is not a plain
/// in-range signed decimal number.
pub fn parse_component(part: &Vec<char>) -> (v: i32)
    ensures
        v as int == component_value(part@),
{
    let ghost body = number_body(part@);
    let start: usize = if part.len() > 0 && (part[0] == '-' || part[0] == '+') {
        1
    } else {
        0
    };
    let neg: bool = part.len() > 0 && part[0] == '-';
    proof {
        assert(body =~= part@.skip(start as int));
    }
    if part.len() == start {
        return 0;
    }
    let mut acc: i64 = 0;
    let mut too_big: bool = false;
    let mut i: usize = start;
    proof {
        assert(part@.subrange(start as int, start as int) =~= Seq::<char>::empty());
    }
    while i < part.len()
        invariant
            start <= i <= part@.len(),
            start < part@.len(),
            body == part@.skip(start as int),
            body == number_body(part@),
            neg == (sign_of(part@) == -1),
            forall|j: int| start <= j < i ==> spec_is_digit(part@[j]),
            !too_big ==> acc == digits_val(part@.subrange(start as int, i as int)) && 0 <= acc
                <= 2147483648i64,
            too_big ==> digits_val(part@.subrange(start as int, i as int)) > 2147483648,
        decreases part@.len() - i,
    {
        let c = part[i];
        if !is_digit_exec(c) {
            proof {
                assert(body[i - start] == part@[i as int]);
                assert(!all_digits(body));
            }
            return 0;
        }
        let d: i64 = (c as u32 - 48) as i64;
        let ghost prev = part@.subrange(start as int, i as int);
        proof {
            assert(part@.subrange(start as int, i + 1).drop_last() =~= prev);
            assert(part@.subrange(start as int, i + 1).last() == part@[i as int]);
            assert(all_digits(prev));
            lemma_digits_val_nonneg(prev);
        }
        if too_big {
            proof {
                assert(digits_val(part@.subrange(start as int, i + 1)) == digits_val(prev) * 10
                    + digit_val(part@[i as int]));
            }
        } else {
            let t: i64 = acc * 10 + d;
            if t > 2147483648i64 {
                too_big = true;
            } else {
                acc = t;
            }
        }
        i += 1;
    }
    proof {
        assert(part@.subrange(start as int, part@.len() as int) =~= body);
        assert(all_digits(body));
        lemma_digits_val_nonneg(body);
    }
    if too_big {
        return 0;
    }
    if neg {
        proof {
            assert(sign_of(part@) == -1);
            assert(component_value(part@) == if digits_val(body) <= 2147483648 {
                -1 * digits_val(body)
            } else {
                0
            });
        }
        let v: i64 = -acc;
        return v as i32;
    }
    if acc > 2147483647i64 {
        return 0;
    }
    acc as i32
}

/// Decides whether the upgrade notice is due; the caller draws the box.
pub fn compare_versions(current_version: &str, latest_version: &str) -> (r: bool)
    ensures
        r == spec_needs_notice(current_version@, latest_version@),
{
    let cur = chars_of(current_version);
    let lat = chars_of(latest_version);
    let cur_parts = split_on_exec(&cur, '.');
    let lat_parts = split_on_exec(&lat, '.');
    let ghost c = version_components(current_version@);
    let ghost l = version_components(latest_version@);
    let n: usize = if cur_parts.len() < lat_parts.len() {
        cur_parts.len()
    } else {
        lat_parts.len()
    };
    let mut i: usize = 0;
    while i < n
        invariant
            i <= n,
            n <= cur_parts@.len(),
            n <= lat_parts@.len(),
            cur_parts.deep_view() == split_on(current_version@, '.'),
            lat_parts.deep_view() == split_on(latest_version@, '.'),
            c == version_components(current_version@),
            l == version_components(latest_version@),
            c.len() == cur_parts@.len(),
            l.len() == lat_parts@.len(),
            forall|j: int| 0 <= j < i ==> c[j] == l[j],
        decreases n - i,
    {
        proof {
            assert(cur_parts@[i as int]@ =~= cur_parts.deep_view()[i as int]);
            assert(lat_parts@[i as int]@ =~= lat_parts.deep_view()[i as int]);
        }
        let ci = parse_component(&cur_parts[i]);
        let li = parse_component(&lat_parts[i]);
        if ci != li {
            proof {
                assert(c[i as int] == component_value(cur_parts.deep_view()[i as int]));
                assert(l[i as int] == component_value(lat_parts.deep_view()[i as int]));
                if ci < li {
                    assert(0 <= i < c.len() && i < l.len() && c[i as int] < l[i as int] && (
                    forall|j: int| 0 <= j < i ==> c[j] == l[j]));
                } else {
                    assert forall|w: int|
                        !(0 <= w < c.len() && w < l.len() && c[w] < l[w] && (forall|j: int|
                            0 <= j < w ==> c[j] == l[j])) by {
                        if 0 <= w < c.len() && w < l.len() && c[w] < l[w] && (forall|j: int|
                            0 <= j < w ==> c[j] == l[j]) {
                            if w < i {
                                assert(c[w] == l[w]);
                            } else {
                                assert(c[i as int] == l[i as int]);
                            }
                        }
                    }
                }
            }
            return ci < li;
        }
        proof {
            assert(c[i as int] == component_value(cur_parts.deep_view()[i as int]));
            assert(l[i as int] == component_value(lat_parts.deep_view()[i as int]));
            assert(c[i as int] == l[i as int]);
        }
        i += 1;
    }
    proof {
        assert forall|w: int|
            !(0 <= w < c.len() && w < l.len() && c[w] < l[w] && (forall|j: int|
                0 <= j < w ==> c[j] == l[j])) by {
            if 0 <= w < c.len() && w < l.len() && c[w] < l[w] {
                assert(w < n);
                assert(c[w] == l[w]);
            }
        }
    }
    false
}

} // verus!
