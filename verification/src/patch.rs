//! Placeholder substitution in generated build-config files.
//!
//! Template config files carry numbered marker tokens (`placeholder:0`,
//! `placeholder:1`, ...).  Patching replaces, for each index in the
//! replacement list, every occurrence of that index's marker with the given
//! literal, in index order; markers beyond the end of the list stay as they
//! are, and no other part of the text changes.

use vstd::prelude::*;

use crate::json_write::hex_digit;
use crate::text::chars_of;
use crate::text::has_match_at;
use crate::text::matches_at;
use crate::text::slice_range;

verus! {

/// Replaces every occurrence of `pat` in `t` by `rep`, scanning left to
/// right without overlap.
pub open spec fn replace_all(t: Seq<char>, pat: Seq<char>, rep: Seq<char>) -> Seq<char>
    decreases t.len(),
    when pat.len() > 0
{
    if t.len() < pat.len() {
        t
    } else if t.take(pat.len() as int) == pat {
        rep + replace_all(t.skip(pat.len() as int), pat, rep)
    } else {
        seq![t[0]] + replace_all(t.drop_first(), pat, rep)
    }
}

/// The decimal digits of `n`.
pub open spec fn dec_rep(n: nat) -> Seq<char>
    decreases n,
{
    if n < 10 {
        seq![hex_digit(n as int)]
    } else {
        dec_rep(n / 10) + seq![hex_digit((n % 10) as int)]
    }
}

/// The marker token of slot `i`.
pub open spec fn marker(i: nat) -> Seq<char> {
    "placeholder:"@ + dec_rep(i)
}

/// The text after the markers of slots `k`, `k+1`, ... have been replaced,
/// in that order.
pub open spec fn spec_patch_from(t: Seq<char>, reps: Seq<Seq<char>>, k: nat) -> Seq<char>
    decreases reps.len() - k,
    when k <= reps.len()
{
    if k == reps.len() {
        t
    } else {
        spec_patch_from(replace_all(t, marker(k), reps[k as int]), reps, k + 1)
    }
}

/// The patched text: each listed slot's marker replaced by its literal.
pub open spec fn spec_patch(t: Seq<char>, reps: Seq<Seq<char>>) -> Seq<char> {
    spec_patch_from(t, reps, 0)
}

pub fn replace_all_exec(t: &Vec<char>, pat: &Vec<char>, rep: &Vec<char>) -> (r: Vec<char>)
    requires
        pat@.len() > 0,
    ensures
        r@ == replace_all(t@, pat@, rep@),
{
    let mut out: Vec<char> = Vec::new();
    let mut i: usize = 0;
    proof {
        assert(t@.skip(0) =~= t@);
        assert(Seq::<char>::empty() + replace_all(t@, pat@, rep@) =~= replace_all(t@, pat@, rep@));
    }
    while i < t.len()
        invariant
            i <= t@.len(),
            pat@.len() > 0,
            replace_all(t@, pat@, rep@) == out@ + replace_all(t@.skip(i as int), pat@, rep@),
        decreases t@.len() - i,
    {
        let ghost rem = t@.skip(i as int);
        if has_match_at(t, i, pat) {
            proof {
                assert(rem.take(pat@.len() as int) =~= t@.subrange(i as int, i + pat@.len()));
                assert(rem.skip(pat@.len() as int) =~= t@.skip(i + pat@.len()));
            }
            let ghost prev = out@;
            let mut rep2 = slice_range(rep, 0, rep.len());
            proof {
                assert(rep2@ =~= rep@);
            }
            out.append(&mut rep2);
            i += pat.len();
            proof {
                assert(out@ + replace_all(t@.skip(i as int), pat@, rep@) =~= prev + (rep@
                    + replace_all(t@.skip(i as int), pat@, rep@)));
            }
        } else {
            proof {
                if rem.len() >= pat@.len() {
                    assert(rem.take(pat@.len() as int) =~= t@.subrange(i as int, i + pat@.len()));
                }
                assert(rem.drop_first() =~= t@.skip(i + 1));
                assert(rem[0] == t@[i as int]);
                if i + pat@.len() > t@.len() {
                    // the tail is shorter than the pattern: it is copied as is
                    assert(rem.len() < pat@.len());
                }
            }
            let ghost prev = out@;
            out.push(t[i]);
            i += 1;
            proof {
                if t@.skip(i - 1).len() < pat@.len() {
                    assert(t@.skip(i as int) =~= t@.skip(i - 1).drop_first());
                    assert(replace_all(t@.skip(i - 1), pat@, rep@) == t@.skip(i - 1));
                    assert(replace_all(t@.skip(i as int), pat@, rep@) == t@.skip(i as int));
                    assert(out@ + replace_all(t@.skip(i as int), pat@, rep@) =~= prev + t@.skip(
                        i - 1,
                    ));
                } else {
                    assert(out@ + replace_all(t@.skip(i as int), pat@, rep@) =~= prev + (seq![
                        t@[i - 1],
                    ] + replace_all(t@.skip(i as int), pat@, rep@)));
                }
            }
        }
    }
    proof {
        assert(t@.skip(t@.len() as int) =~= Seq::<char>::empty());
        assert(replace_all(Seq::<char>::empty(), pat@, rep@) == Seq::<char>::empty());
        assert(out@ + Seq::<char>::empty() =~= out@);
    }
    out
}

fn dec_digit_exec(n: usize) -> (r: char)
    requires
        n < 10,
    ensures
        r == hex_digit(n as int),
{
    if n == 0 {
        '0'
    } else if n == 1 {
        '1'
    } else if n == 2 {
        '2'
    } else if n == 3 {
        '3'
    } else if n == 4 {
        '4'
    } else if n == 5 {
        '5'
    } else if n == 6 {
        '6'
    } else if n == 7 {
        '7'
    } else if n == 8 {
        '8'
    } else {
        '9'
    }
}

fn dec_chars(n: usize) -> (r: Vec<char>)
    ensures
        r@ == dec_rep(n as nat),
    decreases n,
{
    if n < 10 {
        let mut r: Vec<char> = Vec::new();
        r.push(dec_digit_exec(n));
        proof {
            assert(r@ =~= dec_rep(n as nat));
        }
        r
    } else {
        let mut r = dec_chars(n / 10);
        r.push(dec_digit_exec(n % 10));
        proof {
            assert(r@ =~= dec_rep((n / 10) as nat) + seq![hex_digit((n % 10) as int)]);
        }
        r
    }
}

/// The marker token of slot `i`, as text.
pub fn marker_chars(i: usize) -> (r: Vec<char>)
    ensures
        r@ == marker(i as nat),
        r@.len() > 0,
{
    let mut r = chars_of("placeholder:");
    let mut digits = dec_chars(i);
    let ghost gd = digits@;
    r.append(&mut digits);
    proof {
        reveal_strlit("placeholder:");
        assert(r@ =~= "placeholder:"@ + gd);
        assert(r@.len() == 12 + gd.len());
        assert(dec_rep(i as nat).len() >= 1);
    }
    r
}

/// Patches a config file's text: slot by slot, in order, each listed
/// replacement literal takes the place of every occurrence of its marker.
pub fn patch(text: &Vec<char>, replacements: &Vec<Vec<char>>) -> (r: Vec<char>)
    ensures
        r@ == spec_patch(text@, replacements.deep_view()),
{
    let ghost reps = replacements.deep_view();
    let mut cur = slice_range(text, 0, text.len());
    let mut k: usize = 0;
    proof {
        assert(cur@ =~= text@);
    }
    while k < replacements.len()
        invariant
            k <= replacements@.len(),
            reps == replacements.deep_view(),
            reps.len() == replacements@.len(),
            spec_patch(text@, reps) == spec_patch_from(cur@, reps, k as nat),
        decreases replacements@.len() - k,
    {
        let m = marker_chars(k);
        let next = replace_all_exec(&cur, &m, &replacements[k]);
        proof {
            assert(replacements@[k as int]@ =~= reps[k as int]);
            assert(next@ == replace_all(cur@, marker(k as nat), reps[k as int]));
        }
        cur = next;
        k += 1;
    }
    cur
}


/// Does `pat` occur anywhere in `t`?
pub open spec fn occurs(t: Seq<char>, pat: Seq<char>) -> bool {
    exists|i: int| matches_at(t, i, pat)
}

/// Text in which a pattern does not occur is left exactly as it is; in
/// particular, a marker beyond the end of the replacement list survives
/// patching unchanged.
pub proof fn lemma_replace_all_absent(t: Seq<char>, pat: Seq<char>, rep: Seq<char>)
    requires
        pat.len() > 0,
        !occurs(t, pat),
    ensures
        replace_all(t, pat, rep) == t,
    decreases t.len(),
{
    if t.len() >= pat.len() {
        assert(t.take(pat.len() as int) =~= t.subrange(0, pat.len() as int));
        if t.take(pat.len() as int) == pat {
            assert(matches_at(t, 0, pat));
        }
        assert(!occurs(t.drop_first(), pat)) by {
            if occurs(t.drop_first(), pat) {
                let i = choose|i: int| matches_at(t.drop_first(), i, pat);
                assert(t.subrange(i + 1, i + 1 + pat.len() as int) =~= t.drop_first().subrange(
                    i,
                    i + pat.len() as int,
                ));
                assert(matches_at(t, i + 1, pat));
            }
        }
        lemma_replace_all_absent(t.drop_first(), pat, rep);
        assert(replace_all(t, pat, rep) =~= t);
    }
}

} // verus!
