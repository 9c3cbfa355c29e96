//! Reading the registry configuration and the published-version replies.
//!
//! The file and network reads happen outside the library; these functions do
//! the deciding: which registry URL a `.npmrc` text names, and which version
//! string a registry or package-listing reply carries.

use vstd::prelude::*;

use crate::json::JsonModel;
use crate::json::JsonValue;
use crate::json::json_view;
use crate::json::json_view_members;
use crate::json::find_key;
use crate::json::lemma_model_key_index;
use crate::json::lemma_view_members_index;
use crate::json::model_has_key;
use crate::json::model_get;
use crate::json_read::parse_text;
use crate::json_read::sp_parse_text;
use crate::text::chars_of;
use crate::text::has_prefix;
use crate::text::slice_range;
use crate::text::split_on;
use crate::text::split_on_exec;
use crate::text::starts_with;
use crate::text::trim;
use crate::text::trimmed;

verus! {

/// The registry used when no configuration names one.
pub open spec fn default_registry() -> Seq<char> {
    "https://registry.npmjs.org/"@
}

/// A configuration line, with the carriage return a CRLF file leaves.
pub open spec fn strip_cr(l: Seq<char>) -> Seq<char> {
    if l.len() > 0 && l.last() == '\r' {
        l.drop_last()
    } else {
        l
    }
}

/// The registry the first `registry=` line names, trimmed; otherwise the
/// default registry.
pub open spec fn registry_scan(lines: Seq<Seq<char>>) -> Seq<char>
    decreases lines.len(),
{
    if lines.len() == 0 {
        default_registry()
    } else {
        let l = strip_cr(lines[0]);
        if starts_with(l, "registry="@) {
            trimmed(l.skip("registry="@.len() as int))
        } else {
            registry_scan(lines.drop_first())
        }
    }
}

pub open spec fn spec_registry(text: Seq<char>) -> Seq<char> {
    registry_scan(split_on(text, '\n'))
}

/// The registry URL a `.npmrc` text configures.
pub fn registry_from_npmrc(text: &Vec<char>) -> (r: Vec<char>)
    ensures
        r@ == spec_registry(text@),
{
    let lines = split_on_exec(text, '\n');
    let ghost lv = split_on(text@, '\n');
    let prefix = chars_of("registry=");
    proof {
        reveal_strlit("registry=");
    }
    let mut i: usize = 0;
    proof {
        assert(lv.skip(0) =~= lv);
    }
    while i < lines.len()
        invariant
            i <= lines@.len(),
            lines.deep_view() == lv,
            lv.len() == lines@.len(),
            prefix@ == "registry="@,
            "registry="@.len() == 9,
            spec_registry(text@) == registry_scan(lv.skip(i as int)),
        decreases lines@.len() - i,
    {
        proof {
            assert(lines@[i as int]@ =~= lines.deep_view()[i as int]);
            assert(lv.skip(i as int)[0] == lv[i as int]);
            assert(lv.skip(i as int).drop_first() =~= lv.skip(i + 1));
        }
        let raw = &lines[i];
        let line = if raw.len() > 0 && raw[raw.len() - 1] == '\r' {
            slice_range(raw, 0, raw.len() - 1)
        } else {
            slice_range(raw, 0, raw.len())
        };
        proof {
            assert(raw@.subrange(0, raw@.len() as int) =~= raw@);
            if raw@.len() > 0 && raw@.last() == '\r' {
                assert(raw@.subrange(0, raw@.len() - 1) =~= raw@.drop_last());
            }
            assert(line@ == strip_cr(lv[i as int]));
        }
        if has_prefix(&line, &prefix) {
            let tail = slice_range(&line, 9, line.len());
            proof {
                assert(tail@ =~= line@.skip(9));
            }
            return trim(&tail);
        }
        i += 1;
    }
    proof {
        assert(lv.skip(lv.len() as int) =~= Seq::<Seq<char>>::empty());
    }
    chars_of("https://registry.npmjs.org/")
}

/// Reading a member of a JSON value: a missing key, or a value that is not
/// an object, reads as `null`.
pub open spec fn model_index(m: JsonModel, k: Seq<char>) -> JsonModel {
    match m {
        JsonModel::Obj(es) => if model_has_key(es, k) {
            model_get(es, k)
        } else {
            JsonModel::Null
        },
        _ => JsonModel::Null,
    }
}

/// Looks a member up; `None` stands for the `null` a missing member reads
/// as.
fn value_index<'a>(v: &'a JsonValue, key: &Vec<char>) -> (r: Option<&'a JsonValue>)
    ensures
        match r {
            Option::Some(x) => model_index(json_view(*v), key@) == json_view(*x),
            Option::None => model_index(json_view(*v), key@) is Null,
        },
{
    proof {
        broadcast use lemma_view_members_index;

    }
    match v {
        JsonValue::Obj(ms) => {
            proof {
                lemma_model_key_index(json_view_members(ms@), key@);
            }
            match find_key(ms, key) {
                Option::Some(i) => Option::Some(&ms[i].value),
                Option::None => Option::None,
            }
        },
        _ => Option::None,
    }
}

/// The version under `dist-tags.latest` in a registry reply, or the empty
/// string where the reply lacks it.
pub open spec fn spec_latest_version(m: JsonModel) -> Seq<char> {
    match model_index(model_index(m, "dist-tags"@), "latest"@) {
        JsonModel::Str(s) => s,
        _ => Seq::empty(),
    }
}

/// Reads the latest published version out of a registry reply body; `None`
/// where the body is not well-formed JSON.
pub fn latest_version_from_body(body: &Vec<char>) -> (r: Option<Vec<char>>)
    ensures
        match r {
            Option::Some(v) => sp_parse_text(body@) is Ok && v@ == spec_latest_version(
                sp_parse_text(body@)->Ok_0,
            ),
            Option::None => sp_parse_text(body@) is Err,
        },
{
    let doc = match parse_text(body) {
        Result::Ok(v) => v,
        Result::Err(_) => {
            return Option::None;
        },
    };
    let tags_key = chars_of("dist-tags");
    let latest_key = chars_of("latest");
    let tags = value_index(&doc, &tags_key);
    match tags {
        Option::Some(t) => {
            match value_index(t, &latest_key) {
                Option::Some(l) => {
                    match l {
                        JsonValue::Str(s) => Option::Some(slice_range(s, 0, s.len())),
                        _ => {
                            let empty: Vec<char> = Vec::new();
                            proof {
                                assert(empty@ =~= Seq::<char>::empty());
                            }
                            Option::Some(empty)
                        },
                    }
                },
                Option::None => {
                    let empty: Vec<char> = Vec::new();
                    proof {
                        assert(empty@ =~= Seq::<char>::empty());
                    }
                    Option::Some(empty)
                },
            }
        },
        Option::None => {
            let empty: Vec<char> = Vec::new();
            proof {
                assert(empty@ =~= Seq::<char>::empty());
            }
            Option::Some(empty)
        },
    }
}

/// The version under `dependencies.<name>.version` in an `npm ls --json`
/// listing, where the listing carries it as a string.
pub open spec fn spec_installed_version(m: JsonModel, name: Seq<char>) -> Option<Seq<char>> {
    match model_index(model_index(model_index(m, "dependencies"@), name), "version"@) {
        JsonModel::Str(s) => Option::Some(s),
        _ => Option::None,
    }
}

/// Reads the installed version of `name` out of a package listing.
pub fn installed_version_from_listing(body: &Vec<char>, name: &str) -> (r: Option<Vec<char>>)
    ensures
        match r {
            Option::Some(v) => sp_parse_text(body@) is Ok && spec_installed_version(
                sp_parse_text(body@)->Ok_0,
                name@,
            ) == Option::Some(v@),
            Option::None => sp_parse_text(body@) is Err || spec_installed_version(
                sp_parse_text(body@)->Ok_0,
                name@,
            ) is None,
        },
{
    let doc = match parse_text(body) {
        Result::Ok(v) => v,
        Result::Err(_) => {
            return Option::None;
        },
    };
    let deps_key = chars_of("dependencies");
    let name_key = chars_of(name);
    let version_key = chars_of("version");
    let deps = match value_index(&doc, &deps_key) {
        Option::Some(d) => d,
        Option::None => {
            return Option::None;
        },
    };
    let pkg = match value_index(deps, &name_key) {
        Option::Some(p) => p,
        Option::None => {
            return Option::None;
        },
    };
    match value_index(pkg, &version_key) {
        Option::Some(v) => {
            match v {
                JsonValue::Str(s) => Option::Some(slice_range(s, 0, s.len())),
                _ => Option::None,
            }
        },
        Option::None => Option::None,
    }
}

} // verus!
