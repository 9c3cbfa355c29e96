//! The whole scaffolding computation for one run.
//!
//! `create` turns a project name, a resolved configuration and the embedded
//! template sets into a plan of plain values: the file writes, the final
//! manifest text, the patched build-config texts, and whether a repository
//! is initialized.  Reading the terminal, writing the disk and running git
//! happen outside the library, on this plan.

use vstd::prelude::*;
use vstd::utf8::valid_utf8;
use vstd::utf8::decode_utf8;

use crate::cli::Dependency;
use crate::cli::CssPreset;
use crate::cli::JsLoader;
use crate::cli::CodeLanguage;
use crate::cli::framework_dependencies;
use crate::cli::language_dependencies;
use crate::cli::loader_dependencies;
use crate::cli::css_dependencies;
use crate::pack::PackTool;
use crate::pack::pack_tool_dependencies;
use crate::project::InlineConfig;
use crate::project::TemplateFile;
use crate::project::TemplateSet;
use crate::project::files_view;
use crate::project::sets_view;
use crate::project::spec_plan;
use crate::project::tree_of;
use crate::project::materialize_plan;
use crate::project::spec_project_type;
use crate::project::project_type_of;
use crate::project::lemma_files_view_index;
use crate::package_json::PackageJson;
use crate::package_json::PackageBasicInfo;
use crate::package_json::ManifestError;
use crate::package_json::model_update_basic;
use crate::package_json::model_update_dependencies;
use crate::package_json::model_sort_json;
use crate::json::JsonModel;
use crate::json::json_view;
use crate::json_read::ParseError;
use crate::json_read::sp_parse_text;
use crate::json_write::ser;
use crate::patch::spec_patch;
use crate::patch::patch;
use crate::text::chars_of;
use crate::json::eq_chars;

verus! {

/// Why a run cannot be planned.
#[derive(Clone, Copy, Debug, PartialEq, Eq, Structural)]
pub enum CreateError {
    /// No template set supplied a `package.json`.
    MissingManifest,
    /// The manifest skeleton is not UTF-8 text.
    ManifestNotText,
    /// The manifest skeleton is not well-formed JSON.
    ManifestSyntax(ParseError),
    /// The manifest lacks the shape the edits need.
    ManifestShape(ManifestError),
    /// The build-config file to patch is not in the tree.
    MissingPatchTarget,
    /// The build-config file to patch is not UTF-8 text.
    PatchTargetNotText,
}

/// A build-config file after placeholder substitution.
#[derive(Debug)]
pub struct PatchedFile {
    pub path: Vec<char>,
    pub text: Vec<char>,
}

/// Everything one run writes, as plain values.
#[derive(Debug)]
pub struct CreatePlan {
    /// The template writes, in order; the later write wins on a path.
    pub files: Vec<TemplateFile>,
    /// The final `package.json` text, overwriting the skeleton.
    pub manifest_text: Vec<char>,
    /// Patched build-config texts, overwriting their files.
    pub patched_files: Vec<PatchedFile>,
    /// A repository is always initialized in the new directory.
    pub git_init: bool,
}

/// Every package the configuration implies, in merge order: framework,
/// build tool, language, loader, CSS preprocessor.
pub open spec fn spec_all_dependencies(c: InlineConfig) -> Seq<Dependency> {
    framework_dependencies(c.frame) + pack_tool_dependencies(c.pack_tool) + language_dependencies(
        c.lang,
        c.pack_tool,
        c.frame,
    ) + loader_dependencies(c.loader) + css_dependencies(c.css, c.pack_tool)
}

pub fn all_dependencies(config: InlineConfig) -> (r: Vec<Dependency>)
    ensures
        r@ == spec_all_dependencies(config),
{
    let mut r = config.frame.get_dependencies();
    let mut a = config.pack_tool.get_dependencies();
    let mut b = config.lang.get_dependencies(config.pack_tool, config.frame);
    let mut c = config.loader.get_dependencies();
    let mut d = config.css.get_dependencies(config.pack_tool);
    r.append(&mut a);
    r.append(&mut b);
    r.append(&mut c);
    r.append(&mut d);
    proof {
        assert(r@ =~= spec_all_dependencies(config));
    }
    r
}

/// Merging a dependency list into a manifest, from index `k` on.
pub open spec fn spec_apply_deps(m: JsonModel, deps: Seq<Dependency>, k: int) -> Result<
    JsonModel,
    ManifestError,
>
    decreases deps.len() - k,
    when 0 <= k <= deps.len()
{
    if k == deps.len() {
        Result::Ok(m)
    } else {
        match model_update_dependencies(m, deps[k].name@, deps[k].version@, deps[k].mod_type) {
            Result::Ok(m2) => spec_apply_deps(m2, deps, k + 1),
            Result::Err(e) => Result::Err(e),
        }
    }
}

fn apply_all_deps(pkg: &mut PackageJson, deps: &Vec<Dependency>) -> (r: Result<(), ManifestError>)
    ensures
        ({
            let res = spec_apply_deps(json_view(old(pkg).json), deps@, 0);
            match r {
                Result::Ok(_) => res is Ok && json_view(final(pkg).json) == res->Ok_0,
                Result::Err(e) => res == Result::<JsonModel, ManifestError>::Err(e),
            }
        }),
{
    let ghost m0 = json_view(pkg.json);
    let mut k: usize = 0;
    while k < deps.len()
        invariant
            k <= deps@.len(),
            m0 == json_view(old(pkg).json),
            spec_apply_deps(m0, deps@, 0) == spec_apply_deps(json_view(pkg.json), deps@, k as int),
        decreases deps@.len() - k,
    {
        let dep = deps[k];
        let res = pkg.update_dependencies(dep.name, dep.version, dep.mod_type);
        match res {
            Result::Ok(_) => {},
            Result::Err(e) => {
                return Result::Err(e);
            },
        }
        k += 1;
    }
    Result::Ok(())
}

/// The first slot of a webpack config: the CSS loader package.
pub open spec fn css_loader_snippet(css: CssPreset) -> Seq<char> {
    match css {
        CssPreset::Sass => "sass-loader"@,
        CssPreset::Less => "less-loader"@,
        CssPreset::NoPreset => Seq::empty(),
    }
}

/// The second slot of a webpack config: the stylesheet extension.
pub open spec fn css_ext_snippet(css: CssPreset) -> Seq<char> {
    match css {
        CssPreset::Sass => "scss"@,
        CssPreset::Less => "less"@,
        CssPreset::NoPreset => Seq::empty(),
    }
}

/// The third slot of a webpack config: the JS loader package.
pub open spec fn js_loader_snippet(loader: JsLoader) -> Seq<char> {
    match loader {
        JsLoader::Babel => "babel-loader"@,
        JsLoader::Swc => "swc-loader"@,
        JsLoader::NoLoader => Seq::empty(),
    }
}

/// The import line an rsbuild config gains for its CSS plugin.
pub open spec fn rsbuild_import_snippet(css: CssPreset) -> Seq<char> {
    match css {
        CssPreset::Sass => "import { pluginSass } from '@rsbuild/plugin-sass';"@,
        CssPreset::Less => "import { pluginLess } from '@rsbuild/plugin-less';"@,
        CssPreset::NoPreset => Seq::empty(),
    }
}

/// The plugin call an rsbuild config gains for its CSS plugin.
pub open spec fn rsbuild_plugin_snippet(css: CssPreset) -> Seq<char> {
    match css {
        CssPreset::Sass => "pluginSass()"@,
        CssPreset::Less => "pluginLess()"@,
        CssPreset::NoPreset => Seq::empty(),
    }
}

/// The import line a farm config gains for its CSS plugin; the sass plugin
/// is a compiled one, named by its package string, and needs no import.
pub open spec fn farm_import_snippet(css: CssPreset) -> Seq<char> {
    match css {
        CssPreset::Sass => Seq::empty(),
        CssPreset::Less => "import less from '@farmfe/js-plugin-less';"@,
        CssPreset::NoPreset => Seq::empty(),
    }
}

/// The plugin expression a farm config gains for its CSS plugin.
pub open spec fn farm_plugin_snippet(css: CssPreset) -> Seq<char> {
    match css {
        CssPreset::Sass => "'@farmfe/plugin-sass'"@,
        CssPreset::Less => "less()"@,
        CssPreset::NoPreset => Seq::empty(),
    }
}

/// The build-config files to patch and their slot literals, per tool.
pub open spec fn spec_patch_targets(c: InlineConfig) -> Seq<(Seq<char>, Seq<Seq<char>>)> {
    match c.pack_tool {
        PackTool::Webpack => seq![
            (
                if c.lang is Ts {
                    "scripts/webpack.common.ts"@
                } else {
                    "scripts/webpack.common.js"@
                },
                seq![
                    css_loader_snippet(c.css),
                    css_ext_snippet(c.css),
                    js_loader_snippet(c.loader),
                ],
            ),
        ],
        PackTool::Rsbuild => seq![
            (
                if c.lang is Ts {
                    "rsbuild.config.ts"@
                } else {
                    "rsbuild.config.mjs"@
                },
                seq![rsbuild_import_snippet(c.css), rsbuild_plugin_snippet(c.css)],
            ),
        ],
        PackTool::Farm => seq![
            ("farm.config.ts"@, seq![farm_import_snippet(c.css), farm_plugin_snippet(c.css)]),
        ],
        PackTool::Vite => seq![],
        PackTool::Elza => seq![],
    }
}

/// One target of the config patcher.
struct PatchTarget {
    path: Vec<char>,
    replacements: Vec<Vec<char>>,
}

fn patch_targets(config: InlineConfig) -> (r: Vec<PatchTarget>)
    ensures
        r@.len() == spec_patch_targets(config).len(),
        forall|i: int|
            0 <= i < r@.len() ==> (#[trigger] r@[i]).path@ == spec_patch_targets(config)[i].0
                && r@[i].replacements.deep_view() == spec_patch_targets(config)[i].1,
{
    match config.pack_tool {
        PackTool::Webpack => {
            let path = if matches!(config.lang, CodeLanguage::Ts) {
                chars_of("scripts/webpack.common.ts")
            } else {
                chars_of("scripts/webpack.common.js")
            };
            let css_loader = match config.css {
                CssPreset::Sass => chars_of("sass-loader"),
                CssPreset::Less => chars_of("less-loader"),
                CssPreset::NoPreset => Vec::new(),
            };
            let css_ext = match config.css {
                CssPreset::Sass => chars_of("scss"),
                CssPreset::Less => chars_of("less"),
                CssPreset::NoPreset => Vec::new(),
            };
            let js_loader = match config.loader {
                JsLoader::Babel => chars_of("babel-loader"),
                JsLoader::Swc => chars_of("swc-loader"),
                JsLoader::NoLoader => Vec::new(),
            };
            let mut replacements: Vec<Vec<char>> = Vec::new();
            replacements.push(css_loader);
            replacements.push(css_ext);
            replacements.push(js_loader);
            let mut r: Vec<PatchTarget> = Vec::new();
            r.push(PatchTarget { path, replacements });
            proof {
                assert(r@[0].replacements.deep_view() =~~= spec_patch_targets(config)[0].1);
            }
            r
        },
        PackTool::Rsbuild => {
            let path = if matches!(config.lang, CodeLanguage::Ts) {
                chars_of("rsbuild.config.ts")
            } else {
                chars_of("rsbuild.config.mjs")
            };
            let import_line = match config.css {
                CssPreset::Sass => chars_of("import { pluginSass } from '@rsbuild/plugin-sass';"),
                CssPreset::Less => chars_of("import { pluginLess } from '@rsbuild/plugin-less';"),
                CssPreset::NoPreset => Vec::new(),
            };
            let plugin_call = match config.css {
                CssPreset::Sass => chars_of("pluginSass()"),
                CssPreset::Less => chars_of("pluginLess()"),
                CssPreset::NoPreset => Vec::new(),
            };
            let mut replacements: Vec<Vec<char>> = Vec::new();
            replacements.push(import_line);
            replacements.push(plugin_call);
            let mut r: Vec<PatchTarget> = Vec::new();
            r.push(PatchTarget { path, replacements });
            proof {
                assert(r@[0].replacements.deep_view() =~~= spec_patch_targets(config)[0].1);
            }
            r
        },
        PackTool::Farm => {
            let path = chars_of("farm.config.ts");
            let import_line = match config.css {
                CssPreset::Sass => Vec::new(),
                CssPreset::Less => chars_of("import less from '@farmfe/js-plugin-less';"),
                CssPreset::NoPreset => Vec::new(),
            };
            let plugin = match config.css {
                CssPreset::Sass => chars_of("'@farmfe/plugin-sass'"),
                CssPreset::Less => chars_of("less()"),
                CssPreset::NoPreset => Vec::new(),
            };
            let mut replacements: Vec<Vec<char>> = Vec::new();
            replacements.push(import_line);
            replacements.push(plugin);
            let mut r: Vec<PatchTarget> = Vec::new();
            r.push(PatchTarget { path, replacements });
            proof {
                assert(r@[0].replacements.deep_view() =~~= spec_patch_targets(config)[0].1);
            }
            r
        },
        PackTool::Vite => Vec::new(),
        PackTool::Elza => Vec::new(),
    }
}

/// Relies on String::from_utf8: it accepts exactly the valid UTF-8 byte
/// strings and decodes them to their characters.
#[verifier::external_body]
fn utf8_chars(bytes: &Vec<u8>) -> (r: Option<Vec<char>>)
    ensures
        match r {
            Option::Some(cs) => valid_utf8(bytes@) && cs@ == decode_utf8(bytes@),
            Option::None => !valid_utf8(bytes@),
        },
{
    match String::from_utf8(bytes.clone()) {
        Ok(s) => Some(s.chars().collect()),
        Err(_) => None,
    }
}

/// Index of the last write to `path`, the one that decides the content.
fn find_last_path(files: &Vec<TemplateFile>, path: &Vec<char>) -> (r: Option<usize>)
    ensures
        ({
            let fv = files_view(files@);
            match r {
                Option::Some(i) => i < fv.len() && fv[i as int].0 == path@ && (forall|j: int|
                    i < j < fv.len() ==> fv[j].0 != path@),
                Option::None => forall|j: int| 0 <= j < fv.len() ==> fv[j].0 != path@,
            }
        }),
{
    proof {
        broadcast use lemma_files_view_index;

    }
    let mut i: usize = files.len();
    while i > 0
        invariant
            i <= files@.len(),
            forall|j: int|
                i <= j < files@.len() ==> files_view(files@)[j].0 != path@,
            files_view(files@).len() == files@.len(),
            forall|j: int|
                0 <= j < files@.len() ==> files_view(files@)[j] == crate::project::file_view(
                    files@[j],
                ),
        decreases i,
    {
        i -= 1;
        if eq_chars(&files[i].path, path) {
            return Option::Some(i);
        }
    }
    Option::None
}

/// The tree's content under a path equals the last write to it.
proof fn lemma_tree_get(plan: Seq<(Seq<char>, Seq<u8>)>, p: Seq<char>, i: int)
    requires
        0 <= i < plan.len(),
        plan[i].0 == p,
        forall|j: int| i < j < plan.len() ==> plan[j].0 != p,
    ensures
        tree_of(plan).dom().contains(p),
        tree_of(plan)[p] == plan[i].1,
    decreases plan.len(),
{
    if i == plan.len() - 1 {
        assert(plan.last() == plan[i]);
    } else {
        assert(plan.last().0 != p);
        assert forall|j: int| i < j < plan.drop_last().len() implies plan.drop_last()[j].0 != p by {
            assert(plan.drop_last()[j] == plan[j]);
        }
        assert(plan.drop_last()[i] == plan[i]);
        lemma_tree_get(plan.drop_last(), p, i);
    }
}

/// No write to a path means the tree does not hold it.
proof fn lemma_tree_absent(plan: Seq<(Seq<char>, Seq<u8>)>, p: Seq<char>)
    requires
        forall|j: int| 0 <= j < plan.len() ==> plan[j].0 != p,
    ensures
        !tree_of(plan).dom().contains(p),
    decreases plan.len(),
{
    if plan.len() > 0 {
        assert forall|j: int| 0 <= j < plan.drop_last().len() implies plan.drop_last()[j].0 != p by {
            assert(plan.drop_last()[j] == plan[j]);
        }
        lemma_tree_absent(plan.drop_last(), p);
        assert(plan.last().0 != p);
    }
}

/// Patching the targets from index `k` on against the materialized tree.
pub open spec fn spec_patches(
    targets: Seq<(Seq<char>, Seq<Seq<char>>)>,
    tree: Map<Seq<char>, Seq<u8>>,
    k: int,
) -> Result<Seq<(Seq<char>, Seq<char>)>, CreateError>
    decreases targets.len() - k,
    when 0 <= k <= targets.len()
{
    if k == targets.len() {
        Result::Ok(Seq::empty())
    } else if !tree.dom().contains(targets[k].0) {
        Result::Err(CreateError::MissingPatchTarget)
    } else if !valid_utf8(tree[targets[k].0]) {
        Result::Err(CreateError::PatchTargetNotText)
    } else {
        match spec_patches(targets, tree, k + 1) {
            Result::Ok(rest) => Result::Ok(
                seq![
                    (targets[k].0, spec_patch(decode_utf8(tree[targets[k].0]), targets[k].1)),
                ] + rest,
            ),
            Result::Err(e) => Result::Err(e),
        }
    }
}

/// What `create` computes, on the ghost mirror of its inputs.
pub open spec fn spec_create(
    name: Seq<char>,
    c: InlineConfig,
    sets: Seq<(bool, Seq<(Seq<char>, Seq<u8>)>)>,
) -> Result<(Seq<(Seq<char>, Seq<u8>)>, Seq<char>, Seq<(Seq<char>, Seq<char>)>), CreateError> {
    let plan = spec_plan(sets, c);
    let tree = tree_of(plan);
    if !tree.dom().contains("package.json"@) {
        Result::Err(CreateError::MissingManifest)
    } else if !valid_utf8(tree["package.json"@]) {
        Result::Err(CreateError::ManifestNotText)
    } else {
        match sp_parse_text(decode_utf8(tree["package.json"@])) {
            Result::Err(e) => Result::Err(CreateError::ManifestSyntax(e)),
            Result::Ok(m0) => match model_update_basic(m0, name, spec_project_type(c)) {
                Result::Err(e) => Result::Err(CreateError::ManifestShape(e)),
                Result::Ok(m1) => match spec_apply_deps(m1, spec_all_dependencies(c), 0) {
                    Result::Err(e) => Result::Err(CreateError::ManifestShape(e)),
                    Result::Ok(m2) => match spec_patches(spec_patch_targets(c), tree, 0) {
                        Result::Err(e) => Result::Err(e),
                        Result::Ok(patches) => Result::Ok(
                            (plan, ser(model_sort_json(m2), Seq::empty()), patches),
                        ),
                    },
                },
            },
        }
    }
}


/// The patched files a contract sees.
pub open spec fn patched_view(ps: Seq<PatchedFile>) -> Seq<(Seq<char>, Seq<char>)>
    decreases ps,
{
    if ps.len() == 0 {
        Seq::empty()
    } else {
        seq![(ps[0].path@, ps[0].text@)] + patched_view(ps.drop_first())
    }
}

fn run_patches(files: &Vec<TemplateFile>, config: InlineConfig) -> (r: Result<
    Vec<PatchedFile>,
    CreateError,
>)
    ensures
        ({
            let res = spec_patches(spec_patch_targets(config), tree_of(files_view(files@)), 0);
            match r {
                Result::Ok(ps) => res == Result::<
                    Seq<(Seq<char>, Seq<char>)>,
                    CreateError,
                >::Ok(patched_view(ps@)),
                Result::Err(e) => res == Result::<Seq<(Seq<char>, Seq<char>)>, CreateError>::Err(e),
            }
        }),
{
    let ghost tv = spec_patch_targets(config);
    let ghost tree = tree_of(files_view(files@));
    let targets = patch_targets(config);
    let mut patched: Vec<PatchedFile> = Vec::new();
    let mut k: usize = 0;
    proof {
        assert(patched_view(patched@) =~= Seq::<(Seq<char>, Seq<char>)>::empty());
    }
    while k < targets.len()
        invariant
            k <= targets@.len(),
            tv == spec_patch_targets(config),
            tree == tree_of(files_view(files@)),
            targets@.len() == tv.len(),
            forall|i: int|
                0 <= i < targets@.len() ==> (#[trigger] targets@[i]).path@ == tv[i].0
                    && targets@[i].replacements.deep_view() == tv[i].1,
            ({
                match spec_patches(tv, tree, k as int) {
                    Result::Ok(rest) => spec_patches(tv, tree, 0) == Result::<
                        Seq<(Seq<char>, Seq<char>)>,
                        CreateError,
                    >::Ok(patched_view(patched@) + rest),
                    Result::Err(e) => spec_patches(tv, tree, 0) == Result::<
                        Seq<(Seq<char>, Seq<char>)>,
                        CreateError,
                    >::Err(e),
                }
            }),
        decreases targets@.len() - k,
    {
        let found = find_last_path(files, &targets[k].path);
        match found {
            Option::None => {
                proof {
                    lemma_tree_absent(files_view(files@), tv[k as int].0);
                }
                return Result::Err(CreateError::MissingPatchTarget);
            },
            Option::Some(fi) => {
                proof {
                    broadcast use lemma_files_view_index;

                    lemma_tree_get(files_view(files@), tv[k as int].0, fi as int);
                }
                match utf8_chars(&files[fi].content) {
                    Option::None => {
                        return Result::Err(CreateError::PatchTargetNotText);
                    },
                    Option::Some(text) => {
                        let out = patch(&text, &targets[k].replacements);
                        let path_copy = crate::text::slice_range(
                            &targets[k].path,
                            0,
                            targets[k].path.len(),
                        );
                        proof {
                            assert(path_copy@ =~= targets@[k as int].path@);
                        }
                        let ghost prev = patched_view(patched@);
                        patched.push(PatchedFile { path: path_copy, text: out });
                        k += 1;
                        proof {
                            assert(patched_view(patched@) =~= prev + seq![
                                (tv[k - 1].0, spec_patch(decode_utf8(tree[tv[k - 1].0]), tv[k - 1].1)),
                            ]) by {
                                lemma_patched_view_push(
                                    patched@,
                                    prev,
                                    tv[k - 1].0,
                                    spec_patch(decode_utf8(tree[tv[k - 1].0]), tv[k - 1].1),
                                );
                            }
                            match spec_patches(tv, tree, k as int) {
                                Result::Ok(rest) => {
                                    assert(spec_patches(tv, tree, k - 1) == Result::<
                                        Seq<(Seq<char>, Seq<char>)>,
                                        CreateError,
                                    >::Ok(seq![
                                        (
                                            tv[k - 1].0,
                                            spec_patch(decode_utf8(tree[tv[k - 1].0]), tv[k - 1].1),
                                        ),
                                    ] + rest));
                                    assert((prev + seq![
                                        (
                                            tv[k - 1].0,
                                            spec_patch(decode_utf8(tree[tv[k - 1].0]), tv[k - 1].1),
                                        ),
                                    ]) + rest =~= prev + (seq![
                                        (
                                            tv[k - 1].0,
                                            spec_patch(decode_utf8(tree[tv[k - 1].0]), tv[k - 1].1),
                                        ),
                                    ] + rest));
                                },
                                Result::Err(_) => {},
                            }
                        }
                    },
                }
            },
        }
    }
    proof {
        assert(patched_view(patched@) + Seq::<(Seq<char>, Seq<char>)>::empty() =~= patched_view(
            patched@,
        ));
    }
    Result::Ok(patched)
}

proof fn lemma_patched_view_push(
    ps: Seq<PatchedFile>,
    prev: Seq<(Seq<char>, Seq<char>)>,
    path: Seq<char>,
    text: Seq<char>,
)
    requires
        ps.len() >= 1,
        patched_view(ps.drop_last()) == prev,
        ps.last().path@ == path,
        ps.last().text@ == text,
    ensures
        patched_view(ps) == prev + seq![(path, text)],
    decreases ps.len(),
{
    if ps.len() == 1 {
        assert(ps.drop_first().len() == 0);
        assert(patched_view(ps.drop_first()) =~= Seq::<(Seq<char>, Seq<char>)>::empty());
        assert(ps.drop_last().len() == 0);
        assert(patched_view(ps.drop_last()) =~= Seq::<(Seq<char>, Seq<char>)>::empty());
        assert(patched_view(ps) == seq![(ps[0].path@, ps[0].text@)] + patched_view(
            ps.drop_first(),
        ));
        assert(patched_view(ps) =~= prev + seq![(path, text)]);
    } else {
        let e0 = (ps[0].path@, ps[0].text@);
        assert(ps.drop_last()[0] == ps[0]);
        assert(ps.drop_last().drop_first() =~= ps.drop_first().drop_last());
        assert(patched_view(ps.drop_last()) == seq![e0] + patched_view(
            ps.drop_first().drop_last(),
        ));
        assert(ps.drop_first().last() == ps.last());
        lemma_patched_view_push(
            ps.drop_first(),
            patched_view(ps.drop_first().drop_last()),
            path,
            text,
        );
        assert(patched_view(ps) == seq![e0] + patched_view(ps.drop_first()));
        assert(patched_view(ps) =~= (seq![e0] + patched_view(ps.drop_first().drop_last()))
            + seq![(path, text)]);
        assert(prev + seq![(path, text)] == (seq![e0] + patched_view(ps.drop_first().drop_last()))
            + seq![(path, text)]);
    }
}

/// Plans one run: the files to write, the final manifest text, the patched
/// build-config texts, and the repository step.
pub fn create(project_name: &str, config: InlineConfig, template_sets: Vec<TemplateSet>) -> (r:
    Result<CreatePlan, CreateError>)
    ensures
        ({
            let res = spec_create(project_name@, config, sets_view(template_sets@));
            match r {
                Result::Ok(plan) => res is Ok && files_view(plan.files@) == res->Ok_0.0
                    && plan.manifest_text@ == res->Ok_0.1 && patched_view(plan.patched_files@)
                    == res->Ok_0.2 && plan.git_init,
                Result::Err(e) => res == Result::<
                    (Seq<(Seq<char>, Seq<u8>)>, Seq<char>, Seq<(Seq<char>, Seq<char>)>),
                    CreateError,
                >::Err(e),
            }
        }),
{
    proof {
        broadcast use lemma_files_view_index;

    }
    let files = materialize_plan(template_sets, config);
    let ghost plan_v = files_view(files@);
    let ghost tree = tree_of(plan_v);
    let pkg_path = chars_of("package.json");
    let found = find_last_path(&files, &pkg_path);
    let i = match found {
        Option::None => {
            proof {
                lemma_tree_absent(plan_v, "package.json"@);
            }
            return Result::Err(CreateError::MissingManifest);
        },
        Option::Some(i) => i,
    };
    proof {
        lemma_tree_get(plan_v, "package.json"@, i as int);
    }
    let text = match utf8_chars(&files[i].content) {
        Option::None => {
            return Result::Err(CreateError::ManifestNotText);
        },
        Option::Some(text) => text,
    };
    let mut pkg = match PackageJson::new(&text) {
        Result::Err(e) => {
            return Result::Err(CreateError::ManifestSyntax(e));
        },
        Result::Ok(p) => p,
    };
    let name = project_name.to_owned();
    let basic = PackageBasicInfo { name, project_type: project_type_of(config) };
    match pkg.update_basic(basic) {
        Result::Err(e) => {
            return Result::Err(CreateError::ManifestShape(e));
        },
        Result::Ok(_) => {},
    }
    let deps = all_dependencies(config);
    match apply_all_deps(&mut pkg, &deps) {
        Result::Err(e) => {
            return Result::Err(CreateError::ManifestShape(e));
        },
        Result::Ok(_) => {},
    }
    pkg.sort();
    let manifest_text = pkg.text();
    let patched_files = match run_patches(&files, config) {
        Result::Err(e) => {
            return Result::Err(e);
        },
        Result::Ok(ps) => ps,
    };
    Result::Ok(CreatePlan { files, manifest_text, patched_files, git_init: true })
}

} // verus!
