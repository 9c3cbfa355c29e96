//! Template materialization: which files a resolved configuration writes.
//!
//! A template set is a list of (relative path, byte content) entries,
//! marked as tool-specific or shared ("common").  The materializer walks
//! the applicable sets in order, drops the files the configuration excludes
//! from each, and yields the writes in order; where two sets supply one
//! path, the later write wins on disk, so the final tree is the union of
//! the sets' paths minus the skipped ones.

use vstd::prelude::*;

use crate::cli::CodeLanguage;
use crate::cli::CssPreset;
use crate::cli::FrameWork;
use crate::cli::JsLoader;
use crate::pack::PackTool;
use crate::package_json::ProjectType;
use crate::text::chars_of;
use crate::text::ends_with;
use crate::text::has_prefix;
use crate::text::has_suffix;
use crate::json::eq_chars;

verus! {

/// One embedded template entry: a relative path and its bytes.
#[derive(Debug)]
pub struct TemplateFile {
    pub path: Vec<char>,
    pub content: Vec<u8>,
}

/// One template set: its files, and whether it is a shared ("common") set
/// rather than a tool-specific one.  The shared set's router and entry
/// files give way where the build tool ships its own.
#[derive(Debug)]
pub struct TemplateSet {
    pub common: bool,
    pub files: Vec<TemplateFile>,
}

/// A fully resolved configuration, one value per axis.
#[derive(Clone, Copy, Debug, PartialEq, Eq, Structural)]
pub struct InlineConfig {
    pub frame: FrameWork,
    pub pack_tool: PackTool,
    pub lang: CodeLanguage,
    pub loader: JsLoader,
    pub css: CssPreset,
}

/// The template entry a contract sees.
pub open spec fn file_view(f: TemplateFile) -> (Seq<char>, Seq<u8>) {
    (f.path@, f.content@)
}

pub open spec fn files_view(fs: Seq<TemplateFile>) -> Seq<(Seq<char>, Seq<u8>)>
    decreases fs,
{
    if fs.len() == 0 {
        Seq::empty()
    } else {
        seq![file_view(fs[0])] + files_view(fs.drop_first())
    }
}

pub broadcast proof fn lemma_files_view_index(fs: Seq<TemplateFile>)
    ensures
        (#[trigger] files_view(fs)).len() == fs.len(),
        forall|i: int| 0 <= i < fs.len() ==> files_view(fs)[i] == file_view(fs[i]),
    decreases fs,
{
    if fs.len() > 0 {
        lemma_files_view_index(fs.drop_first());
        assert forall|i: int| 0 <= i < fs.len() implies files_view(fs)[i] == file_view(fs[i]) by {
            if i > 0 {
                assert(files_view(fs)[i] == files_view(fs.drop_first())[i - 1]);
                assert(fs.drop_first()[i - 1] == fs[i]);
            }
        }
    }
}

/// Build tools that ship their own entry and router scaffolding, so the
/// shared set's copies give way.
pub open spec fn tool_has_own_scaffolding(t: PackTool) -> bool {
    t is Vite || t is Rsbuild || t is Farm
}

/// The shared set's entry and router files: the entry module, the page
/// skeleton, and the router module.
pub open spec fn is_scaffolding_path(path: Seq<char>) -> bool {
    ||| crate::text::starts_with(path, "src/index"@)
    ||| path == "public/index.html"@
    ||| crate::text::starts_with(path, "src/router"@)
}

/// Whether a path is excluded for this configuration: the loader not chosen
/// keeps its config file out, the stylesheets of the preprocessor not
/// chosen stay out, and the shared set's entry and router files give way
/// when the build tool supplies its own.
pub open spec fn spec_should_skip(c: InlineConfig, common: bool, path: Seq<char>) -> bool {
    ||| (c.loader is Babel && path == ".swcrc"@)
    ||| (c.loader is Swc && path == ".babelrc"@)
    ||| (c.css is Sass && ends_with(path, ".less"@))
    ||| (c.css is Less && ends_with(path, ".scss"@))
    ||| (common && tool_has_own_scaffolding(c.pack_tool) && is_scaffolding_path(path))
}

pub fn should_skip(config: InlineConfig, common: bool, path: &Vec<char>) -> (r: bool)
    ensures
        r == spec_should_skip(config, common, path@),
{
    let is_babel = matches!(config.loader, JsLoader::Babel);
    let is_swc = matches!(config.loader, JsLoader::Swc);
    let is_sass = matches!(config.css, CssPreset::Sass);
    let is_less = matches!(config.css, CssPreset::Less);
    let own_scaffolding = matches!(
        config.pack_tool,
        PackTool::Vite | PackTool::Rsbuild | PackTool::Farm
    );
    (is_babel && eq_chars(path, &chars_of(".swcrc"))) || (is_swc && eq_chars(
        path,
        &chars_of(".babelrc"),
    )) || (is_sass && has_suffix(path, &chars_of(".less"))) || (is_less && has_suffix(
        path,
        &chars_of(".scss"),
    )) || (common && own_scaffolding && (has_prefix(path, &chars_of("src/index")) || eq_chars(
        path,
        &chars_of("public/index.html"),
    ) || has_prefix(path, &chars_of("src/router"))))
}

/// One set's files with the excluded paths dropped, in order; `common`
/// says which kind of set the files come from.
pub open spec fn spec_filter_files(
    fs: Seq<(Seq<char>, Seq<u8>)>,
    c: InlineConfig,
    common: bool,
) -> Seq<(Seq<char>, Seq<u8>)>
    decreases fs.len(),
{
    if fs.len() == 0 {
        Seq::empty()
    } else if spec_should_skip(c, common, fs[0].0) {
        spec_filter_files(fs.drop_first(), c, common)
    } else {
        seq![fs[0]] + spec_filter_files(fs.drop_first(), c, common)
    }
}

/// All sets' files, filtered, concatenated in set order.
pub open spec fn spec_plan(
    sets: Seq<(bool, Seq<(Seq<char>, Seq<u8>)>)>,
    c: InlineConfig,
) -> Seq<(Seq<char>, Seq<u8>)>
    decreases sets.len(),
{
    if sets.len() == 0 {
        Seq::empty()
    } else {
        spec_filter_files(sets[0].1, c, sets[0].0) + spec_plan(sets.drop_first(), c)
    }
}

/// The views of a list of template sets.
pub open spec fn sets_view(sets: Seq<TemplateSet>) -> Seq<(bool, Seq<(Seq<char>, Seq<u8>)>)>
    decreases sets,
{
    if sets.len() == 0 {
        Seq::empty()
    } else {
        seq![(sets[0].common, files_view(sets[0].files@))] + sets_view(sets.drop_first())
    }
}

fn filter_files(files: Vec<TemplateFile>, config: InlineConfig, common: bool) -> (r: Vec<
    TemplateFile,
>)
    ensures
        files_view(r@) == spec_filter_files(files_view(files@), config, common),
    decreases files@.len(),
{
    proof {
        broadcast use lemma_files_view_index;

    }
    if files.len() == 0 {
        let r: Vec<TemplateFile> = Vec::new();
        proof {
            assert(files_view(r@) =~= spec_filter_files(files_view(files@), config, common));
        }
        return r;
    }
    let ghost orig = files@;
    let mut rest = files;
    let f = rest.remove(0);
    proof {
        assert(rest@ =~= orig.drop_first());
        assert(files_view(rest@) =~= files_view(orig).drop_first());
        assert(files_view(orig) == seq![file_view(orig[0])] + files_view(orig.drop_first()));
        assert(f == orig[0]);
    }
    let skip_this = should_skip(config, common, &f.path);
    let tail = filter_files(rest, config, common);
    if skip_this {
        tail
    } else {
        let ghost gtail = tail@;
        let ghost gf = f;
        let mut out: Vec<TemplateFile> = Vec::new();
        out.push(f);
        let mut tail2 = tail;
        out.append(&mut tail2);
        proof {
            assert(out@ =~= seq![gf] + gtail);
            assert(files_view(out@) =~= seq![file_view(gf)] + files_view(gtail));
        }
        out
    }
}

/// The ordered list of file writes for this configuration: each applicable
/// set in order, minus the excluded files.
pub fn materialize_plan(sets: Vec<TemplateSet>, config: InlineConfig) -> (r: Vec<TemplateFile>)
    ensures
        files_view(r@) == spec_plan(sets_view(sets@), config),
    decreases sets@.len(),
{
    if sets.len() == 0 {
        let r: Vec<TemplateFile> = Vec::new();
        proof {
            assert(files_view(r@) =~= spec_plan(sets_view(sets@), config));
        }
        return r;
    }
    let ghost orig = sets@;
    let mut rest = sets;
    let first = rest.remove(0);
    proof {
        assert(rest@ =~= orig.drop_first());
        assert(sets_view(orig) == seq![(orig[0].common, files_view(orig[0].files@))] + sets_view(
            orig.drop_first(),
        ));
        assert(first == orig[0]);
    }
    let TemplateSet { common, files } = first;
    let mut out = filter_files(files, config, common);
    let ghost gout = out@;
    let mut tail = materialize_plan(rest, config);
    let ghost gtail = tail@;
    out.append(&mut tail);
    proof {
        assert(out@ =~= gout + gtail);
        lemma_files_view_concat(gout, gtail);
        assert((seq![(orig[0].common, files_view(orig[0].files@))] + sets_view(
            orig.drop_first(),
        )).drop_first() =~= sets_view(orig.drop_first()));
        assert(spec_plan(sets_view(orig), config) == spec_filter_files(
            files_view(orig[0].files@),
            config,
            orig[0].common,
        ) + spec_plan(sets_view(orig.drop_first()), config));
        assert(files_view(out@) == spec_plan(sets_view(orig), config));
    }
    out
}

pub proof fn lemma_files_view_concat(a: Seq<TemplateFile>, b: Seq<TemplateFile>)
    ensures
        files_view(a + b) == files_view(a) + files_view(b),
    decreases a.len(),
{
    if a.len() == 0 {
        assert(a + b =~= b);
        assert(files_view(a) + files_view(b) =~= files_view(b));
    } else {
        lemma_files_view_concat(a.drop_first(), b);
        assert((a + b).drop_first() =~= a.drop_first() + b);
        assert(files_view(a + b) == seq![file_view((a + b)[0])] + files_view(a.drop_first() + b));
        assert(files_view(a + b) =~= files_view(a) + files_view(b));
    }
}

/// The tree left on disk after the writes, in order: the later write wins.
pub open spec fn tree_of(plan: Seq<(Seq<char>, Seq<u8>)>) -> Map<Seq<char>, Seq<u8>>
    decreases plan.len(),
{
    if plan.len() == 0 {
        Map::empty()
    } else {
        tree_of(plan.drop_last()).insert(plan.last().0, plan.last().1)
    }
}

/// Does some entry of the set carry this path?
pub open spec fn set_has_path(fs: Seq<(Seq<char>, Seq<u8>)>, p: Seq<char>) -> bool {
    exists|i: int| 0 <= i < fs.len() && fs[i].0 == p
}

proof fn lemma_tree_dom(plan: Seq<(Seq<char>, Seq<u8>)>, p: Seq<char>)
    ensures
        tree_of(plan).dom().contains(p) == set_has_path(plan, p),
    decreases plan.len(),
{
    if plan.len() > 0 {
        lemma_tree_dom(plan.drop_last(), p);
        if plan.last().0 == p {
            assert(plan[plan.len() - 1].0 == p);
            assert(set_has_path(plan, p));
        } else {
            if set_has_path(plan.drop_last(), p) {
                let i = choose|i: int| 0 <= i < plan.drop_last().len() && plan.drop_last()[i].0 == p;
                assert(plan[i].0 == p);
            }
            if set_has_path(plan, p) {
                let i = choose|i: int| 0 <= i < plan.len() && plan[i].0 == p;
                assert(i < plan.len() - 1);
                assert(plan.drop_last()[i].0 == p);
            }
        }
    }
}

proof fn lemma_filter_has_path(
    fs: Seq<(Seq<char>, Seq<u8>)>,
    c: InlineConfig,
    common: bool,
    p: Seq<char>,
)
    ensures
        set_has_path(spec_filter_files(fs, c, common), p) == (set_has_path(fs, p)
            && !spec_should_skip(c, common, p)),
    decreases fs.len(),
{
    if fs.len() > 0 {
        lemma_filter_has_path(fs.drop_first(), c, common, p);
        let r = spec_filter_files(fs, c, common);
        let rr = spec_filter_files(fs.drop_first(), c, common);
        if spec_should_skip(c, common, fs[0].0) {
            if set_has_path(fs, p) && !spec_should_skip(c, common, p) {
                let i = choose|i: int| 0 <= i < fs.len() && fs[i].0 == p;
                assert(i > 0);
                assert(fs.drop_first()[i - 1].0 == p);
            }
            if set_has_path(fs.drop_first(), p) {
                let i = choose|i: int| 0 <= i < fs.drop_first().len() && fs.drop_first()[i].0 == p;
                assert(fs[i + 1].0 == p);
            }
        } else {
            assert(r == seq![fs[0]] + rr);
            if set_has_path(fs, p) && !spec_should_skip(c, common, p) {
                let i = choose|i: int| 0 <= i < fs.len() && fs[i].0 == p;
                if i == 0 {
                    assert(r[0].0 == p);
                } else {
                    assert(fs.drop_first()[i - 1].0 == p);
                    let j = choose|j: int| 0 <= j < rr.len() && rr[j].0 == p;
                    assert(r[j + 1].0 == p);
                }
            }
            if set_has_path(r, p) {
                let i = choose|i: int| 0 <= i < r.len() && r[i].0 == p;
                if i == 0 {
                    assert(fs[0].0 == p);
                } else {
                    assert(rr[i - 1].0 == p);
                    assert(set_has_path(fs.drop_first(), p) && !spec_should_skip(c, common, p));
                    let j = choose|j: int|
                        0 <= j < fs.drop_first().len() && fs.drop_first()[j].0 == p;
                    assert(fs[j + 1].0 == p);
                }
            }
        }
    }
}

proof fn lemma_has_path_concat(
    a: Seq<(Seq<char>, Seq<u8>)>,
    b: Seq<(Seq<char>, Seq<u8>)>,
    p: Seq<char>,
)
    ensures
        set_has_path(a + b, p) == (set_has_path(a, p) || set_has_path(b, p)),
{
    if set_has_path(a, p) {
        let i = choose|i: int| 0 <= i < a.len() && a[i].0 == p;
        assert((a + b)[i].0 == p);
    }
    if set_has_path(b, p) {
        let i = choose|i: int| 0 <= i < b.len() && b[i].0 == p;
        assert((a + b)[a.len() + i].0 == p);
    }
    if set_has_path(a + b, p) {
        let i = choose|i: int| 0 <= i < (a + b).len() && (a + b)[i].0 == p;
        if i < a.len() {
            assert(a[i].0 == p);
        } else {
            assert(b[i - a.len()].0 == p);
        }
    }
}

/// The materialized tree holds exactly the paths some set supplies and the
/// configuration does not exclude from that set.
pub proof fn lemma_materialize_tree(
    sets: Seq<(bool, Seq<(Seq<char>, Seq<u8>)>)>,
    c: InlineConfig,
    p: Seq<char>,
)
    ensures
        tree_of(spec_plan(sets, c)).dom().contains(p) == (exists|k: int|
            0 <= k < sets.len() && set_has_path(#[trigger] sets[k].1, p) && !spec_should_skip(
                c,
                sets[k].0,
                p,
            )),
    decreases sets.len(),
{
    lemma_tree_dom(spec_plan(sets, c), p);
    if sets.len() == 0 {
    } else {
        lemma_materialize_tree(sets.drop_first(), c, p);
        lemma_tree_dom(spec_plan(sets.drop_first(), c), p);
        lemma_filter_has_path(sets[0].1, c, sets[0].0, p);
        lemma_has_path_concat(
            spec_filter_files(sets[0].1, c, sets[0].0),
            spec_plan(sets.drop_first(), c),
            p,
        );
        if set_has_path(spec_plan(sets, c), p) {
            if set_has_path(spec_filter_files(sets[0].1, c, sets[0].0), p) {
                assert(set_has_path(sets[0].1, p) && !spec_should_skip(c, sets[0].0, p));
            } else {
                let k = choose|k: int|
                    0 <= k < sets.drop_first().len() && set_has_path(
                        #[trigger] sets.drop_first()[k].1,
                        p,
                    ) && !spec_should_skip(c, sets.drop_first()[k].0, p);
                assert(sets[k + 1] == sets.drop_first()[k]);
                assert(set_has_path(sets[k + 1].1, p) && !spec_should_skip(c, sets[k + 1].0, p));
            }
        }
        if exists|k: int|
            0 <= k < sets.len() && set_has_path(#[trigger] sets[k].1, p) && !spec_should_skip(
                c,
                sets[k].0,
                p,
            ) {
            let k = choose|k: int|
                0 <= k < sets.len() && set_has_path(#[trigger] sets[k].1, p) && !spec_should_skip(
                    c,
                    sets[k].0,
                    p,
                );
            if k > 0 {
                assert(sets.drop_first()[k - 1] == sets[k]);
                assert(set_has_path(sets.drop_first()[k - 1].1, p) && !spec_should_skip(
                    c,
                    sets.drop_first()[k - 1].0,
                    p,
                ));
                assert(set_has_path(spec_plan(sets.drop_first(), c), p));
            }
            assert(set_has_path(spec_plan(sets, c), p));
        }
    }
}

/// Excluding files is decided per set kind and path alone: filtering a set
/// a second time with the same configuration changes nothing.
pub proof fn lemma_filter_idempotent(fs: Seq<(Seq<char>, Seq<u8>)>, c: InlineConfig, common: bool)
    ensures
        spec_filter_files(spec_filter_files(fs, c, common), c, common) == spec_filter_files(
            fs,
            c,
            common,
        ),
    decreases fs.len(),
{
    if fs.len() > 0 {
        lemma_filter_idempotent(fs.drop_first(), c, common);
        if !spec_should_skip(c, common, fs[0].0) {
            let r = spec_filter_files(fs, c, common);
            assert(r == seq![fs[0]] + spec_filter_files(fs.drop_first(), c, common));
            assert(r.drop_first() =~= spec_filter_files(fs.drop_first(), c, common));
            assert(spec_filter_files(r, c, common) =~= r);
        }
    }
}

/// The template-set identifier of a supported combination; total over the
/// combinations the selector can produce.
pub open spec fn spec_project_type(c: InlineConfig) -> ProjectType {
    match (c.pack_tool, c.lang) {
        (PackTool::Webpack, CodeLanguage::Js) => ProjectType::WebpackReactJs,
        (PackTool::Webpack, CodeLanguage::Ts) => ProjectType::WebpackReactTs,
        (PackTool::Vite, CodeLanguage::Js) => ProjectType::ViteReactJs,
        (PackTool::Vite, CodeLanguage::Ts) => ProjectType::ViteReactTs,
        (PackTool::Rsbuild, CodeLanguage::Js) => ProjectType::RspackReactJs,
        (PackTool::Rsbuild, CodeLanguage::Ts) => ProjectType::RspackReactTs,
        (PackTool::Farm, _) => ProjectType::FarmReact,
        (PackTool::Elza, CodeLanguage::Js) => ProjectType::ElzaReactJs,
        (PackTool::Elza, CodeLanguage::Ts) => ProjectType::ElzaReactTs,
    }
}

pub fn project_type_of(config: InlineConfig) -> (r: ProjectType)
    ensures
        r == spec_project_type(config),
{
    match (config.pack_tool, config.lang) {
        (PackTool::Webpack, CodeLanguage::Js) => ProjectType::WebpackReactJs,
        (PackTool::Webpack, CodeLanguage::Ts) => ProjectType::WebpackReactTs,
        (PackTool::Vite, CodeLanguage::Js) => ProjectType::ViteReactJs,
        (PackTool::Vite, CodeLanguage::Ts) => ProjectType::ViteReactTs,
        (PackTool::Rsbuild, CodeLanguage::Js) => ProjectType::RspackReactJs,
        (PackTool::Rsbuild, CodeLanguage::Ts) => ProjectType::RspackReactTs,
        (PackTool::Farm, _) => ProjectType::FarmReact,
        (PackTool::Elza, CodeLanguage::Js) => ProjectType::ElzaReactJs,
        (PackTool::Elza, CodeLanguage::Ts) => ProjectType::ElzaReactTs,
    }
}

/// Settles the axes that depend on the build tool: farm projects are always
/// TypeScript, only webpack asks for a loader, and the in-house tool takes
/// no CSS preprocessor.
pub fn config_for(
    frame: FrameWork,
    pack_tool: PackTool,
    lang_choice: CodeLanguage,
    loader_choice: JsLoader,
    css_choice: CssPreset,
) -> (r: InlineConfig)
    ensures
        r.frame == frame,
        r.pack_tool == pack_tool,
        r.lang == (if pack_tool is Farm {
            CodeLanguage::Ts
        } else {
            lang_choice
        }),
        r.loader == (if pack_tool is Webpack {
            loader_choice
        } else {
            JsLoader::NoLoader
        }),
        r.css == (if pack_tool is Elza {
            CssPreset::NoPreset
        } else {
            css_choice
        }),
{
    let lang = match pack_tool {
        PackTool::Farm => CodeLanguage::Ts,
        _ => lang_choice,
    };
    let loader = match pack_tool {
        PackTool::Webpack => loader_choice,
        _ => JsLoader::NoLoader,
    };
    let css = match pack_tool {
        PackTool::Elza => CssPreset::NoPreset,
        _ => css_choice,
    };
    InlineConfig { frame, pack_tool, lang, loader, css }
}

} // verus!
