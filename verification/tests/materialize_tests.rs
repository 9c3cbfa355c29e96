use elza_cli::cli::CodeLanguage;
use elza_cli::cli::CssPreset;
use elza_cli::cli::FrameWork;
use elza_cli::cli::JsLoader;
use elza_cli::pack::PackTool;
use elza_cli::project::config_for;
use elza_cli::project::materialize_plan;
use elza_cli::project::should_skip;
use elza_cli::project::InlineConfig;
use elza_cli::project::TemplateFile;
use elza_cli::project::TemplateSet;

fn to_chars(s: &str) -> Vec<char> {
    s.chars().collect()
}

fn to_string(v: &[char]) -> String {
    v.iter().collect()
}

fn file(path: &str, content: &str) -> TemplateFile {
    TemplateFile {
        path: to_chars(path),
        content: content.as_bytes().to_vec(),
    }
}

fn webpack_swc_sass() -> InlineConfig {
    InlineConfig {
        frame: FrameWork::React,
        pack_tool: PackTool::Webpack,
        lang: CodeLanguage::Ts,
        loader: JsLoader::Swc,
        css: CssPreset::Sass,
    }
}

/// The tree left by the plan: the last write per path.
fn final_tree(plan: &[TemplateFile]) -> Vec<(String, Vec<u8>)> {
    let mut tree: Vec<(String, Vec<u8>)> = Vec::new();
    for f in plan {
        let path = to_string(&f.path);
        if let Some(entry) = tree.iter_mut().find(|e| e.0 == path) {
            entry.1 = f.content.clone();
        } else {
            tree.push((path, f.content.clone()));
        }
    }
    tree
}

fn specific(files: Vec<TemplateFile>) -> TemplateSet {
    TemplateSet { common: false, files }
}

fn shared(files: Vec<TemplateFile>) -> TemplateSet {
    TemplateSet { common: true, files }
}

#[test]
fn tree_is_union_of_sets_minus_skipped_files() {
    let tool_set = specific(vec![
        file(".swcrc", "swc"),
        file(".babelrc", "babel"),
        file("src/index.tsx", "entry"),
    ]);
    let common_set = shared(vec![file("package.json", "{}"), file("style/app.less", "less")]);
    let plan = materialize_plan(vec![tool_set, common_set], webpack_swc_sass());
    let tree = final_tree(&plan);
    let paths: Vec<&str> = tree.iter().map(|e| e.0.as_str()).collect();
    // union of both sets, minus .babelrc (the loader is swc) and the .less
    // stylesheet (the preprocessor is sass)
    assert_eq!(paths, vec![".swcrc", "src/index.tsx", "package.json"]);
}

#[test]
fn later_set_wins_on_a_shared_path() {
    let first = specific(vec![file("shared.txt", "from first")]);
    let second = shared(vec![file("shared.txt", "from second")]);
    let plan = materialize_plan(vec![first, second], webpack_swc_sass());
    let tree = final_tree(&plan);
    assert_eq!(tree.len(), 1);
    assert_eq!(tree[0].1, b"from second".to_vec());
}

#[test]
fn materializing_twice_with_one_configuration_changes_nothing() {
    let set = vec![
        file(".swcrc", "swc"),
        file(".babelrc", "babel"),
        file("a.scss", "x"),
        file("a.less", "y"),
    ];
    let config = webpack_swc_sass();
    let once = materialize_plan(vec![specific(set)], config);
    let twice = materialize_plan(vec![specific(clone_files(&once))], config);
    assert_eq!(final_tree(&once), final_tree(&twice));
}

#[test]
fn common_entry_and_router_give_way_to_the_build_tools_own() {
    let common_files = || {
        vec![
            file("src/index.tsx", "entry"),
            file("public/index.html", "page"),
            file("src/router/index.tsx", "routes"),
            file("package.json", "{}"),
        ]
    };
    for tool in [PackTool::Vite, PackTool::Rsbuild, PackTool::Farm] {
        let mut config = webpack_swc_sass();
        config.pack_tool = tool;
        config.loader = JsLoader::NoLoader;
        let plan = materialize_plan(vec![shared(common_files())], config);
        let tree = final_tree(&plan);
        let paths: Vec<&str> = tree.iter().map(|e| e.0.as_str()).collect();
        assert_eq!(paths, vec!["package.json"], "{:?}", tool);
    }
    // webpack has no scaffolding of its own: the shared files stay
    let plan = materialize_plan(vec![shared(common_files())], webpack_swc_sass());
    assert_eq!(final_tree(&plan).len(), 4);
    // and a tool-specific set keeps its own entry even for those tools
    let mut config = webpack_swc_sass();
    config.pack_tool = PackTool::Vite;
    config.loader = JsLoader::NoLoader;
    let plan = materialize_plan(vec![specific(vec![file("src/index.tsx", "own")])], config);
    assert_eq!(final_tree(&plan).len(), 1);
}

fn clone_files(v: &[TemplateFile]) -> Vec<TemplateFile> {
    v.iter()
        .map(|f| TemplateFile {
            path: f.path.clone(),
            content: f.content.clone(),
        })
        .collect()
}

#[test]
fn skip_decisions_are_a_pure_function_of_set_kind_path_and_config() {
    let config = webpack_swc_sass();
    for common in [false, true] {
        for path in [".babelrc", ".swcrc", "style/a.less", "style/a.scss", "src/x.ts"] {
            let first = should_skip(config, common, &to_chars(path));
            let second = should_skip(config, common, &to_chars(path));
            assert_eq!(first, second);
        }
    }
    assert!(should_skip(config, false, &to_chars(".babelrc")));
    assert!(!should_skip(config, false, &to_chars(".swcrc")));
    assert!(should_skip(config, true, &to_chars("style/a.less")));
    assert!(!should_skip(config, true, &to_chars("style/a.scss")));
}

#[test]
fn babel_loader_skips_the_swc_config() {
    let mut config = webpack_swc_sass();
    config.loader = JsLoader::Babel;
    assert!(should_skip(config, false, &to_chars(".swcrc")));
    assert!(!should_skip(config, false, &to_chars(".babelrc")));
}

#[test]
fn config_for_forces_the_dependent_axes() {
    let c = config_for(
        FrameWork::React,
        PackTool::Farm,
        CodeLanguage::Js,
        JsLoader::Babel,
        CssPreset::Sass,
    );
    assert_eq!(c.lang, CodeLanguage::Ts);
    assert_eq!(c.loader, JsLoader::NoLoader);
    assert_eq!(c.css, CssPreset::Sass);
    let w = config_for(
        FrameWork::React,
        PackTool::Webpack,
        CodeLanguage::Js,
        JsLoader::Babel,
        CssPreset::Less,
    );
    assert_eq!(w.lang, CodeLanguage::Js);
    assert_eq!(w.loader, JsLoader::Babel);
    let e = config_for(
        FrameWork::React,
        PackTool::Elza,
        CodeLanguage::Js,
        JsLoader::Babel,
        CssPreset::Sass,
    );
    assert_eq!(e.css, CssPreset::NoPreset);
    assert_eq!(e.loader, JsLoader::NoLoader);
}
