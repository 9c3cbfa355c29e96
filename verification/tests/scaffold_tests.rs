use elza_cli::cli::CodeLanguage;
use elza_cli::cli::CssPreset;
use elza_cli::cli::FrameWork;
use elza_cli::cli::JsLoader;
use elza_cli::json::JsonValue;
use elza_cli::json_read::parse_text;
use elza_cli::json_read::ParseError;
use elza_cli::pack::PackTool;
use elza_cli::package_json::ManifestError;
use elza_cli::project::InlineConfig;
use elza_cli::project::TemplateFile;
use elza_cli::project::TemplateSet;
use elza_cli::scaffold::create;
use elza_cli::scaffold::CreateError;

fn to_chars(s: &str) -> Vec<char> {
    s.chars().collect()
}

fn to_string(v: &[char]) -> String {
    v.iter().collect()
}

fn file(path: &str, content: &str) -> TemplateFile {
    TemplateFile {
        path: to_chars(path),
        content: content.as_bytes().to_vec(),
    }
}

const SKELETON: &str = "{\n  \"name\": \"template\",\n  \"scripts\": {},\n  \"dependencies\": {},\n  \"devDependencies\": {}\n}";

const WEBPACK_COMMON: &str =
    "module: { rules: [{ use: ['placeholder:0'] }] },\nresolve: ['placeholder:1'],\nloader: 'placeholder:2'\n";

fn specific(files: Vec<TemplateFile>) -> TemplateSet {
    TemplateSet { common: false, files }
}

fn shared(files: Vec<TemplateFile>) -> TemplateSet {
    TemplateSet { common: true, files }
}

fn webpack_sets() -> Vec<TemplateSet> {
    let tool_set = vec![
        file(".swcrc", "{}"),
        file(".babelrc", "{}"),
        file("scripts/webpack.common.ts", WEBPACK_COMMON),
        file("src/index.tsx", "render()"),
    ];
    let common_set = vec![file("package.json", SKELETON), file("README.md", "hi")];
    vec![specific(tool_set), shared(common_set)]
}

fn demo_config() -> InlineConfig {
    InlineConfig {
        frame: FrameWork::React,
        pack_tool: PackTool::Webpack,
        lang: CodeLanguage::Ts,
        loader: JsLoader::Swc,
        css: CssPreset::Sass,
    }
}

fn get<'a>(v: &'a JsonValue, key: &str) -> Option<&'a JsonValue> {
    match v {
        JsonValue::Obj(ms) => ms
            .iter()
            .find(|m| to_string(&m.key) == key)
            .map(|m| &m.value),
        _ => None,
    }
}

fn get_str(v: &JsonValue, key: &str) -> Option<String> {
    match get(v, key) {
        Some(JsonValue::Str(s)) => Some(to_string(s)),
        _ => None,
    }
}

#[test]
fn demo_scenario_produces_the_expected_plan() {
    let plan = create("demo", demo_config(), webpack_sets()).unwrap();

    // the tree holds the swc config but not the babel config
    let paths: Vec<String> = plan.files.iter().map(|f| to_string(&f.path)).collect();
    assert!(paths.iter().any(|p| p == ".swcrc"));
    assert!(!paths.iter().any(|p| p == ".babelrc"));

    // the manifest carries the name, the webpack+ts commands, and the
    // expected devDependencies, keys sorted
    let manifest = parse_text(&plan.manifest_text).unwrap();
    assert_eq!(get_str(&manifest, "name").unwrap(), "demo");
    let scripts = get(&manifest, "scripts").unwrap();
    assert_eq!(
        get_str(scripts, "start").unwrap(),
        "cross-env NODE_ENV=development webpack-dev-server --config ./scripts/webpack.dev.ts"
    );
    assert_eq!(
        get_str(scripts, "build").unwrap(),
        "cross-env NODE_ENV=production webpack --config ./scripts/webpack.prod.ts"
    );
    let dev = get(&manifest, "devDependencies").unwrap();
    for name in ["typescript", "sass", "sass-loader", "@swc/core", "swc-loader"] {
        assert!(get_str(dev, name).is_some(), "missing {}", name);
    }
    match dev {
        JsonValue::Obj(ms) => {
            let keys: Vec<String> = ms.iter().map(|m| to_string(&m.key)).collect();
            let mut sorted = keys.clone();
            sorted.sort();
            sorted.dedup();
            assert_eq!(keys, sorted);
        }
        _ => panic!("devDependencies must be an object"),
    }

    // the webpack config was patched with the chosen loaders
    assert_eq!(plan.patched_files.len(), 1);
    assert_eq!(
        to_string(&plan.patched_files[0].path),
        "scripts/webpack.common.ts"
    );
    let patched = to_string(&plan.patched_files[0].text);
    assert!(patched.contains("sass-loader"));
    assert!(patched.contains("scss"));
    assert!(patched.contains("swc-loader"));
    assert!(!patched.contains("placeholder:"));

    // a repository is initialized
    assert!(plan.git_init);
}

#[test]
fn prod_dependencies_land_in_dependencies() {
    let plan = create("demo", demo_config(), webpack_sets()).unwrap();
    let manifest = parse_text(&plan.manifest_text).unwrap();
    let deps = get(&manifest, "dependencies").unwrap();
    assert_eq!(get_str(deps, "react").unwrap(), "^18.2.0");
    assert_eq!(get_str(deps, "axios").unwrap(), "^1.7.9");
    assert_eq!(get_str(deps, "react-router-dom").unwrap(), "^6.23.1");
}

#[test]
fn missing_manifest_is_refused() {
    let sets = vec![specific(vec![file("src/index.tsx", "render()")])];
    assert_eq!(
        create("demo", demo_config(), sets).unwrap_err(),
        CreateError::MissingManifest
    );
}

#[test]
fn non_utf8_manifest_is_refused() {
    let sets = vec![shared(vec![TemplateFile {
        path: to_chars("package.json"),
        content: vec![0xff, 0xfe, 0x00],
    }])];
    assert_eq!(
        create("demo", demo_config(), sets).unwrap_err(),
        CreateError::ManifestNotText
    );
}

#[test]
fn malformed_manifest_is_refused() {
    let sets = vec![shared(vec![
        file("package.json", "{ not json"),
        file("scripts/webpack.common.ts", WEBPACK_COMMON),
    ])];
    assert_eq!(
        create("demo", demo_config(), sets).unwrap_err(),
        CreateError::ManifestSyntax(ParseError::UnexpectedChar)
    );
}

#[test]
fn manifest_without_sections_is_refused() {
    let sets = vec![shared(vec![
        file("package.json", "{\"scripts\": {}}"),
        file("scripts/webpack.common.ts", WEBPACK_COMMON),
    ])];
    assert_eq!(
        create("demo", demo_config(), sets).unwrap_err(),
        CreateError::ManifestShape(ManifestError::SectionMissing)
    );
}

#[test]
fn missing_patch_target_is_refused() {
    let sets = vec![shared(vec![file("package.json", SKELETON)])];
    assert_eq!(
        create("demo", demo_config(), sets).unwrap_err(),
        CreateError::MissingPatchTarget
    );
}

#[test]
fn non_utf8_patch_target_is_refused() {
    let sets = vec![shared(vec![
        file("package.json", SKELETON),
        TemplateFile {
            path: to_chars("scripts/webpack.common.ts"),
            content: vec![0xff, 0xff],
        },
    ])];
    assert_eq!(
        create("demo", demo_config(), sets).unwrap_err(),
        CreateError::PatchTargetNotText
    );
}

#[test]
fn vite_projects_need_no_patching_and_set_module_type() {
    let config = InlineConfig {
        frame: FrameWork::React,
        pack_tool: PackTool::Vite,
        lang: CodeLanguage::Ts,
        loader: JsLoader::NoLoader,
        css: CssPreset::Sass,
    };
    let sets = vec![shared(vec![file("package.json", SKELETON)])];
    let plan = create("demo", config, sets).unwrap();
    assert!(plan.patched_files.is_empty());
    let manifest = parse_text(&plan.manifest_text).unwrap();
    assert_eq!(get_str(&manifest, "type").unwrap(), "module");
    let scripts = get(&manifest, "scripts").unwrap();
    assert_eq!(get_str(scripts, "preview").unwrap(), "vite preview");
    let dev = get(&manifest, "devDependencies").unwrap();
    assert!(get_str(dev, "vite").is_some());
    assert!(get_str(dev, "sass").is_some());
}

const FARM_CONFIG: &str =
    "import { defineConfig } from '@farmfe/core';\nplaceholder:0\nexport default defineConfig({ plugins: [placeholder:1] });\n";

#[test]
fn farm_less_project_gains_the_import_and_the_plugin_call() {
    let config = InlineConfig {
        frame: FrameWork::React,
        pack_tool: PackTool::Farm,
        lang: CodeLanguage::Ts,
        loader: JsLoader::NoLoader,
        css: CssPreset::Less,
    };
    let sets = vec![
        specific(vec![file("farm.config.ts", FARM_CONFIG)]),
        shared(vec![file("package.json", SKELETON)]),
    ];
    let plan = create("demo", config, sets).unwrap();
    assert_eq!(plan.patched_files.len(), 1);
    let patched = to_string(&plan.patched_files[0].text);
    assert!(patched.contains("import less from '@farmfe/js-plugin-less';"));
    assert!(patched.contains("plugins: [less()]"));
    assert!(!patched.contains("placeholder:"));
}

#[test]
fn farm_sass_project_names_the_compiled_plugin_without_an_import() {
    let config = InlineConfig {
        frame: FrameWork::React,
        pack_tool: PackTool::Farm,
        lang: CodeLanguage::Ts,
        loader: JsLoader::NoLoader,
        css: CssPreset::Sass,
    };
    let sets = vec![
        specific(vec![file("farm.config.ts", FARM_CONFIG)]),
        shared(vec![file("package.json", SKELETON)]),
    ];
    let plan = create("demo", config, sets).unwrap();
    let patched = to_string(&plan.patched_files[0].text);
    assert!(patched.contains("plugins: ['@farmfe/plugin-sass']"));
    assert!(!patched.contains("import less"));
}

#[test]
fn rsbuild_config_file_is_picked_by_language() {
    for (lang, path) in [
        (CodeLanguage::Ts, "rsbuild.config.ts"),
        (CodeLanguage::Js, "rsbuild.config.mjs"),
    ] {
        let config = InlineConfig {
            frame: FrameWork::React,
            pack_tool: PackTool::Rsbuild,
            lang,
            loader: JsLoader::NoLoader,
            css: CssPreset::Sass,
        };
        let sets = vec![
            specific(vec![file(path, "placeholder:0\nplugins: [placeholder:1]")]),
            shared(vec![file("package.json", SKELETON)]),
        ];
        let plan = create("demo", config, sets).unwrap();
        assert_eq!(to_string(&plan.patched_files[0].path), path);
        let patched = to_string(&plan.patched_files[0].text);
        assert!(patched.contains("pluginSass()"));
    }
}

#[test]
fn shared_entry_files_give_way_when_the_tool_ships_its_own() {
    let config = InlineConfig {
        frame: FrameWork::React,
        pack_tool: PackTool::Vite,
        lang: CodeLanguage::Ts,
        loader: JsLoader::NoLoader,
        css: CssPreset::Sass,
    };
    let sets = vec![shared(vec![
        file("package.json", SKELETON),
        file("src/index.tsx", "entry"),
        file("src/router/index.tsx", "routes"),
        file("public/index.html", "page"),
    ])];
    let plan = create("demo", config, sets).unwrap();
    let paths: Vec<String> = plan.files.iter().map(|f| to_string(&f.path)).collect();
    assert_eq!(paths, vec!["package.json"]);
}
