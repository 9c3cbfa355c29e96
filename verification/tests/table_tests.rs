use elza_cli::cli::css_from_index;
use elza_cli::cli::get_possible_frame_values;
use elza_cli::cli::frame_from_index;
use elza_cli::cli::lang_from_index;
use elza_cli::cli::loader_from_index;
use elza_cli::cli::pack_tool_from_index;
use elza_cli::cli::CodeLanguage;
use elza_cli::cli::CssPreset;
use elza_cli::cli::DependenciesMod;
use elza_cli::cli::FrameWork;
use elza_cli::cli::JsLoader;
use elza_cli::comprehensive::ComprehensiveType;
use elza_cli::pack::PackTool;
use elza_cli::state::state_from_index;
use elza_cli::state::StateManagement;
use elza_cli::ui::ui_from_index;
use elza_cli::ui::UIDesign;

#[test]
fn react_implies_the_runtime_packages() {
    let deps = FrameWork::React.get_dependencies();
    let names: Vec<&str> = deps.iter().map(|d| d.name).collect();
    assert_eq!(names, vec!["axios", "react", "react-dom", "react-router-dom"]);
    assert!(deps.iter().all(|d| matches!(d.mod_type, DependenciesMod::Prod)));
    assert_eq!(deps[1].version, "^18.2.0");
}

#[test]
fn typescript_on_webpack_brings_the_toolchain_and_types() {
    let deps = CodeLanguage::Ts.get_dependencies(PackTool::Webpack, FrameWork::React);
    let names: Vec<&str> = deps.iter().map(|d| d.name).collect();
    assert_eq!(
        names,
        vec![
            "@babel/preset-typescript",
            "@types/node",
            "@types/webpack",
            "ts-node",
            "typescript",
            "@types/react",
            "@types/react-dom",
        ]
    );
}

#[test]
fn javascript_on_webpack_needs_nothing_extra() {
    let deps = CodeLanguage::Js.get_dependencies(PackTool::Webpack, FrameWork::React);
    assert!(deps.is_empty());
}

#[test]
fn farm_forces_its_react_plugin_for_both_languages() {
    for lang in [CodeLanguage::Js, CodeLanguage::Ts] {
        let deps = lang.get_dependencies(PackTool::Farm, FrameWork::React);
        assert_eq!(deps[0].name, "@farmfe/plugin-react");
    }
}

#[test]
fn swc_loader_brings_the_swc_packages() {
    let deps = JsLoader::Swc.get_dependencies();
    let names: Vec<&str> = deps.iter().map(|d| d.name).collect();
    assert_eq!(names, vec!["@swc/core", "swc-loader", "swc-plugin-auto-css-module"]);
    assert_eq!(deps[0].version, "1.6.6");
}

#[test]
fn babel_loader_brings_the_babel_packages() {
    let deps = JsLoader::Babel.get_dependencies();
    assert_eq!(deps.len(), 7);
    assert_eq!(deps[4].name, "@babel/runtime");
    assert!(matches!(deps[4].mod_type, DependenciesMod::Prod));
}

#[test]
fn no_loader_brings_nothing() {
    assert!(JsLoader::NoLoader.get_dependencies().is_empty());
}

#[test]
fn sass_depends_on_the_build_tool() {
    let on_webpack = CssPreset::Sass.get_dependencies(PackTool::Webpack);
    let names: Vec<&str> = on_webpack.iter().map(|d| d.name).collect();
    assert_eq!(names, vec!["sass", "sass-loader"]);
    let on_vite = CssPreset::Sass.get_dependencies(PackTool::Vite);
    assert_eq!(on_vite.len(), 1);
    assert_eq!(on_vite[0].name, "sass");
    let on_rsbuild = CssPreset::Sass.get_dependencies(PackTool::Rsbuild);
    assert_eq!(on_rsbuild[0].name, "@rsbuild/plugin-sass");
    let on_farm = CssPreset::Sass.get_dependencies(PackTool::Farm);
    assert_eq!(on_farm[0].name, "@farmfe/plugin-sass");
}

#[test]
fn less_depends_on_the_build_tool() {
    let on_webpack = CssPreset::Less.get_dependencies(PackTool::Webpack);
    let names: Vec<&str> = on_webpack.iter().map(|d| d.name).collect();
    assert_eq!(names, vec!["less", "less-loader"]);
    let on_farm = CssPreset::Less.get_dependencies(PackTool::Farm);
    assert_eq!(on_farm[0].name, "@farmfe/js-plugin-less");
}

#[test]
fn no_preset_brings_nothing() {
    assert!(CssPreset::NoPreset.get_dependencies(PackTool::Webpack).is_empty());
    assert!(CssPreset::NoPreset.get_dependencies(PackTool::Elza).is_empty());
}

#[test]
fn webpack_brings_its_whole_toolchain() {
    let deps = PackTool::Webpack.get_dependencies();
    assert_eq!(deps.len(), 16);
    assert_eq!(deps[0].name, "webpack-plugin-auto-routes");
    assert_eq!(deps[0].version, "1.1.0");
    assert!(deps.iter().any(|d| d.name == "webpack-dev-server"));
}

#[test]
fn other_tools_bring_their_packages() {
    assert_eq!(PackTool::Vite.get_dependencies().len(), 2);
    assert_eq!(PackTool::Rsbuild.get_dependencies().len(), 2);
    assert_eq!(PackTool::Farm.get_dependencies().len(), 6);
    let elza = PackTool::Elza.get_dependencies();
    assert_eq!(elza.len(), 1);
    assert_eq!(elza[0].name, "elza");
}

#[test]
fn comprehensive_combinations_match_their_tables() {
    assert!(ComprehensiveType::WebpackReactJs.get_dependencies().is_empty());
    let ts = ComprehensiveType::WebpackReactTs.get_dependencies();
    assert_eq!(ts.len(), 5);
    assert_eq!(ts[0].name, "@babel/preset-typescript");
    let vite_js = ComprehensiveType::ViteReactJs.get_dependencies();
    assert_eq!(vite_js[0].name, "@vitejs/plugin-react");
    assert_eq!(ComprehensiveType::ViteReactTs.get_dependencies().len(), 3);
}

#[test]
fn ui_and_state_tables() {
    assert_eq!(UIDesign::Antd.get_dependencies()[0].name, "antd");
    assert_eq!(UIDesign::ElementPlus.get_dependencies()[0].name, "element-plus");
    let z = StateManagement::Zustand.get_dependencies();
    assert_eq!(z[0].name, "zustand");
    assert!(matches!(z[0].mod_type, DependenciesMod::Prod));
    assert!(StateManagement::NoState.get_dependencies().is_empty());
}

#[test]
fn selector_indexes_map_to_their_values() {
    assert_eq!(frame_from_index(0), Some(FrameWork::React));
    assert_eq!(frame_from_index(1), None);
    assert_eq!(lang_from_index(0), Some(CodeLanguage::Ts));
    assert_eq!(lang_from_index(1), Some(CodeLanguage::Js));
    assert_eq!(lang_from_index(2), None);
    assert_eq!(loader_from_index(0), Some(JsLoader::Babel));
    assert_eq!(loader_from_index(1), Some(JsLoader::Swc));
    assert_eq!(loader_from_index(9), None);
    assert_eq!(css_from_index(0), Some(CssPreset::Sass));
    assert_eq!(css_from_index(1), Some(CssPreset::Less));
    assert_eq!(css_from_index(2), None);
    assert_eq!(pack_tool_from_index(0), Some(PackTool::Farm));
    assert_eq!(pack_tool_from_index(1), Some(PackTool::Rsbuild));
    assert_eq!(pack_tool_from_index(2), Some(PackTool::Vite));
    assert_eq!(pack_tool_from_index(3), Some(PackTool::Webpack));
    assert_eq!(pack_tool_from_index(4), None);
    assert_eq!(ui_from_index(0), Some(UIDesign::Antd));
    assert_eq!(ui_from_index(1), Some(UIDesign::ElementPlus));
    assert_eq!(ui_from_index(5), None);
    assert_eq!(state_from_index(0), Some(StateManagement::Zustand));
    assert_eq!(state_from_index(1), Some(StateManagement::NoState));
    assert_eq!(state_from_index(2), None);
}

#[test]
fn possible_frame_values_lists_the_supported_frameworks() {
    let v: String = get_possible_frame_values().iter().collect();
    assert_eq!(v, "react");
}
