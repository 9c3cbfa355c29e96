use elza_cli::cli::DependenciesMod;
use elza_cli::json::JsonValue;
use elza_cli::json_read::parse_text;
use elza_cli::package_json::ManifestError;
use elza_cli::package_json::PackageBasicInfo;
use elza_cli::package_json::PackageJson;
use elza_cli::package_json::ProjectType;

fn to_chars(s: &str) -> Vec<char> {
    s.chars().collect()
}

fn to_string(v: &[char]) -> String {
    v.iter().collect()
}

const SKELETON: &str = "{\n  \"name\": \"template\",\n  \"scripts\": {},\n  \"dependencies\": {},\n  \"devDependencies\": {}\n}";

fn skeleton() -> PackageJson {
    PackageJson::new(&to_chars(SKELETON)).unwrap()
}

fn get<'a>(v: &'a JsonValue, key: &str) -> Option<&'a JsonValue> {
    match v {
        JsonValue::Obj(ms) => ms
            .iter()
            .find(|m| to_string(&m.key) == key)
            .map(|m| &m.value),
        _ => None,
    }
}

fn get_str(v: &JsonValue, key: &str) -> Option<String> {
    match get(v, key) {
        Some(JsonValue::Str(s)) => Some(to_string(s)),
        _ => None,
    }
}

#[test]
fn update_basic_sets_name_and_webpack_ts_scripts() {
    let mut pkg = skeleton();
    let basic = PackageBasicInfo {
        name: "demo".to_string(),
        project_type: ProjectType::WebpackReactTs,
    };
    assert!(pkg.update_basic(basic).is_ok());
    assert_eq!(get_str(&pkg.json, "name").unwrap(), "demo");
    let scripts = get(&pkg.json, "scripts").unwrap();
    assert_eq!(
        get_str(scripts, "start").unwrap(),
        "cross-env NODE_ENV=development webpack-dev-server --config ./scripts/webpack.dev.ts"
    );
    assert_eq!(
        get_str(scripts, "build").unwrap(),
        "cross-env NODE_ENV=production webpack --config ./scripts/webpack.prod.ts"
    );
    assert!(get_str(scripts, "preview").is_none());
    assert!(get(&pkg.json, "type").is_none());
}

#[test]
fn update_basic_sets_module_type_and_preview_for_vite() {
    let mut pkg = skeleton();
    let basic = PackageBasicInfo {
        name: "demo".to_string(),
        project_type: ProjectType::ViteReactTs,
    };
    assert!(pkg.update_basic(basic).is_ok());
    assert_eq!(get_str(&pkg.json, "type").unwrap(), "module");
    let scripts = get(&pkg.json, "scripts").unwrap();
    assert_eq!(get_str(scripts, "start").unwrap(), "vite");
    assert_eq!(get_str(scripts, "build").unwrap(), "vite build");
    assert_eq!(get_str(scripts, "preview").unwrap(), "vite preview");
}

#[test]
fn update_basic_makes_a_scripts_object_when_missing() {
    let mut pkg = PackageJson::new(&to_chars("{\"dependencies\": {}}")).unwrap();
    let basic = PackageBasicInfo {
        name: "demo".to_string(),
        project_type: ProjectType::FarmReact,
    };
    assert!(pkg.update_basic(basic).is_ok());
    let scripts = get(&pkg.json, "scripts").unwrap();
    assert_eq!(get_str(scripts, "start").unwrap(), "farm start");
}

#[test]
fn update_basic_refuses_a_scalar_scripts_member() {
    let mut pkg = PackageJson::new(&to_chars("{\"scripts\": 3}")).unwrap();
    let basic = PackageBasicInfo {
        name: "demo".to_string(),
        project_type: ProjectType::FarmReact,
    };
    assert_eq!(pkg.update_basic(basic), Err(ManifestError::ScriptsNotObject));
}

#[test]
fn update_basic_refuses_a_non_object_root() {
    let mut pkg = PackageJson::new(&to_chars("[1, 2]")).unwrap();
    let basic = PackageBasicInfo {
        name: "demo".to_string(),
        project_type: ProjectType::FarmReact,
    };
    assert_eq!(pkg.update_basic(basic), Err(ManifestError::RootNotObject));
}

#[test]
fn update_dependencies_inserts_into_the_right_section() {
    let mut pkg = skeleton();
    pkg.update_dependencies("react", "^18.2.0", DependenciesMod::Prod)
        .unwrap();
    pkg.update_dependencies("typescript", "^5.5.2", DependenciesMod::Dev)
        .unwrap();
    let deps = get(&pkg.json, "dependencies").unwrap();
    assert_eq!(get_str(deps, "react").unwrap(), "^18.2.0");
    let dev = get(&pkg.json, "devDependencies").unwrap();
    assert_eq!(get_str(dev, "typescript").unwrap(), "^5.5.2");
}

#[test]
fn update_dependencies_twice_keeps_one_entry_with_the_later_value() {
    let mut pkg = skeleton();
    pkg.update_dependencies("react", "^17.0.0", DependenciesMod::Prod)
        .unwrap();
    pkg.update_dependencies("react", "^18.2.0", DependenciesMod::Prod)
        .unwrap();
    match get(&pkg.json, "dependencies").unwrap() {
        JsonValue::Obj(ms) => {
            assert_eq!(ms.len(), 1);
            assert_eq!(to_string(&ms[0].key), "react");
        }
        _ => panic!("dependencies must be an object"),
    }
    assert_eq!(
        get_str(get(&pkg.json, "dependencies").unwrap(), "react").unwrap(),
        "^18.2.0"
    );
}

#[test]
fn update_dependencies_fails_without_the_section() {
    let mut pkg = PackageJson::new(&to_chars("{\"dependencies\": {}}")).unwrap();
    assert_eq!(
        pkg.update_dependencies("typescript", "^5.5.2", DependenciesMod::Dev),
        Err(ManifestError::SectionMissing)
    );
}

#[test]
fn update_dependencies_fails_on_a_scalar_section() {
    let mut pkg = PackageJson::new(&to_chars("{\"dependencies\": \"no\"}")).unwrap();
    assert_eq!(
        pkg.update_dependencies("react", "^18.2.0", DependenciesMod::Prod),
        Err(ManifestError::SectionNotObject)
    );
}

#[test]
fn sort_orders_both_dependency_maps_after_reparsing() {
    let source = "{\"devDependencies\": {\"zzz\": \"1\", \"aaa\": \"2\", \"mmm\": \"3\"}, \"dependencies\": {\"react\": \"1\", \"axios\": \"2\"}}";
    let mut pkg = PackageJson::new(&to_chars(source)).unwrap();
    pkg.sort();
    let text = pkg.text();
    let reparsed = parse_text(&text).unwrap();
    for section in ["dependencies", "devDependencies"] {
        match get(&reparsed, section).unwrap() {
            JsonValue::Obj(ms) => {
                let keys: Vec<String> = ms.iter().map(|m| to_string(&m.key)).collect();
                let mut sorted = keys.clone();
                sorted.sort();
                sorted.dedup();
                assert_eq!(keys, sorted, "{} keys must be strictly ascending", section);
            }
            _ => panic!("{} must be an object", section),
        }
    }
}

#[test]
fn sort_leaves_other_members_in_place() {
    let source = "{\"zeta\": 1, \"alpha\": 2, \"dependencies\": {\"b\": \"1\", \"a\": \"2\"}}";
    let mut pkg = PackageJson::new(&to_chars(source)).unwrap();
    pkg.sort();
    match &pkg.json {
        JsonValue::Obj(ms) => {
            let keys: Vec<String> = ms.iter().map(|m| to_string(&m.key)).collect();
            assert_eq!(keys, vec!["zeta", "alpha", "dependencies"]);
        }
        _ => panic!("root must be an object"),
    }
}
