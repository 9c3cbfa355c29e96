use elza_cli::registry::installed_version_from_listing;
use elza_cli::registry::latest_version_from_body;
use elza_cli::registry::registry_from_npmrc;

fn to_chars(s: &str) -> Vec<char> {
    s.chars().collect()
}

fn to_string(v: &[char]) -> String {
    v.iter().collect()
}

const DEFAULT: &str = "https://registry.npmjs.org/";

#[test]
fn npmrc_registry_line_is_found_and_trimmed() {
    let text = "strict-ssl=false\nregistry=https://mirror.example.org/npm/ \nsave-exact=true\n";
    assert_eq!(
        to_string(&registry_from_npmrc(&to_chars(text))),
        "https://mirror.example.org/npm/"
    );
}

#[test]
fn npmrc_without_registry_line_gives_the_default() {
    let text = "strict-ssl=false\nsave-exact=true\n";
    assert_eq!(to_string(&registry_from_npmrc(&to_chars(text))), DEFAULT);
    assert_eq!(to_string(&registry_from_npmrc(&to_chars(""))), DEFAULT);
}

#[test]
fn npmrc_crlf_lines_are_handled() {
    let text = "a=b\r\nregistry=https://r.example/\r\n";
    assert_eq!(
        to_string(&registry_from_npmrc(&to_chars(text))),
        "https://r.example/"
    );
}

#[test]
fn npmrc_first_registry_line_wins() {
    let text = "registry=https://first.example/\nregistry=https://second.example/\n";
    assert_eq!(
        to_string(&registry_from_npmrc(&to_chars(text))),
        "https://first.example/"
    );
}

#[test]
fn latest_version_is_read_from_dist_tags() {
    let body = "{\"name\": \"elza-cli\", \"dist-tags\": {\"latest\": \"1.3.0\", \"beta\": \"2.0.0-beta.1\"}}";
    assert_eq!(
        to_string(&latest_version_from_body(&to_chars(body)).unwrap()),
        "1.3.0"
    );
}

#[test]
fn missing_dist_tags_reads_as_the_empty_version() {
    let body = "{\"name\": \"elza-cli\"}";
    assert_eq!(to_string(&latest_version_from_body(&to_chars(body)).unwrap()), "");
    let body2 = "{\"dist-tags\": {\"latest\": 3}}";
    assert_eq!(to_string(&latest_version_from_body(&to_chars(body2)).unwrap()), "");
}

#[test]
fn malformed_reply_gives_none() {
    assert!(latest_version_from_body(&to_chars("not json")).is_none());
}

#[test]
fn installed_version_is_read_from_the_listing() {
    let body = "{\"dependencies\": {\"elza-cli\": {\"version\": \"1.2.3\"}}}";
    assert_eq!(
        to_string(&installed_version_from_listing(&to_chars(body), "elza-cli").unwrap()),
        "1.2.3"
    );
}

#[test]
fn listing_without_the_package_gives_none() {
    let body = "{\"dependencies\": {}}";
    assert!(installed_version_from_listing(&to_chars(body), "elza-cli").is_none());
    assert!(installed_version_from_listing(&to_chars("nope"), "elza-cli").is_none());
}
