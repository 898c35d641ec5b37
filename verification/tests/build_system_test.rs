use uv_migrator::utils::build_system::{determine_if_package_project, update_build_system};
use uv_migrator::utils::toml::{get_path_node, str_at, Node};

/// Reads TOML text as a document node.
fn doc(text: &str) -> Node {
    let parsed: toml_edit::DocumentMut = text.parse().unwrap();
    table_node(parsed.as_table())
}

fn table_node(t: &toml_edit::Table) -> Node {
    Node::Table {
        implicit: t.is_implicit(),
        entries: t.iter().map(|(k, v)| (k.to_string(), item_node(v))).collect(),
    }
}

fn item_node(item: &toml_edit::Item) -> Node {
    match item {
        toml_edit::Item::Table(t) => table_node(t),
        toml_edit::Item::ArrayOfTables(a) => Node::ArrayOfTables(a.iter().map(table_node).collect()),
        toml_edit::Item::Value(v) => value_node(v),
        toml_edit::Item::None => Node::Other(String::new()),
    }
}

fn value_node(v: &toml_edit::Value) -> Node {
    match v {
        toml_edit::Value::String(s) => Node::Str(s.value().clone()),
        toml_edit::Value::Array(a) => Node::Array(a.iter().map(value_node).collect()),
        toml_edit::Value::InlineTable(t) => {
            Node::InlineTable(t.iter().map(|(k, v)| (k.to_string(), value_node(v))).collect())
        }
        other => Node::Other(other.clone().decorated("", "").to_string()),
    }
}

fn hatchling_requires(d: &Node) -> Option<String> {
    match get_path_node(d, &["build-system", "requires"]) {
        Some(Node::Array(v)) => v.first().and_then(|x| match x {
            Node::Str(s) => Some(s.clone()),
            _ => None,
        }),
        _ => None,
    }
}

const NEW_CONTENT: &str = "\n[project]\nname = \"test-project\"\nversion = \"0.1.0\"\n";

#[test]
fn test_poetry_to_hatchling_conversion_with_existing_build_system() {
    let old = doc(r#"
[tool.poetry]
name = "test-project"
version = "0.1.0"

[build-system]
requires = ["poetry-core"]
build-backend = "poetry.core.masonry.api"
"#);
    let mut d = doc(NEW_CONTENT);
    assert!(update_build_system(&mut d, &old, false, false));
    assert_eq!(hatchling_requires(&d), Some("hatchling".to_string()));
    assert_eq!(str_at(&d, &["build-system", "build-backend"]), Some("hatchling.build".to_string()));
}

#[test]
fn test_poetry_to_hatchling_with_poetry_package_config() {
    let old = doc(r#"
[tool.poetry]
name = "test-project"
version = "0.1.0"

[tool.poetry.packages]
packages = [
     { from = "src" },
]
"#);
    let mut d = doc(NEW_CONTENT);
    assert!(update_build_system(&mut d, &old, false, false));
    assert_eq!(hatchling_requires(&d), Some("hatchling".to_string()));
}

#[test]
fn test_poetry_to_hatchling_with_setup_py() {
    let old = doc("\n[tool.poetry]\nname = \"test-project\"\nversion = \"0.1.0\"\n");
    let mut d = doc(NEW_CONTENT);
    assert!(update_build_system(&mut d, &old, true, false));
    assert_eq!(str_at(&d, &["build-system", "build-backend"]), Some("hatchling.build".to_string()));
}

#[test]
fn test_poetry_to_hatchling_with_src_init() {
    let old = doc("\n[tool.poetry]\nname = \"test-project\"\nversion = \"0.1.0\"\n");
    let mut d = doc(NEW_CONTENT);
    assert!(update_build_system(&mut d, &old, false, true));
    assert_eq!(str_at(&d, &["build-system", "build-backend"]), Some("hatchling.build".to_string()));
}

#[test]
fn test_poetry_to_hatchling_with_pep621_indicators() {
    let old = doc(r#"
[project]
name = "test-project"
version = "0.1.0"
description = "A test project"
classifiers = ["Programming Language :: Python"]
keywords = ["test", "project"]
urls = { repository = "https://github.com/user/repo" }
"#);
    let mut d = doc(NEW_CONTENT);
    assert!(update_build_system(&mut d, &old, false, false));
    assert_eq!(str_at(&d, &["build-system", "build-backend"]), Some("hatchling.build".to_string()));
}

#[test]
fn test_no_build_system_for_application() {
    let old = doc("\n[tool.poetry]\nname = \"test-project\"\nversion = \"0.1.0\"\ndescription = \"A simple application\"\n");
    let mut d = doc(NEW_CONTENT);
    assert!(!update_build_system(&mut d, &old, false, false));
    assert!(get_path_node(&d, &["build-system"]).is_none());
}

#[test]
fn test_determine_if_package_project() {
    let d = doc("\n[tool.poetry]\nname = \"test-project\"\nversion = \"0.1.0\"\npackages = [\n    { include = \"src\" }\n]\n");
    assert!(determine_if_package_project(&d, false, false), "Should detect package project from Poetry packages config");
    let d2 = doc("\n[project]\nname = \"test-project\"\nversion = \"0.1.0\"\npackages = [\n    { include = \"src\" }\n]\n");
    assert!(determine_if_package_project(&d2, false, false), "Should detect package project from Poetry 2.0 packages config");
}

#[test]
fn test_single_package_include() {
    let d = doc("\n[tool.poetry]\nname = \"test-project\"\nversion = \"0.1.0\"\npackages = [\n    { include = \"src\" }\n]\n");
    assert!(determine_if_package_project(&d, false, false), "Should detect package from single include format");
}

#[test]
fn test_multiple_package_includes() {
    let d = doc("\n[tool.poetry]\nname = \"test-project\"\nversion = \"0.1.0\"\npackages = [\n    { include = \"src\" },\n    { include = \"lib\" }\n]\n");
    assert!(determine_if_package_project(&d, false, false), "Should detect package from multiple includes");
}

#[test]
fn test_one_pep621_indicator_is_not_enough() {
    let d = doc("[project]\nname = \"x\"\nkeywords = [\"a\"]\n");
    assert!(!determine_if_package_project(&d, false, false));
}

#[test]
fn build_system_test_no_old_pyproject() {
    let new_content = r#"
[project]
name = "test-project"
version = "0.1.0"
"#;
    let mut d = doc(new_content);
    // Without an old pyproject.toml there is nothing that makes a package.
    let old = uv_migrator::utils::documents::parse_toml("").unwrap();
    let result = update_build_system(&mut d, &old, false, false);
    assert!(!result);
}
