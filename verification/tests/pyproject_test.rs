use uv_migrator::utils::pyproject::{
    append_tool_sections, extract_poetry_packages, extract_poetry_sources, extract_project_name,
    parse_index_spec, update_authors, update_description, update_git_dependencies,
    update_project_version, update_pyproject_toml, update_scripts, update_url, update_uv_indices,
    update_uv_indices_from_urls,
};
use uv_migrator::utils::author::Author;
use uv_migrator::utils::toml::{cleanup_empty_sections, get_path_node, reorder_toml_sections, str_at, update_section, Node};
use uv_migrator::models::GitDependency;

/// Reads TOML text as a document node.
fn doc(text: &str) -> Node {
    let parsed: toml_edit::DocumentMut = text.parse().unwrap();
    table_node(parsed.as_table())
}

fn table_node(t: &toml_edit::Table) -> Node {
    Node::Table {
        implicit: t.is_implicit(),
        entries: t.iter().map(|(k, v)| (k.to_string(), item_node(v))).collect(),
    }
}

fn item_node(item: &toml_edit::Item) -> Node {
    match item {
        toml_edit::Item::Table(t) => table_node(t),
        toml_edit::Item::ArrayOfTables(a) => Node::ArrayOfTables(a.iter().map(table_node).collect()),
        toml_edit::Item::Value(v) => value_node(v),
        toml_edit::Item::None => Node::Other(String::new()),
    }
}

fn value_node(v: &toml_edit::Value) -> Node {
    match v {
        toml_edit::Value::String(s) => Node::Str(s.value().clone()),
        toml_edit::Value::Array(a) => Node::Array(a.iter().map(value_node).collect()),
        toml_edit::Value::InlineTable(t) => {
            Node::InlineTable(t.iter().map(|(k, v)| (k.to_string(), value_node(v))).collect())
        }
        other => Node::Other(other.clone().decorated("", "").to_string()),
    }
}

fn at<'a>(n: &'a Node, path: &[&str]) -> Option<&'a Node> {
    get_path_node(n, path)
}

fn text_at(n: &Node, path: &[&str]) -> Option<String> {
    str_at(n, path)
}

fn keys(n: &Node) -> Vec<String> {
    match n {
        Node::Table { entries, .. } | Node::InlineTable(entries) => entries.iter().map(|(k, _)| k.clone()).collect(),
        _ => vec![],
    }
}

#[test]
fn test_parse_index_spec() {
    // Test valid name@url format
    let (name, url) = parse_index_spec("myindex@https://example.com/simple/", 1);
    assert_eq!(name, "myindex");
    assert_eq!(url, "https://example.com/simple/");

    // Test URL without name
    let (name, url) = parse_index_spec("https://example.com/simple/", 5);
    assert_eq!(name, "extra-5");
    assert_eq!(url, "https://example.com/simple/");

    // Test with spaces
    let (name, url) = parse_index_spec("  my-index  @  https://example.com/  ", 1);
    assert_eq!(name, "my-index");
    assert_eq!(url, "https://example.com/");

    // Test invalid formats
    let (name, url) = parse_index_spec("@https://example.com/", 3);
    assert_eq!(name, "extra-3");
    assert_eq!(url, "@https://example.com/");

    let (name, url) = parse_index_spec("name@", 4);
    assert_eq!(name, "extra-4");
    assert_eq!(url, "name@");

    // Test empty name
    let (name, url) = parse_index_spec(" @https://example.com/", 2);
    assert_eq!(name, "extra-2");
    assert_eq!(url, " @https://example.com/");

    // Test multiple @ symbols
    let (name, url) = parse_index_spec("my@index@https://example.com/", 1);
    assert_eq!(name, "my");
    assert_eq!(url, "index@https://example.com/");
}

#[test]
fn test_parse_index_spec_large_position() {
    let (name, url) = parse_index_spec("https://example.com/", 1234);
    assert_eq!(name, "extra-1234");
    assert_eq!(url, "https://example.com/");
}

#[test]
fn test_update_uv_indices_with_custom_names() {
    let mut d = doc("[project]\nname = \"test-project\"\nversion = \"0.1.0\"\n");
    let urls = vec![
        "mycompany@https://pypi.mycompany.com/simple/".to_string(),
        "https://pypi.org/simple/".to_string(),
        "torch@https://download.pytorch.org/whl/cu118".to_string(),
        "@https://invalid.example.com/".to_string(),
        "name-with-dashes@https://example.com/pypi/".to_string(),
    ];
    update_uv_indices_from_urls(&mut d, &urls);
    let index = match at(&d, &["tool", "uv", "index"]) {
        Some(Node::Array(v)) => v,
        _ => panic!("no index array"),
    };
    let pairs: Vec<(String, String)> = index
        .iter()
        .map(|e| (text_at(e, &["name"]).unwrap(), text_at(e, &["url"]).unwrap()))
        .collect();
    assert_eq!(
        pairs,
        vec![
            ("mycompany".to_string(), "https://pypi.mycompany.com/simple/".to_string()),
            ("extra-2".to_string(), "https://pypi.org/simple/".to_string()),
            ("torch".to_string(), "https://download.pytorch.org/whl/cu118".to_string()),
            ("extra-4".to_string(), "@https://invalid.example.com/".to_string()),
            ("name-with-dashes".to_string(), "https://example.com/pypi/".to_string()),
        ]
    );
}

#[test]
fn test_update_uv_indices_from_no_urls() {
    let mut d = doc("[project]\nname = \"x\"\n[tool.black]\n");
    update_uv_indices_from_urls(&mut d, &vec![]);
    // Unchanged: not even cleaned up.
    assert!(at(&d, &["tool", "black"]).is_some());
}

#[test]
fn test_append_tool_sections() {
    let old = doc(r#"
[tool.poetry]
name = "test"
version = "0.1.0"

[tool.black]
line-length = 100
target-version = ["py37"]

[tool.isort]
profile = "black"
"#);
    let mut d = doc(r#"
[project]
name = "test"
version = "0.1.0"
description = "A test project"
"#);
    append_tool_sections(&mut d, &old);
    assert!(at(&d, &["tool", "black"]).is_some());
    assert!(at(&d, &["tool", "isort"]).is_some());
    assert!(matches!(at(&d, &["tool", "black", "line-length"]), Some(Node::Other(v)) if v == "100"));
    assert_eq!(text_at(&d, &["tool", "isort", "profile"]), Some("black".to_string()));
    assert!(at(&d, &["tool", "poetry"]).is_none());
}

#[test]
fn test_append_tool_sections_with_existing() {
    let old = doc(r#"
[tool.poetry]
name = "test"
version = "0.1.0"

[tool.black]
line-length = 100

[tool.isort]
profile = "black"
"#);
    let mut d = doc(r#"
[project]
name = "test"
version = "0.1.0"

[tool.black]
line-length = 88
"#);
    append_tool_sections(&mut d, &old);
    assert!(matches!(at(&d, &["tool", "black", "line-length"]), Some(Node::Other(v)) if v == "88"));
    assert_eq!(text_at(&d, &["tool", "isort", "profile"]), Some("black".to_string()));
}

#[test]
fn test_nested_tool_sections() {
    let old = doc(r#"
[tool.poetry]
name = "test"
version = "0.1.0"

[tool.black]
line-length = 100

[tool.pytest.ini_options]
minversion = "6.0"
addopts = "-ra -q"
testpaths = ["tests"]
"#);
    let mut d = doc("[project]\nname = \"test\"\nversion = \"0.1.0\"\n");
    append_tool_sections(&mut d, &old);
    assert_eq!(text_at(&d, &["tool", "pytest", "ini_options", "minversion"]), Some("6.0".to_string()));
    match at(&d, &["tool", "pytest", "ini_options", "testpaths"]) {
        Some(Node::Array(v)) => assert_eq!(v.len(), 1),
        _ => panic!("testpaths should be an array"),
    }
}

#[test]
fn test_empty_nested_sections() {
    let old = doc(r#"
[tool.poetry]
name = "test"

[tool.black]
line-length = 100

[tool.pytest]

[tool.pytest.ini_options]
"#);
    let mut d = doc("[project]\nname = \"test\"\nversion = \"0.1.0\"\n");
    append_tool_sections(&mut d, &old);
    assert!(at(&d, &["tool", "black"]).is_some());
    assert!(at(&d, &["tool", "pytest"]).is_none());
}

#[test]
fn test_no_empty_tool_section() {
    let old = doc("[tool.poetry]\nname = \"test\"\nversion = \"0.1.0\"\n");
    let mut d = doc("[project]\nname = \"test\"\nversion = \"0.1.0\"\ndescription = \"A test project\"\n");
    append_tool_sections(&mut d, &old);
    assert!(at(&d, &["tool"]).is_none());
}

#[test]
fn test_no_empty_tool_section_after_cleanup() {
    let old = doc("[tool.poetry]\nname = \"test\"\nversion = \"0.1.0\"\n\n[tool.black]\n");
    let mut d = doc("[project]\nname = \"test\"\nversion = \"0.1.0\"\n");
    append_tool_sections(&mut d, &old);
    assert!(at(&d, &["tool"]).is_none());
    assert!(at(&d, &["tool", "black"]).is_none());
}

#[test]
fn test_update_metadata_from_poetry() {
    let old = doc("[tool.poetry]\nname = \"x\"\nversion = \"1.2.3\"\ndescription = \"A poetry project\"\n");
    let mut d = doc("[project]\nname = \"x\"\nversion = \"0.1.0\"\n");
    update_pyproject_toml(&mut d, &old);
    assert_eq!(text_at(&d, &["project", "version"]), Some("1.2.3".to_string()));
    assert_eq!(text_at(&d, &["project", "description"]), Some("A poetry project".to_string()));
}

#[test]
fn test_update_metadata_project_section_wins() {
    let old = doc("[project]\nversion = \"2.0.0\"\n\n[tool.poetry]\nversion = \"1.0.0\"\n");
    let mut d = doc("[project]\nname = \"x\"\nversion = \"0.1.0\"\n");
    update_pyproject_toml(&mut d, &old);
    assert_eq!(text_at(&d, &["project", "version"]), Some("2.0.0".to_string()));
}

#[test]
fn test_update_version_description_url() {
    let mut d = doc("[project]\nname = \"x\"\n");
    update_project_version(&mut d, "3.1.4");
    update_description(&mut d, "Described");
    update_url(&mut d, "https://example.com/repo");
    assert_eq!(text_at(&d, &["project", "version"]), Some("3.1.4".to_string()));
    assert_eq!(text_at(&d, &["project", "description"]), Some("Described".to_string()));
    assert_eq!(text_at(&d, &["project", "urls", "repository"]), Some("https://example.com/repo".to_string()));
    assert_eq!(extract_project_name(&d), Some("x".to_string()));
}

#[test]
fn test_update_section_creates_implicit_tables() {
    let mut d = doc("[project]\nname = \"x\"\n");
    update_section(&mut d, &["tool", "uv", "dev-dependencies"], Node::Str("v".to_string()));
    assert_eq!(text_at(&d, &["tool", "uv", "dev-dependencies"]), Some("v".to_string()));
    assert!(matches!(at(&d, &["tool"]), Some(Node::Table { implicit: true, .. })));
}

#[test]
fn test_cleanup_removes_empty_sections() {
    let mut d = doc("[project]\nname = \"x\"\ndependencies = []\n\n[tool.a]\n\n[tool.b.c]\n\n[tool.d]\nk = 1\n");
    cleanup_empty_sections(&mut d);
    assert!(at(&d, &["project", "dependencies"]).is_none());
    assert!(at(&d, &["tool", "a"]).is_none());
    assert!(at(&d, &["tool", "b"]).is_none());
    assert!(at(&d, &["tool", "d", "k"]).is_some());
    assert_eq!(text_at(&d, &["project", "name"]), Some("x".to_string()));
}

#[test]
fn test_project_field_ordering() {
    let mut d = doc(r#"[project]
dependencies = ["package1>=1.0.0"]
name = "test-project"
version = "1.0.0"
authors = [{ name = "Test Author", email = "test@example.com" }]
description = "Test description"
"#);
    reorder_toml_sections(&mut d);
    let project = at(&d, &["project"]).unwrap();
    assert_eq!(keys(project), vec!["name", "version", "description", "authors", "dependencies"]);
}

#[test]
fn test_section_ordering() {
    let mut d = doc("[tool.black]\nx = 1\n\n[build-system]\nrequires = []\n\n[other]\ny = 2\n\n[project]\nname = \"n\"\n");
    reorder_toml_sections(&mut d);
    assert_eq!(keys(&d), vec!["project", "build-system", "tool", "other"]);
}

#[test]
fn test_poetry_sources_and_indices() {
    let old = doc(r#"
[[tool.poetry.source]]
name = "private"
url = "https://private.example.com/simple/"

[[tool.poetry.source]]
name = "nourl"
"#);
    let sources = extract_poetry_sources(&old);
    assert_eq!(sources.len(), 2);
    let mut d = doc("[project]\nname = \"x\"\n");
    update_uv_indices(&mut d, &sources);
    match at(&d, &["tool", "uv", "index"]) {
        Some(Node::Array(v)) => {
            assert_eq!(v.len(), 1);
            assert_eq!(text_at(&v[0], &["name"]), Some("private".to_string()));
            assert_eq!(text_at(&v[0], &["url"]), Some("https://private.example.com/simple/".to_string()));
        }
        _ => panic!("no index"),
    }
    assert!(extract_poetry_sources(&doc("[tool.poetry]\nname = \"x\"\n")).is_empty());
}

#[test]
fn test_update_scripts() {
    let old = doc("[tool.poetry.scripts]\nserve = \"app.main:run\"\nother = { reference = \"x\" }\n");
    let mut d = doc("[project]\nname = \"x\"\n");
    assert!(update_scripts(&mut d, &old));
    assert_eq!(text_at(&d, &["project", "scripts", "serve"]), Some("app.main:run".to_string()));
    assert!(at(&d, &["project", "scripts", "other"]).is_none());
    let mut d2 = doc("[project]\nname = \"x\"\n");
    assert!(!update_scripts(&mut d2, &doc("[tool.poetry]\nname = \"x\"\n")));
}

#[test]
fn test_extract_poetry_packages() {
    let d = doc("[tool.poetry]\npackages = [{ include = \"mypkg\", from = \"src\" }, \"plain\", { from = \"lib\" }]\n");
    assert_eq!(extract_poetry_packages(&d), vec!["mypkg".to_string(), "plain".to_string()]);
    assert!(extract_poetry_packages(&doc("[tool.poetry]\nname = \"x\"\n")).is_empty());
}

#[test]
fn test_update_git_dependencies() {
    let mut d = doc("[project]\nname = \"x\"\n");
    let deps = vec![
        GitDependency {
            name: "mylib".to_string(),
            git_url: "https://github.com/me/mylib.git".to_string(),
            branch: Some("main".to_string()),
            tag: None,
            rev: None,
        },
        GitDependency {
            name: "other".to_string(),
            git_url: "https://github.com/me/other.git".to_string(),
            branch: None,
            tag: Some("v1.0".to_string()),
            rev: Some("abc123".to_string()),
        },
    ];
    update_git_dependencies(&mut d, &deps);
    assert_eq!(text_at(&d, &["tool", "uv", "sources", "mylib", "git"]), Some("https://github.com/me/mylib.git".to_string()));
    assert_eq!(text_at(&d, &["tool", "uv", "sources", "mylib", "branch"]), Some("main".to_string()));
    assert!(at(&d, &["tool", "uv", "sources", "mylib", "tag"]).is_none());
    assert_eq!(text_at(&d, &["tool", "uv", "sources", "other", "tag"]), Some("v1.0".to_string()));
    assert_eq!(text_at(&d, &["tool", "uv", "sources", "other", "rev"]), Some("abc123".to_string()));
}

#[test]
fn test_update_authors() {
    let mut d = doc("[project]\nname = \"x\"\n");
    let authors = vec![
        Author { name: "Ada".to_string(), email: Some("ada@example.com".to_string()) },
        Author { name: "Bob".to_string(), email: None },
    ];
    update_authors(&mut d, &authors);
    match at(&d, &["project", "authors"]) {
        Some(Node::Array(v)) => {
            assert_eq!(v.len(), 2);
            assert_eq!(text_at(&v[0], &["email"]), Some("ada@example.com".to_string()));
            assert_eq!(text_at(&v[1], &["name"]), Some("Bob".to_string()));
            assert!(at(&v[1], &["email"]).is_none());
        }
        _ => panic!("no authors"),
    }
}

#[test]
fn index_name_with_other_characters_is_no_name() {
    let (name, url) = parse_index_spec("my.idx@https://example.com/", 1);
    assert_eq!(name, "extra-1");
    assert_eq!(url, "my.idx@https://example.com/");
    let (name, url) = parse_index_spec("torch_cu118@https://download.pytorch.org/whl/cu118", 2);
    assert_eq!(name, "torch_cu118");
    assert_eq!(url, "https://download.pytorch.org/whl/cu118");
}

#[test]
fn test_preserve_formatting() {
    let old_content = r#"
[tool.black]
line-length = 100  # Custom line length
target-version = [
    "py37",
    "py38",
]  # Supported versions

[tool.isort]
profile = "black"  # Match black
"#;

    let new_content = "[project]\nname = \"test\"\n";

    let (old, old_source) = uv_migrator::utils::documents::read_toml_source("old.pyproject.toml", old_content).unwrap();
    let (mut doc, base) = uv_migrator::utils::documents::read_toml_source("pyproject.toml", new_content).unwrap();
    append_tool_sections(&mut doc, &old);

    let result = uv_migrator::utils::documents::write_toml_keeping(&mut doc, &base, &vec![old_source]);

    assert!(result.contains("line-length = 100  # Custom line length"));
    assert!(result.contains("profile = \"black\"  # Match black"));
    assert!(result.contains(
        r#"target-version = [
    "py37",
    "py38",
]  # Supported versions"#
    ));
}

#[test]
fn unedited_document_is_written_back_as_read() {
    let content = "# Project settings\n[project]\nname = \"demo\"  # the name\nversion = \"0.1.0\"\n\n[tool.black]\nline-length = 88\n";
    let (mut doc, base) = uv_migrator::utils::documents::read_toml_source("pyproject.toml", content).unwrap();
    let text = uv_migrator::utils::documents::write_toml_keeping(&mut doc, &base, &vec![]);
    assert_eq!(text, content);
}

#[test]
fn edited_document_keeps_the_comments_of_untouched_sections() {
    let content = "[project]\nname = \"demo\"\n\n[tool.black]\n# wide lines\nline-length = 100  # custom\n";
    let (mut doc, base) = uv_migrator::utils::documents::read_toml_source("pyproject.toml", content).unwrap();
    update_project_version(&mut doc, "2.0.0");
    let text = uv_migrator::utils::documents::write_toml_keeping(&mut doc, &base, &vec![]);
    assert!(text.contains("# wide lines\nline-length = 100  # custom"));
    assert!(text.contains("version = \"2.0.0\""));
}
