use uv_migrator::migrators::setup_py::SetupPyMigrationSource;
use uv_migrator::models::DependencyType;
use uv_migrator::utils::author::extract_authors_from_setup_py;
use uv_migrator::utils::pyproject::{update_authors, update_url};
use uv_migrator::utils::toml::{get_path_node, str_at, Node};

/// Reads TOML text as a document node.
fn doc(text: &str) -> Node {
    let parsed: toml_edit::DocumentMut = text.parse().unwrap();
    table_node(parsed.as_table())
}

fn table_node(t: &toml_edit::Table) -> Node {
    Node::Table {
        implicit: t.is_implicit(),
        entries: t.iter().map(|(k, v)| (k.to_string(), item_node(v))).collect(),
    }
}

fn item_node(item: &toml_edit::Item) -> Node {
    match item {
        toml_edit::Item::Table(t) => table_node(t),
        toml_edit::Item::ArrayOfTables(a) => Node::ArrayOfTables(a.iter().map(table_node).collect()),
        toml_edit::Item::Value(v) => value_node(v),
        toml_edit::Item::None => Node::Other(String::new()),
    }
}

fn value_node(v: &toml_edit::Value) -> Node {
    match v {
        toml_edit::Value::String(s) => Node::Str(s.value().clone()),
        toml_edit::Value::Array(a) => Node::Array(a.iter().map(value_node).collect()),
        toml_edit::Value::InlineTable(t) => {
            Node::InlineTable(t.iter().map(|(k, v)| (k.to_string(), value_node(v))).collect())
        }
        other => Node::Other(other.clone().decorated("", "").to_string()),
    }
}

#[test]
fn test_setup_py_with_requirements_file() {
    let setup_content = r#"
from setuptools import setup

setup(
    name="pb_logging",
    version="1.0.0",
    description="Logging-related utilities",
)
"#;

    let requirements_content = r#"
flask==2.0.0
requests==2.31.0
sqlalchemy>=1.4.0,<2.0.0
"#;

    let files = vec![(requirements_content.to_string(), DependencyType::Main)];
    let source = SetupPyMigrationSource;
    let dependencies = source.extract_dependencies(setup_content, &files).unwrap();

    assert_eq!(
        dependencies.len(),
        3,
        "Should extract all dependencies from requirements.txt"
    );

    let flask_dep = dependencies.iter().find(|d| d.name == "flask").unwrap();
    assert_eq!(flask_dep.version, Some("2.0.0".to_string()));
    assert_eq!(flask_dep.dep_type, DependencyType::Main);

    let requests_dep = dependencies.iter().find(|d| d.name == "requests").unwrap();
    assert_eq!(requests_dep.version, Some("2.31.0".to_string()));
    assert_eq!(requests_dep.dep_type, DependencyType::Main);

    let sqlalchemy_dep = dependencies
        .iter()
        .find(|d| d.name == "sqlalchemy")
        .unwrap();
    assert_eq!(sqlalchemy_dep.version, Some(">=1.4.0,<2.0.0".to_string()));
    assert_eq!(sqlalchemy_dep.dep_type, DependencyType::Main);
}

#[test]
fn test_setup_py_with_direct_dependencies() {
    let setup_content = r#"
from setuptools import setup

setup(
    name="pb_logging",
    version="1.0.0",
    description="Logging-related utilities",
    install_requires=[
        'flask>=2.0.0',
        'requests==2.31.0',
        'sqlalchemy>=1.4.0'
    ],
    tests_require=[
        'pytest>=7.0.0',
        'pytest-cov>=4.0.0'
    ]
)
"#;

    let files: Vec<(String, DependencyType)> = vec![];
    let source = SetupPyMigrationSource;
    let dependencies = source.extract_dependencies(setup_content, &files).unwrap();

    let main_deps: Vec<_> = dependencies
        .iter()
        .filter(|d| matches!(d.dep_type, DependencyType::Main))
        .collect();

    let dev_deps: Vec<_> = dependencies
        .iter()
        .filter(|d| matches!(d.dep_type, DependencyType::Dev))
        .collect();

    assert_eq!(main_deps.len(), 3, "Should have 3 main dependencies");
    assert_eq!(dev_deps.len(), 2, "Should have 2 dev dependencies");

    let flask_dep = main_deps.iter().find(|d| d.name == "flask").unwrap();
    assert_eq!(flask_dep.version, Some(">=2.0.0".to_string()));

    let pytest_dep = dev_deps.iter().find(|d| d.name == "pytest").unwrap();
    assert_eq!(pytest_dep.version, Some(">=7.0.0".to_string()));
}

#[test]
fn test_setup_py_no_requirements() {
    let setup_content = r#"
from setuptools import setup

setup(
    name="pb_logging",
    version="1.0.0",
    description="Logging-related utilities",
)
"#;

    let files: Vec<(String, DependencyType)> = vec![];
    let source = SetupPyMigrationSource;
    let dependencies = source.extract_dependencies(setup_content, &files).unwrap();

    assert!(dependencies.is_empty(), "Should have no dependencies");
}

#[test]
fn test_setup_py_malformed() {
    let setup_content = r#"
from setuptools import setup

setup(
    name="pb_logging",
    version="1.0.0",
    description="Logging-related utilities",
    install_requires="not a list",  # This is invalid
)
"#;

    let files: Vec<(String, DependencyType)> = vec![];
    let source = SetupPyMigrationSource;
    let result = source.extract_dependencies(setup_content, &files);

    assert!(
        result.is_ok(),
        "Should handle malformed setup.py without crashing"
    );
    let dependencies = result.unwrap();
    assert!(
        dependencies.is_empty(),
        "Should have no dependencies for malformed setup.py"
    );
}

#[test]
fn test_extract_authors() {
    let setup_content = r#"
from setuptools import setup

setup(
    name="test-project",
    version="1.0.0",
    author="Demo Name",
    author_email="demo.name@corp.com",
    description="Test project"
)
"#;
    
    let authors = extract_authors_from_setup_py(setup_content).unwrap();
    assert_eq!(authors.len(), 1);
    assert_eq!(authors[0].name, "Demo Name");
    assert_eq!(authors[0].email, Some("demo.name@corp.com".to_string()));
}

const SETUP_WITH_AUTHOR: &str = r#"
from setuptools import setup

setup(
    name="test-project",
    version="1.0.0",
    author="Demo Name",
    author_email="demo.name@corp.com",
    url="https://gitlab.com/updated/project",
    description="Test project"
)
"#;

#[test]
fn test_update_authors_in_pyproject() {
    let authors = extract_authors_from_setup_py(SETUP_WITH_AUTHOR).unwrap();
    let mut d = doc("[project]\nname = \"test-project\"\nversion = \"1.0.0\"\ndescription = \"Test project\"\nauthors = [\n    { name = \"Old Author\", email = \"old@example.com\" }\n]\n");
    update_authors(&mut d, &authors);
    match get_path_node(&d, &["project", "authors"]) {
        Some(Node::Array(v)) => {
            assert_eq!(v.len(), 1);
            assert_eq!(str_at(&v[0], &["name"]), Some("Demo Name".to_string()));
            assert_eq!(str_at(&v[0], &["email"]), Some("demo.name@corp.com".to_string()));
        }
        _ => panic!("authors should be an array"),
    }
}

#[test]
fn test_update_urls_existing_content() {
    let url = SetupPyMigrationSource::extract_url(SETUP_WITH_AUTHOR).unwrap().unwrap();
    let mut d = doc("[project]\nname = \"test-project\"\nurls = { repository = \"https://oldproject.example.com\" }\nrequires-python = \">=3.8\"\n");
    update_url(&mut d, &url);
    assert_eq!(str_at(&d, &["project", "urls", "repository"]), Some("https://gitlab.com/updated/project".to_string()));
    assert_eq!(str_at(&d, &["project", "requires-python"]), Some(">=3.8".to_string()));
}

#[test]
fn test_missing_author_email() {
    let setup_content = "from setuptools import setup\n\nsetup(\n    name=\"test-project\",\n    author=\"Demo Name\",\n)\n";
    let authors = extract_authors_from_setup_py(setup_content).unwrap();
    assert_eq!(authors.len(), 1);
    assert_eq!(authors[0].email, None);
}

#[test]
fn test_extract_description() {
    assert_eq!(
        SetupPyMigrationSource::extract_description(SETUP_WITH_AUTHOR).unwrap(),
        Some("Test project".to_string())
    );
    assert_eq!(SetupPyMigrationSource::extract_description("print(1)\n").unwrap(), None);
}
