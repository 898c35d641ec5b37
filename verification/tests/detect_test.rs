use uv_migrator::error::Error;
use uv_migrator::migrators::detect::{detect_project_type, find_requirements_files, ProjectFiles};
use uv_migrator::models::ProjectType;
use uv_migrator::utils::toml::Node;

/// Reads TOML text as a document node.
fn doc(text: &str) -> Node {
    let parsed: toml_edit::DocumentMut = text.parse().unwrap();
    table_node(parsed.as_table())
}

fn table_node(t: &toml_edit::Table) -> Node {
    Node::Table {
        implicit: t.is_implicit(),
        entries: t.iter().map(|(k, v)| (k.to_string(), item_node(v))).collect(),
    }
}

fn item_node(item: &toml_edit::Item) -> Node {
    match item {
        toml_edit::Item::Table(t) => table_node(t),
        toml_edit::Item::ArrayOfTables(a) => Node::ArrayOfTables(a.iter().map(table_node).collect()),
        toml_edit::Item::Value(v) => value_node(v),
        toml_edit::Item::None => Node::Other(String::new()),
    }
}

fn value_node(v: &toml_edit::Value) -> Node {
    match v {
        toml_edit::Value::String(s) => Node::Str(s.value().clone()),
        toml_edit::Value::Array(a) => Node::Array(a.iter().map(value_node).collect()),
        toml_edit::Value::InlineTable(t) => {
            Node::InlineTable(t.iter().map(|(k, v)| (k.to_string(), value_node(v))).collect())
        }
        other => Node::Other(other.clone().decorated("", "").to_string()),
    }
}

/// What a project directory holding the given files shows.
fn files(names: &[&str], pyproject: Option<&str>) -> ProjectFiles {
    ProjectFiles {
        has_environment_file: names.contains(&"environment.yml") || names.contains(&"environment.yaml"),
        pyproject: pyproject.map(|t| Ok(doc(t))),
        real_package: false,
        has_setup_py: names.contains(&"setup.py"),
        name_package: false,
        has_pipenv: names.contains(&"Pipfile") && names.contains(&"Pipfile.lock"),
        file_names: names.iter().map(|n| n.to_string()).collect(),
    }
}

const POETRY_PYPROJECT: &str = r#"
[tool.poetry]
name = "test-project"
version = "0.1.0"

[tool.poetry.dependencies]
python = "^3.9"
requests = "^2.28.0"
"#;

#[test]
fn test_detect_poetry_project() {
    let result = detect_project_type(&files(&["pyproject.toml"], Some(POETRY_PYPROJECT)));
    assert!(result.is_ok());
    assert!(matches!(result.unwrap(), ProjectType::Poetry(_)));
}

#[test]
fn test_detect_poetry2_project() {
    let pyproject_content = r#"
[project]
name = "test-project"
version = "0.1.0"
dependencies = ["requests>=2.28.0"]
"#;
    let result = detect_project_type(&files(&["pyproject.toml"], Some(pyproject_content)));
    assert!(result.is_ok());
    assert!(matches!(result.unwrap(), ProjectType::Poetry(_)));
}

#[test]
fn detect_test_detect_pipenv_project() {
    let result = detect_project_type(&files(&["Pipfile", "Pipfile.lock"], None));
    assert!(result.is_ok());
    assert_eq!(result.unwrap(), ProjectType::Pipenv);
}

#[test]
fn test_detect_setup_py_project() {
    let result = detect_project_type(&files(&["setup.py"], None));
    assert!(result.is_ok());
    assert_eq!(result.unwrap(), ProjectType::SetupPy);
}

#[test]
fn test_detect_requirements_project() {
    let result = detect_project_type(&files(&["requirements.txt"], None));
    assert!(result.is_ok());
    assert_eq!(result.unwrap(), ProjectType::Requirements);
}

#[test]
fn test_detect_requirements_dev_project() {
    let result = detect_project_type(&files(&["requirements-dev.txt"], None));
    assert!(result.is_ok());
    assert_eq!(result.unwrap(), ProjectType::Requirements);
}

#[test]
fn detect_test_detect_conda_project() {
    let result = detect_project_type(&files(&["environment.yml"], None));
    assert!(result.is_ok());
    assert_eq!(result.unwrap(), ProjectType::Conda);
}

#[test]
fn test_detect_fails_with_no_config() {
    let result = detect_project_type(&files(&[], None));
    assert!(result.is_err());

    let error = result.unwrap_err();
    assert!(matches!(error, Error::ProjectDetection(_)));
}

#[test]
fn test_detect_priority_conda_over_poetry() {
    let pyproject_content = r#"
[tool.poetry]
name = "test-project"
version = "0.1.0"
"#;
    let result = detect_project_type(&files(&["environment.yml", "pyproject.toml"], Some(pyproject_content)));
    assert!(result.is_ok());
    assert_eq!(result.unwrap(), ProjectType::Conda);
}

#[test]
fn test_detect_priority_poetry_over_pipenv() {
    let pyproject_content = r#"
[tool.poetry]
name = "test-project"
version = "0.1.0"
"#;
    let result = detect_project_type(&files(
        &["pyproject.toml", "Pipfile", "Pipfile.lock"],
        Some(pyproject_content),
    ));
    assert!(result.is_ok());
    assert!(matches!(result.unwrap(), ProjectType::Poetry(_)));
}

#[test]
fn test_find_requirements_files() {
    let names: Vec<String> = ["requirements.txt", "requirements-dev.txt", "requirements_test.txt", "other.txt"]
        .iter()
        .map(|n| n.to_string())
        .collect();
    assert!(find_requirements_files(&names));
    let others: Vec<String> = vec!["other.txt".to_string()];
    assert!(!find_requirements_files(&others));
}

#[test]
fn test_find_requirements_files_empty_dir() {
    let files: Vec<String> = vec![];
    assert!(!find_requirements_files(&files));
}

#[test]
fn test_find_requirements_files_nonexistent_dir() {
    // A directory that cannot be read lists no files.
    let files: Vec<String> = vec![];
    assert!(!find_requirements_files(&files)); // Should not panic
}

#[test]
fn detect_unreadable_pyproject_is_an_error() {
    let project = ProjectFiles {
        has_environment_file: false,
        pyproject: Some(Err(Error::General("TOML parsing error".to_string()))),
        real_package: false,
        has_setup_py: true,
        name_package: false,
        has_pipenv: false,
        file_names: vec!["pyproject.toml".to_string(), "setup.py".to_string()],
    };
    assert!(detect_project_type(&project).is_err());
}
