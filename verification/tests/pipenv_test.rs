use uv_migrator::error::Error;
use uv_migrator::migrators::pipenv::PipenvMigrationSource;
use uv_migrator::utils::toml::Node;
use uv_migrator::DependencyType;

/// Reads a `Pipfile` (TOML, its tables in key order) as a document node.
fn pipfile(text: &str) -> Node {
    let value: toml::Value = toml::from_str(text).unwrap();
    toml_node(&value)
}

fn toml_node(v: &toml::Value) -> Node {
    match v {
        toml::Value::String(s) => Node::Str(s.clone()),
        toml::Value::Array(a) => Node::Array(a.iter().map(toml_node).collect()),
        toml::Value::Table(t) => Node::Table {
            implicit: false,
            entries: t.iter().map(|(k, v)| (k.clone(), toml_node(v))).collect(),
        },
        other => Node::Other(other.to_string()),
    }
}

/// Reads `Pipfile.lock` (JSON) as a document node.
fn lock(text: &str) -> Result<Node, Error> {
    let value: serde_json::Value = serde_json::from_str(text)
        .map_err(|e| Error::DependencyParsing(format!("Error parsing Pipfile.lock: {}", e)))?;
    Ok(json_node(&value))
}

fn json_node(v: &serde_json::Value) -> Node {
    match v {
        serde_json::Value::String(s) => Node::Str(s.clone()),
        serde_json::Value::Array(a) => Node::Array(a.iter().map(json_node).collect()),
        serde_json::Value::Object(m) => Node::Table {
            implicit: false,
            entries: m.iter().map(|(k, v)| (k.clone(), json_node(v))).collect(),
        },
        other => Node::Other(other.to_string()),
    }
}

#[test]
fn test_extract_pipenv_dependencies() {
    let pipfile_content = r#"[[source]]
url = "https://pypi.org/simple"
verify_ssl = true
name = "pypi"

[packages]
fastapi = "*"

[dev-packages]

[requires]
python_version = "3.12"
"#;
    let pipfile_lock_content = r#"{
    "default": {
        "fastapi": {
            "version": "==0.115.8"
        }
    },
    "develop": {}
}"#;

    let source = PipenvMigrationSource;
    let dependencies = source
        .extract_dependencies(&pipfile(pipfile_content), &lock(pipfile_lock_content))
        .unwrap();

    assert!(!dependencies.is_empty(), "No dependencies were extracted");
    let fastapi_dep = dependencies.iter().find(|d| d.name == "fastapi");
    assert!(fastapi_dep.is_some(), "FastAPI dependency not found");
    let fastapi_dep = fastapi_dep.unwrap();
    assert_eq!(fastapi_dep.dep_type, DependencyType::Main);
    let python_dep = dependencies.iter().find(|d| d.name == "python_version");
    assert!(python_dep.is_none(), "Python version should be ignored");
    let dev_deps: Vec<_> = dependencies
        .iter()
        .filter(|d| matches!(d.dep_type, DependencyType::Dev))
        .collect();
    assert!(dev_deps.is_empty(), "There should be no dev dependencies");
}

#[test]
fn test_detect_pipenv_project() {
    assert!(PipenvMigrationSource::detect_project_type(true, true));
    assert!(!PipenvMigrationSource::detect_project_type(true, false));
    assert!(!PipenvMigrationSource::detect_project_type(false, true));
}

#[test]
fn test_pipfile_dependencies() {
    let pipfile_content = r#"
[packages]
fastapi = "*"
requests = "^2.31.0"

[dev-packages]
pytest = "^8.0.0"

[requires]
python_version = "3.12"
"#;
    let lock_content = r#"{
    "default": {
        "fastapi": {"version": "==0.111.0"},
        "requests": {"version": "==2.31.0"}
    },
    "develop": {
        "pytest": {"version": "==8.0.0"}
    }
}"#;
    let source = PipenvMigrationSource;
    let dependencies = source.extract_dependencies(&pipfile(pipfile_content), &lock(lock_content)).unwrap();
    assert_eq!(dependencies.len(), 3);
    let main_deps: Vec<_> = dependencies.iter().filter(|d| matches!(d.dep_type, DependencyType::Main)).collect();
    assert_eq!(main_deps.len(), 2);
    let fastapi_dep = main_deps.iter().find(|d| d.name == "fastapi").unwrap();
    assert_eq!(fastapi_dep.version, None, "Fastapi should have no version from Pipfile");
    let requests_dep = main_deps.iter().find(|d| d.name == "requests").unwrap();
    assert_eq!(requests_dep.version, Some("^2.31.0".to_string()));
    let dev_deps: Vec<_> = dependencies.iter().filter(|d| matches!(d.dep_type, DependencyType::Dev)).collect();
    assert_eq!(dev_deps.len(), 1);
    let pytest_dep = dev_deps.iter().find(|d| d.name == "pytest").unwrap();
    assert_eq!(pytest_dep.version, Some("^8.0.0".to_string()));
}

#[test]
fn test_pipfile_with_no_matching_lock_entries() {
    let pipfile_content = r#"
[packages]
custom-package = "*"

[dev-packages]
custom-dev-package = "^1.0.0"
"#;
    let lock_content = r#"{
    "default": {},
    "develop": {}
}"#;
    let source = PipenvMigrationSource;
    let dependencies = source.extract_dependencies(&pipfile(pipfile_content), &lock(lock_content)).unwrap();
    assert_eq!(dependencies.len(), 2);
    let main_deps: Vec<_> = dependencies.iter().filter(|d| matches!(d.dep_type, DependencyType::Main)).collect();
    assert_eq!(main_deps.len(), 1);
    assert_eq!(main_deps[0].name, "custom-package");
    assert_eq!(main_deps[0].version, None);
    let dev_deps: Vec<_> = dependencies.iter().filter(|d| matches!(d.dep_type, DependencyType::Dev)).collect();
    assert_eq!(dev_deps.len(), 1);
    assert_eq!(dev_deps[0].name, "custom-dev-package");
    assert_eq!(dev_deps[0].version, Some("^1.0.0".to_string()));
}

#[test]
fn test_lock_file_fallback_with_markers() {
    let pipfile_content = "[packages]\n\n[dev-packages]\n";
    let lock_content = r#"{
    "default": {
        "colorama": {"version": "==0.4.6", "markers": "sys_platform == 'win32'"},
        "uvloop": {"version": "===0.19.0", "platform_python_implementation": "CPython"},
        "pywin32": {"sys_platform": "win32"},
        "python_full_version": {"version": "==3.12.0"}
    },
    "develop": {
        "pytest": {"version": "==8.0.0"}
    }
}"#;
    let source = PipenvMigrationSource;
    let deps = source.extract_dependencies(&pipfile(pipfile_content), &lock(lock_content)).unwrap();
    assert_eq!(deps.len(), 4);
    let colorama = deps.iter().find(|d| d.name == "colorama").unwrap();
    assert_eq!(colorama.version, Some("0.4.6".to_string()));
    assert_eq!(colorama.environment_markers, Some("sys_platform == 'win32'".to_string()));
    let uvloop = deps.iter().find(|d| d.name == "uvloop").unwrap();
    assert_eq!(uvloop.version, Some("0.19.0".to_string()));
    assert_eq!(uvloop.environment_markers, Some("platform_python_implementation == 'CPython'".to_string()));
    let pywin32 = deps.iter().find(|d| d.name == "pywin32").unwrap();
    assert_eq!(pywin32.version, None);
    assert_eq!(pywin32.environment_markers, Some("sys_platform == 'win32'".to_string()));
    assert_eq!(deps.iter().find(|d| d.name == "pytest").unwrap().dep_type, DependencyType::Dev);
}

#[test]
fn test_lock_file_errors() {
    let source = PipenvMigrationSource;
    let empty = pipfile("[packages]\n");
    let e = source.extract_dependencies(&empty, &lock(r#"{"default": {"bad": "1.0"}}"#)).unwrap_err();
    assert_eq!(e.message(), "Dependency parsing error: Invalid dependency format for 'bad': expected object");
    let e = source.extract_dependencies(&empty, &lock(r#"{"default": {"bad": {"version": 1}}}"#)).unwrap_err();
    assert_eq!(e.message(), "Dependency parsing error: Invalid version format for 'bad': expected string");
    let missing: Result<Node, Error> = Err(Error::FileOperation {
        path: "Pipfile.lock".to_string(),
        message: "Pipfile.lock does not exist".to_string(),
    });
    assert!(source.extract_dependencies(&empty, &missing).unwrap_err().contains("does not exist"));
    // The lock file is not consulted where the Pipfile lists dependencies.
    let full = pipfile("[packages]\nrequests = \"*\"\n");
    assert_eq!(source.extract_dependencies(&full, &missing).unwrap().len(), 1);
}
