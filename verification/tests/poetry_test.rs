use uv_migrator::migrators::{self, poetry::PoetryMigrationSource};
use uv_migrator::models::{DependencyType, PoetryProjectType};
use uv_migrator::utils::author::extract_authors_from_poetry;
use uv_migrator::utils::pyproject::update_pyproject_toml;
use uv_migrator::utils::toml::{str_at, Node};

/// Reads TOML text as a document node.
fn doc(text: &str) -> Node {
    let parsed: toml_edit::DocumentMut = text.parse().unwrap();
    table_node(parsed.as_table())
}

fn table_node(t: &toml_edit::Table) -> Node {
    Node::Table {
        implicit: t.is_implicit(),
        entries: t.iter().map(|(k, v)| (k.to_string(), item_node(v))).collect(),
    }
}

fn item_node(item: &toml_edit::Item) -> Node {
    match item {
        toml_edit::Item::Table(t) => table_node(t),
        toml_edit::Item::ArrayOfTables(a) => Node::ArrayOfTables(a.iter().map(table_node).collect()),
        toml_edit::Item::Value(v) => value_node(v),
        toml_edit::Item::None => Node::Other(String::new()),
    }
}

fn value_node(v: &toml_edit::Value) -> Node {
    match v {
        toml_edit::Value::String(s) => Node::Str(s.value().clone()),
        toml_edit::Value::Array(a) => Node::Array(a.iter().map(value_node).collect()),
        toml_edit::Value::InlineTable(t) => {
            Node::InlineTable(t.iter().map(|(k, v)| (k.to_string(), value_node(v))).collect())
        }
        other => Node::Other(other.clone().decorated("", "").to_string()),
    }
}

#[test]
fn test_extract_main_dependencies() {
    let content = r#"
[tool.poetry]
name = "test-project"
version = "0.1.0"

[tool.poetry.dependencies]
python = "^3.11"
fastapi = "^0.111.0"
aiofiles = "24.1.0"
jinja2 = { version = "^3.1.4" }
uvicorn = { extras = ["standard"], version = "^0.30.1" }
"#;
    let d = doc(content);

    let source = PoetryMigrationSource;
    let dependencies = source.extract_dependencies(&d);

    assert_eq!(dependencies.len(), 4); // Should not include python

    let fastapi_dep = dependencies.iter().find(|d| d.name == "fastapi").unwrap();
    assert_eq!(fastapi_dep.version, Some("^0.111.0".to_string()));
    assert_eq!(fastapi_dep.dep_type, DependencyType::Main);

    let aiofiles_dep = dependencies.iter().find(|d| d.name == "aiofiles").unwrap();
    assert_eq!(aiofiles_dep.version, Some("24.1.0".to_string()));
    assert_eq!(aiofiles_dep.dep_type, DependencyType::Main);
}

#[test]
fn test_extract_dev_dependencies() {
    let content = r#"
[tool.poetry]
name = "test-project"
version = "0.1.0"

[tool.poetry.dependencies]
python = "^3.11"

[tool.poetry.group.dev.dependencies]
pytest = "^8.2.2"
pytest-cov = "^5.0.0"
pytest-sugar = "^1.0.0"
"#;
    let d = doc(content);

    let source = PoetryMigrationSource;
    let dependencies = source.extract_dependencies(&d);

    assert_eq!(dependencies.len(), 3);

    let pytest_dep = dependencies.iter().find(|d| d.name == "pytest").unwrap();
    assert_eq!(pytest_dep.version, Some("^8.2.2".to_string()));
    assert_eq!(pytest_dep.dep_type, DependencyType::Dev);
}

#[test]
fn test_extract_multiple_groups() {
    let content = r#"
[tool.poetry]
name = "test-project"
version = "0.1.0"

[tool.poetry.dependencies]
python = "^3.11"
fastapi = "^0.111.0"
django = { extras = ["rest"], version = "^4.2.0" }

[tool.poetry.group.dev.dependencies]
pytest = "^8.2.2"
pytest-django = { extras = ["coverage"], version = "^4.5.2" }

[tool.poetry.group.code-quality.dependencies]
ruff = "^0.5.0"
mypy = "^1.11.1"
"#;
    let d = doc(content);

    let source = PoetryMigrationSource;
    let dependencies = source.extract_dependencies(&d);

    assert_eq!(dependencies.len(), 6); // 2 main + 2 dev + 2 code-quality

    // Check main dependencies
    let main_deps: Vec<_> = dependencies
        .iter()
        .filter(|d| matches!(d.dep_type, DependencyType::Main))
        .collect();
    assert_eq!(main_deps.len(), 2);

    let fastapi_dep = main_deps.iter().find(|d| d.name == "fastapi").unwrap();
    assert_eq!(fastapi_dep.version, Some("^0.111.0".to_string()));
    assert!(fastapi_dep.extras.is_none());

    let django_dep = main_deps.iter().find(|d| d.name == "django").unwrap();
    assert_eq!(django_dep.version, Some("^4.2.0".to_string()));
    assert!(django_dep.extras.is_some());
    assert_eq!(django_dep.extras.as_ref().unwrap().len(), 1);
    assert_eq!(django_dep.extras.as_ref().unwrap()[0], "rest");

    // Check dev dependencies
    let dev_deps: Vec<_> = dependencies
        .iter()
        .filter(|d| matches!(d.dep_type, DependencyType::Dev))
        .collect();
    assert_eq!(dev_deps.len(), 2);

    let pytest_dep = dev_deps.iter().find(|d| d.name == "pytest").unwrap();
    assert_eq!(pytest_dep.version, Some("^8.2.2".to_string()));
    assert!(pytest_dep.extras.is_none());

    let pytest_django_dep = dev_deps.iter().find(|d| d.name == "pytest-django").unwrap();
    assert_eq!(pytest_django_dep.version, Some("^4.5.2".to_string()));
    assert!(pytest_django_dep.extras.is_some());
    assert_eq!(pytest_django_dep.extras.as_ref().unwrap().len(), 1);
    assert_eq!(pytest_django_dep.extras.as_ref().unwrap()[0], "coverage");

    // Check code-quality group dependencies
    let code_quality_deps: Vec<_> = dependencies
        .iter()
        .filter(|d| matches!(d.dep_type, DependencyType::Group(ref g) if g == "code-quality"))
        .collect();
    assert_eq!(code_quality_deps.len(), 2);
    assert!(code_quality_deps.iter().any(|d| d.name == "ruff"));
    assert!(code_quality_deps.iter().any(|d| d.name == "mypy"));
}

#[test]
fn test_handle_dependency_with_extras() {
    let content = r#"
[tool.poetry]
name = "test-project"
version = "0.1.0"

[tool.poetry.dependencies]
python = "^3.11"
uvicorn = { extras = ["standard"], version = "^0.30.1" }
aiohttp = { extras = ["speedups"], version = "^3.10.5" }
"#;
    let d = doc(content);

    let source = PoetryMigrationSource;
    let dependencies = source.extract_dependencies(&d);

    assert_eq!(dependencies.len(), 2);

    // Check that uvicorn dependency has extras correctly extracted
    let uvicorn_dep = dependencies.iter().find(|d| d.name == "uvicorn").unwrap();
    assert_eq!(uvicorn_dep.version, Some("^0.30.1".to_string()));
    assert!(uvicorn_dep.extras.is_some());
    assert_eq!(uvicorn_dep.extras.as_ref().unwrap().len(), 1);
    assert_eq!(uvicorn_dep.extras.as_ref().unwrap()[0], "standard");

    // Check that aiohttp dependency has extras correctly extracted
    let aiohttp_dep = dependencies.iter().find(|d| d.name == "aiohttp").unwrap();
    assert_eq!(aiohttp_dep.version, Some("^3.10.5".to_string()));
    assert!(aiohttp_dep.extras.is_some());
    assert_eq!(aiohttp_dep.extras.as_ref().unwrap().len(), 1);
    assert_eq!(aiohttp_dep.extras.as_ref().unwrap()[0], "speedups");
}

#[test]
fn test_handle_missing_version() {
    let content = r#"
[tool.poetry]
name = "test-project"
version = "0.1.0"

[tool.poetry.dependencies]
python = "^3.11"
requests = "*"
"#;
    let d = doc(content);

    let source = PoetryMigrationSource;
    let dependencies = source.extract_dependencies(&d);

    assert_eq!(dependencies.len(), 1);

    let requests_dep = dependencies.iter().find(|d| d.name == "requests").unwrap();
    assert_eq!(requests_dep.version, None);
}

#[test]
fn test_extract_test_group_dependencies() {
    let content = r#"
[tool.poetry]
name = "test-project"
version = "0.1.0"

[tool.poetry.dependencies]
python = "^3.11"

[tool.poetry.group.test.dependencies]
blue = ">=0.9.1"
pytest = "^8.0.0"
pytest-cov = "^4.1.0"
"#;
    let d = doc(content);

    let source = PoetryMigrationSource;
    let dependencies = source.extract_dependencies(&d);

    // Should have all test dependencies (excluding python)
    assert_eq!(dependencies.len(), 3, "Should have three test dependencies");

    // Verify each dependency is in the test group
    for dep in &dependencies {
        match &dep.dep_type {
            DependencyType::Group(name) => {
                assert_eq!(name, "test", "Group name should be 'test'");
            }
            other => panic!("Expected Group(\"test\"), got {:?}", other),
        }
    }

    // Check specific dependency details
    let blue_dep = dependencies.iter().find(|d| d.name == "blue").unwrap();
    assert_eq!(blue_dep.version, Some(">=0.9.1".to_string()));
    assert!(matches!(blue_dep.dep_type, DependencyType::Group(ref name) if name == "test"));

    let pytest_dep = dependencies.iter().find(|d| d.name == "pytest").unwrap();
    assert_eq!(pytest_dep.version, Some("^8.0.0".to_string()));
    assert!(matches!(pytest_dep.dep_type, DependencyType::Group(ref name) if name == "test"));

    let pytest_cov_dep = dependencies
        .iter()
        .find(|d| d.name == "pytest-cov")
        .unwrap();
    assert_eq!(pytest_cov_dep.version, Some("^4.1.0".to_string()));
    assert!(matches!(pytest_cov_dep.dep_type, DependencyType::Group(ref name) if name == "test"));
}

#[test]
    fn test_merge_groups_poetry() {
        let content = r#"
[tool.poetry]
name = "test-project"
version = "0.1.0"

[tool.poetry.dependencies]
python = "^3.11"
fastapi = "^0.111.0"
aiofiles = "24.1.0"

[tool.poetry.group.dev.dependencies]
pytest = "^8.2.2"
black = "^22.3.0"

[tool.poetry.group.docs.dependencies]
mkdocs = "^1.5.0"
mkdocs-material = "^9.4.0"

[tool.poetry.group.test.dependencies]
pytest-cov = "^4.1.0"
pytest-mock = "^3.10.0"
"#;

        let d = doc(content);

        // Extract dependencies normally first
        let source = PoetryMigrationSource;
        let dependencies = source.extract_dependencies(&d);

        // Verify initial state
        assert_eq!(
            dependencies
                .iter()
                .filter(|d| matches!(d.dep_type, DependencyType::Main))
                .count(),
            2,
            "Should have 2 main dependencies (excluding python)"
        );
        assert_eq!(
            dependencies
                .iter()
                .filter(|d| matches!(d.dep_type, DependencyType::Dev))
                .count(),
            2,
            "Should have 2 dev dependencies"
        );
        assert_eq!(
            dependencies
                .iter()
                .filter(|d| matches!(d.dep_type, DependencyType::Group(ref g) if g == "docs"))
                .count(),
            2,
            "Should have 2 docs group dependencies"
        );
        assert_eq!(
            dependencies
                .iter()
                .filter(|d| matches!(d.dep_type, DependencyType::Group(ref g) if g == "test"))
                .count(),
            2,
            "Should have 2 test group dependencies"
        );

        // Apply group merging
        let merged_deps = migrators::merge_dependency_groups(dependencies);

        // Verify merged state
        assert_eq!(
            merged_deps
                .iter()
                .filter(|d| matches!(d.dep_type, DependencyType::Main))
                .count(),
            2,
            "Should still have 2 main dependencies after merge"
        );
        assert_eq!(
            merged_deps
                .iter()
                .filter(|d| matches!(d.dep_type, DependencyType::Dev))
                .count(),
            6,
            "Should have 6 dev dependencies after merge (original dev + docs + test)"
        );
        assert_eq!(
            merged_deps
                .iter()
                .filter(|d| matches!(d.dep_type, DependencyType::Group(_)))
                .count(),
            0,
            "Should have no group dependencies after merge"
        );
    }

#[test]
    fn test_merge_groups_poetry_with_complex_dependencies() {
        let content = r#"
[tool.poetry]
name = "test-project"
version = "0.1.0"

[tool.poetry.dependencies]
python = "^3.11"
requests = {version = "^2.31.0", extras = ["security"]}
django = ">=4.0.0,<5.0.0"

[tool.poetry.group.dev.dependencies]
black = {version = "^22.3.0", allow-prereleases = true}
pylint = "^3.0.0"

[tool.poetry.group.test.dependencies]
pytest = {version = "^8.0.0", extras = ["testing"]}
pytest-django = ">=4.5.0"
"#;

        let d = doc(content);

        // Extract and verify dependencies maintain their complex specifications through the merge
        let source = PoetryMigrationSource;
        let dependencies = source.extract_dependencies(&d);

        // Verify initial complex dependencies
        let requests_dep = dependencies
            .iter()
            .find(|d| d.name == "requests")
            .expect("Should have requests dependency");
        assert_eq!(requests_dep.version, Some("^2.31.0".to_string()));

        let django_dep = dependencies
            .iter()
            .find(|d| d.name == "django")
            .expect("Should have django dependency");
        assert_eq!(django_dep.version, Some(">=4.0.0,<5.0.0".to_string()));

        // Apply merge and verify complex dependencies are preserved
        let merged_deps = migrators::merge_dependency_groups(dependencies);

        // Verify versions are maintained after merge
        let pytest_dep = merged_deps
            .iter()
            .find(|d| d.name == "pytest")
            .expect("Should have pytest dependency");
        assert_eq!(pytest_dep.version, Some("^8.0.0".to_string()));
        assert!(matches!(pytest_dep.dep_type, DependencyType::Dev));

        let pytest_django_dep = merged_deps
            .iter()
            .find(|d| d.name == "pytest-django")
            .expect("Should have pytest-django dependency");
        assert_eq!(pytest_django_dep.version, Some(">=4.5.0".to_string()));
        assert!(matches!(pytest_django_dep.dep_type, DependencyType::Dev));
    }

#[test]
fn test_extract_python_version_caret() {
    let content = r#"
[tool.poetry]
name = "test-project"
version = "0.1.0"

[tool.poetry.dependencies]
python = "^3.9"
"#;
    let d = doc(content);
    let version = PoetryMigrationSource::extract_python_version(&d);
    assert_eq!(version, Some("3.9".to_string()));
}

#[test]
fn test_extract_python_version_greater_equal() {
    let content = r#"
[tool.poetry.dependencies]
python = ">=3.8"
"#;
    let d = doc(content);
    let version = PoetryMigrationSource::extract_python_version(&d);
    assert_eq!(version, Some("3.8".to_string()));
}

#[test]
fn test_extract_python_version_tilde() {
    let content = r#"
[tool.poetry.dependencies]
python = "~=3.10"
"#;
    let d = doc(content);
    let version = PoetryMigrationSource::extract_python_version(&d);
    assert_eq!(version, Some("3.10".to_string()));
}

#[test]
fn test_extract_python_version_exact() {
    let content = r#"
[tool.poetry.dependencies]
python = "3.11.0"
"#;
    let d = doc(content);
    let version = PoetryMigrationSource::extract_python_version(&d);
    assert_eq!(version, Some("3.11".to_string()));
}

#[test]
fn test_extract_python_version_no_python() {
    let content = r#"
[tool.poetry]
name = "test-project"
version = "0.1.0"

[tool.poetry.dependencies]
requests = "^2.31.0"
"#;
    let d = doc(content);
    let version = PoetryMigrationSource::extract_python_version(&d);
    assert_eq!(version, None);
}

#[test]
fn test_poetry_v2_dependency_with_extras() {
    let content = r#"
[project]
name = "test-extras"
version = "0.1.0"
description = "Testing extras parsing"
readme = "README.md"
requires-python = ">=3.10"
dependencies = [
    "ibis-framework[duckdb,polars,sqlite] (>=10.1.0,<11.0.0)",
    "requests[security] (>=2.31.0)",
    "django[rest] (^4.2.0)"
]
"#;
    let d = doc(content);

    let source = PoetryMigrationSource;
    let dependencies = source.extract_dependencies(&d);

    assert_eq!(dependencies.len(), 3);

    // Check that ibis-framework dependency has extras correctly extracted
    let ibis_dep = dependencies
        .iter()
        .find(|d| d.name == "ibis-framework")
        .unwrap();
    assert_eq!(ibis_dep.version, Some(">=10.1.0,<11.0.0".to_string()));
    assert!(ibis_dep.extras.is_some());
    let ibis_extras = ibis_dep.extras.as_ref().unwrap();
    assert_eq!(ibis_extras.len(), 3);
    assert!(ibis_extras.contains(&"duckdb".to_string()));
    assert!(ibis_extras.contains(&"polars".to_string()));
    assert!(ibis_extras.contains(&"sqlite".to_string()));

    // Check that requests dependency has extras correctly extracted
    let requests_dep = dependencies.iter().find(|d| d.name == "requests").unwrap();
    assert_eq!(requests_dep.version, Some(">=2.31.0".to_string()));
    assert!(requests_dep.extras.is_some());
    assert_eq!(requests_dep.extras.as_ref().unwrap().len(), 1);
    assert_eq!(requests_dep.extras.as_ref().unwrap()[0], "security");

    // Check that django dependency has extras correctly extracted
    let django_dep = dependencies.iter().find(|d| d.name == "django").unwrap();
    assert_eq!(django_dep.version, Some("^4.2.0".to_string()));
    assert!(django_dep.extras.is_some());
    assert_eq!(django_dep.extras.as_ref().unwrap().len(), 1);
    assert_eq!(django_dep.extras.as_ref().unwrap()[0], "rest");
}

#[test]
fn test_poetry_author_migration() {
    let content = r#"
[tool.poetry]
name = "test-project"
version = "0.1.0"
authors = [
    "John Doe <john@example.com>",
    "Jane Smith <jane@example.com>",
    "Anonymous Contributor"  # No email
]

[tool.poetry.dependencies]
python = "^3.11"
requests = "^2.31.0"
"#;

    let pyproject_content = r#"
[project]
name = "test-project"
version = "0.1.0"
description = "Test project"
"#;

    let old = doc(content);
    let _new = doc(pyproject_content);

    // Extract authors to verify the extraction itself
    let authors = extract_authors_from_poetry(&old);
    assert_eq!(authors.len(), 3, "Should extract all three authors");

    let john = authors.iter().find(|a| a.name == "John Doe").unwrap();
    assert_eq!(john.email, Some("john@example.com".to_string()));

    let jane = authors.iter().find(|a| a.name == "Jane Smith").unwrap();
    assert_eq!(jane.email, Some("jane@example.com".to_string()));

    let anon = authors
        .iter()
        .find(|a| a.name == "Anonymous Contributor")
        .unwrap();
    assert_eq!(anon.email, None);

    // For this test, we'll just verify the authors were extracted correctly
    // The actual migration functionality should be tested in integration tests
}

#[test]
fn test_description_migration() {
    let old = doc(r#"[tool.poetry]
name = "test-project"
version = "1.3.0"
description = "a module for parsing battlescribe rosters and allowing them to be printed or displayed cleanly"
authors = ["Test Author <test@example.com>"]
license = "MIT"
"#);
    let mut d = doc(r#"[project]
name = "test-project"
version = "0.1.0"
description = "Add your description here"
"#);
    update_pyproject_toml(&mut d, &old);
    assert_eq!(str_at(&d, &["project", "version"]), Some("1.3.0".to_string()));
    assert_eq!(
        str_at(&d, &["project", "description"]),
        Some("a module for parsing battlescribe rosters and allowing them to be printed or displayed cleanly".to_string())
    );
}

#[test]
fn test_missing_description() {
    let old = doc("[tool.poetry]\nname = \"test-project\"\nversion = \"1.3.0\"\nauthors = [\"Test Author <test@example.com>\"]\nlicense = \"MIT\"\n");
    let mut d = doc("[project]\nname = \"test-project\"\nversion = \"0.1.0\"\ndescription = \"Add your description here\"\n");
    update_pyproject_toml(&mut d, &old);
    assert_eq!(str_at(&d, &["project", "version"]), Some("1.3.0".to_string()));
    assert_eq!(str_at(&d, &["project", "description"]), Some("Add your description here".to_string()));
}

#[test]
fn test_poetry_v2_description_migration() {
    let old = doc("[project]\nname = \"test-project\"\nversion = \"1.3.0\"\ndescription = \"Modern Python project using Poetry 2.0\"\n");
    let mut d = doc("[project]\nname = \"test-project\"\nversion = \"0.1.0\"\ndescription = \"Add your description here\"\n");
    update_pyproject_toml(&mut d, &old);
    assert_eq!(str_at(&d, &["project", "version"]), Some("1.3.0".to_string()));
    assert_eq!(str_at(&d, &["project", "description"]), Some("Modern Python project using Poetry 2.0".to_string()));
}

#[test]
fn test_extract_python_version_requires_python() {
    let d = doc("[project]\nrequires-python = \">=3.10,<4\"\n\n[tool.poetry.dependencies]\npython = \"^3.8\"\n");
    assert_eq!(PoetryMigrationSource::extract_python_version(&d), Some("3.10".to_string()));
    let d = doc("[tool.poetry.dependencies]\npython = \"3\"\n");
    assert_eq!(PoetryMigrationSource::extract_python_version(&d), Some("3.0".to_string()));
    let d = doc("[tool.poetry.dependencies]\npython = { version = \"^3.9\" }\n");
    assert_eq!(PoetryMigrationSource::extract_python_version(&d), None);
}

#[test]
fn test_main_dependency_names_not_repeated() {
    let d = doc(r#"
[project]
dependencies = ["requests (>=2.0)"]

[tool.poetry.dependencies]
python = "^3.11"
requests = "^2.31.0"
flask = "*"
"#);
    let source = PoetryMigrationSource;
    let deps = source.extract_dependencies(&d);
    assert_eq!(deps.len(), 2);
    assert_eq!(deps[0].name, "requests");
    assert_eq!(deps[0].version, Some(">=2.0".to_string()));
    assert_eq!(deps[1].name, "flask");
    assert_eq!(deps[1].version, None);
}

#[test]
fn test_parse_poetry_v2_dep() {
    let source = PoetryMigrationSource;
    assert_eq!(
        source.parse_poetry_v2_dep("  pkg[a, b] ((>=1.0))"),
        ("pkg".to_string(), Some(">=1.0".to_string()), Some(vec!["a".to_string(), "b".to_string()]))
    );
    assert_eq!(source.parse_poetry_v2_dep("plain"), ("plain".to_string(), None, None));
    assert_eq!(source.parse_poetry_v2_dep("open[x"), ("open[x".to_string(), None, None));
}

#[test]
fn test_extract_git_dependencies() {
    let d = doc(r#"
[tool.poetry.dependencies]
python = "^3.11"
mylib = { git = "https://github.com/me/mylib.git", branch = "main" }
plain = "^1.0"

[tool.poetry.group.dev.dependencies]
devtool = { git = "https://github.com/me/devtool.git", tag = "v2", rev = "abc" }
"#);
    let source = PoetryMigrationSource;
    let gits = source.extract_git_dependencies(&d);
    assert_eq!(gits.len(), 2);
    assert_eq!(gits[0].name, "mylib");
    assert_eq!(gits[0].git_url, "https://github.com/me/mylib.git");
    assert_eq!(gits[0].branch, Some("main".to_string()));
    assert_eq!(gits[1].name, "devtool");
    assert_eq!(gits[1].tag, Some("v2".to_string()));
    assert_eq!(gits[1].rev, Some("abc".to_string()));
    assert_eq!(gits[1].branch, None);
}

#[test]
fn test_detect_poetry_project_type() {
    let app = doc("[tool.poetry]\nname = \"my-app\"\nversion = \"0.1.0\"\n");
    assert_eq!(PoetryMigrationSource::detect_project_type(&app, false, false, false), PoetryProjectType::Application);
    assert_eq!(PoetryMigrationSource::detect_project_type(&app, true, false, false), PoetryProjectType::Package);
    assert_eq!(PoetryMigrationSource::detect_project_type(&app, false, true, false), PoetryProjectType::Package);
    assert_eq!(PoetryMigrationSource::detect_project_type(&app, false, false, true), PoetryProjectType::Package);
    assert_eq!(PoetryMigrationSource::package_dir_name(&app), Some("my_app".to_string()));
    let pkgs = doc("[tool.poetry]\nname = \"x\"\npackages = [{ include = \"x\" }]\n");
    assert_eq!(PoetryMigrationSource::detect_project_type(&pkgs, false, false, false), PoetryProjectType::Package);
    let meta = doc("[tool.poetry]\nname = \"x\"\nreadme = \"README.md\"\nkeywords = [\"a\"]\nclassifiers = [\"Topic :: X\"]\n");
    assert!(PoetryMigrationSource::has_strong_package_indicators(&meta));
    assert_eq!(PoetryMigrationSource::detect_project_type(&meta, false, false, false), PoetryProjectType::Package);
    let weak = doc("[tool.poetry]\nname = \"x\"\nreadme = \"README.md\"\nclassifiers = [\"Topic :: X\"]\n");
    assert!(!PoetryMigrationSource::has_strong_package_indicators(&weak));
    let nameless = doc("[tool.poetry.dependencies]\npython = \"^3.9\"\n");
    assert_eq!(PoetryMigrationSource::detect_project_type(&nameless, false, false, true), PoetryProjectType::Application);
    assert_eq!(PoetryMigrationSource::package_dir_name(&doc("[project]\nname = \"My-Pkg\"\n")), Some("my_pkg".to_string()));
}

#[test]
fn test_parse_poetry_v2_dep_trailing_space_after_parenthesis() {
    let source = PoetryMigrationSource;
    // Only the parentheses at the ends of the constraint go.
    assert_eq!(
        source.parse_poetry_v2_dep("pkg ((>=1.0)) "),
        ("pkg".to_string(), Some(">=1.0))".to_string()), None)
    );
}

#[test]
fn test_error_invalid_toml() {
    let content = r#"
[tool.poetry
name = "test-project"
"#;
    let result = PoetryMigrationSource::read_pyproject("project/pyproject.toml", Some(content));

    assert!(result.is_err());
    assert!(result.unwrap_err().contains("Error parsing TOML"));
}

#[test]
fn test_error_missing_file() {
    // The project directory holds no pyproject.toml.
    let result = PoetryMigrationSource::read_pyproject("project/pyproject.toml", None);

    assert!(result.is_err());
    assert!(result.unwrap_err().contains("File does not exist"));
}

#[test]
fn test_extract_python_version_no_old_pyproject() {
    let version = PoetryMigrationSource::python_version_from_file("project/old.pyproject.toml", None).unwrap();
    assert_eq!(version, None);
}

#[test]
fn test_extract_python_version_invalid_toml() {
    let content = r#"
[tool.poetry
name = "test-project"
"#;
    let result = PoetryMigrationSource::python_version_from_file("project/old.pyproject.toml", Some(content));
    assert!(result.is_err());
}

#[test]
fn python_version_from_file_reads_the_old_document() {
    let content = r#"
[tool.poetry.dependencies]
python = "^3.11"
"#;
    let result = PoetryMigrationSource::python_version_from_file("project/old.pyproject.toml", Some(content));
    assert_eq!(result.unwrap(), Some("3.11".to_string()));
}

#[test]
fn read_pyproject_gives_the_document() {
    let content = "[project]\nname = \"demo\"\n";
    let d = PoetryMigrationSource::read_pyproject("pyproject.toml", Some(content)).unwrap();
    assert_eq!(str_at(&d, &["project", "name"]), Some("demo".to_string()));
}
