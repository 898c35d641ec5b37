use uv_migrator::error::Error;
use uv_migrator::migrators::{self, requirements::RequirementsMigrationSource};
use uv_migrator::models::{Dependency, DependencyType};

/// The dependencies of the requirements files among the given (name, text)
/// files of a project directory.
fn extract(source: &RequirementsMigrationSource, files: &[(&str, &str)]) -> Result<Vec<Dependency>, Error> {
    let names: Vec<String> = files.iter().map(|(n, _)| n.to_string()).collect();
    let found = source.find_requirements_files(&names);
    let inputs: Vec<(String, DependencyType)> = found
        .into_iter()
        .map(|(name, t)| (files.iter().find(|(n, _)| *n == name).unwrap().1.to_string(), t))
        .collect();
    source.extract_dependencies(&inputs)
}

#[test]
fn test_basic_requirements() {
    let content = r#"
requests==2.31.0
flask>=2.0.0
sqlalchemy<2.0.0
    "#;

    let files = vec![("requirements.txt", content)];

    let source = RequirementsMigrationSource;
    let dependencies = extract(&source, &files).unwrap();

    assert_eq!(dependencies.len(), 3);

    let requests_dep = dependencies.iter().find(|d| d.name == "requests").unwrap();
    assert_eq!(requests_dep.version, Some("2.31.0".to_string()));
    assert_eq!(requests_dep.dep_type, DependencyType::Main);

    let flask_dep = dependencies.iter().find(|d| d.name == "flask").unwrap();
    assert_eq!(flask_dep.version, Some(">=2.0.0".to_string()));
    assert!(matches!(flask_dep.dep_type, DependencyType::Main));

    let sqlalchemy_dep = dependencies
        .iter()
        .find(|d| d.name == "sqlalchemy")
        .unwrap();
    assert_eq!(sqlalchemy_dep.version, Some("<2.0.0".to_string()));
    assert!(matches!(sqlalchemy_dep.dep_type, DependencyType::Main));
}

#[test]
fn test_comments_and_empty_lines() {
    let content = r#"
# Web framework
flask==2.0.0

# Database
# SQLAlchemy is used for ORM
sqlalchemy==1.4.0

# Empty lines above and below

requests==2.31.0  # HTTP client
    "#;

    let files = vec![("requirements.txt", content)];

    let source = RequirementsMigrationSource;
    let dependencies = extract(&source, &files).unwrap();

    assert_eq!(dependencies.len(), 3);
}

#[test]
fn test_multiple_requirements_files() {
    let main_content = "flask==2.0.0\nrequests==2.31.0";
    let dev_content = "pytest==7.0.0\nblack==22.3.0";
    let test_content = "pytest-cov==4.1.0\npytest-mock==3.10.0";

    let files = vec![
        ("requirements.txt", main_content),
        ("requirements-dev.txt", dev_content),
        ("requirements-test.txt", test_content),
    ];

    let source = RequirementsMigrationSource;
    let dependencies = extract(&source, &files).unwrap();

    // Verify total number of dependencies
    assert_eq!(
        dependencies.len(),
        6,
        "Total number of dependencies should be 6"
    );

    // Check main dependencies
    let main_deps: Vec<_> = dependencies
        .iter()
        .filter(|d| matches!(d.dep_type, DependencyType::Main))
        .collect();
    assert_eq!(main_deps.len(), 2, "Should have 2 main dependencies");
    assert!(
        main_deps.iter().any(|d| d.name == "flask"),
        "Main dependencies should include flask"
    );
    assert!(
        main_deps.iter().any(|d| d.name == "requests"),
        "Main dependencies should include requests"
    );

    // Check dev dependencies
    let dev_deps: Vec<_> = dependencies
        .iter()
        .filter(|d| matches!(d.dep_type, DependencyType::Dev))
        .collect();
    assert_eq!(dev_deps.len(), 2, "Should have 2 dev dependencies");
    assert!(
        dev_deps.iter().any(|d| d.name == "pytest"),
        "Dev dependencies should include pytest"
    );
    assert!(
        dev_deps.iter().any(|d| d.name == "black"),
        "Dev dependencies should include black"
    );

    // Check test dependencies
    let test_deps: Vec<_> = dependencies
        .iter()
        .filter(|d| matches!(d.dep_type, DependencyType::Group(ref g) if g == "test"))
        .collect();
    assert_eq!(test_deps.len(), 2, "Should have 2 test dependencies");
    assert!(
        test_deps.iter().any(|d| d.name == "pytest-cov"),
        "Test dependencies should include pytest-cov"
    );
    assert!(
        test_deps.iter().any(|d| d.name == "pytest-mock"),
        "Test dependencies should include pytest-mock"
    );

    // Verify versions for a sample of dependencies
    if let Some(flask_dep) = dependencies.iter().find(|d| d.name == "flask") {
        assert_eq!(
            flask_dep.version,
            Some("2.0.0".to_string()),
            "Flask version should be 2.0.0"
        );
    }
    if let Some(pytest_dep) = dependencies.iter().find(|d| d.name == "pytest") {
        assert_eq!(
            pytest_dep.version,
            Some("7.0.0".to_string()),
            "Pytest version should be 7.0.0"
        );
    }
    if let Some(pytest_cov_dep) = dependencies.iter().find(|d| d.name == "pytest-cov") {
        assert_eq!(
            pytest_cov_dep.version,
            Some("4.1.0".to_string()),
            "Pytest-cov version should be 4.1.0"
        );
    }
}

#[test]
fn test_environment_markers() {
    let content = r#"
requests==2.31.0; python_version >= "3.7"
flask==2.0.0; sys_platform == "win32"
numpy==1.21.0; platform_machine != "arm64"
    "#;

    let files = vec![("requirements.txt", content)];

    let source = RequirementsMigrationSource;
    let dependencies = extract(&source, &files).unwrap();

    assert_eq!(dependencies.len(), 3);

    let requests_dep = dependencies.iter().find(|d| d.name == "requests").unwrap();
    assert_eq!(
        requests_dep.environment_markers,
        Some(r#"python_version >= "3.7""#.to_string())
    );
}

#[test]
fn test_complex_version_specifiers() {
    let content = r#"
flask>=2.0.0,<3.0.0
requests~=2.31.0
django>3.0.0,<=4.2.0
sqlalchemy!=1.4.0,>=1.3.0
django-filters~=23.5
boto3~=1.35
    "#;

    let files = vec![("requirements.txt", content)];

    let source = RequirementsMigrationSource;
    let dependencies = extract(&source, &files).unwrap();

    assert_eq!(dependencies.len(), 6);

    // Verify complex version constraints are preserved
    let flask_dep = dependencies.iter().find(|d| d.name == "flask").unwrap();
    assert_eq!(flask_dep.version, Some(">=2.0.0,<3.0.0".to_string()));

    // Verify tilde-equal is preserved
    let requests_dep = dependencies.iter().find(|d| d.name == "requests").unwrap();
    assert_eq!(requests_dep.version, Some("~=2.31.0".to_string()));

    // Verify multiple constraints with inequality
    let django_dep = dependencies.iter().find(|d| d.name == "django").unwrap();
    assert_eq!(django_dep.version, Some(">3.0.0,<=4.2.0".to_string()));

    // Verify complex constraints with not-equal
    let sqlalchemy_dep = dependencies
        .iter()
        .find(|d| d.name == "sqlalchemy")
        .unwrap();
    assert_eq!(sqlalchemy_dep.version, Some("!=1.4.0,>=1.3.0".to_string()));

    // Verify tilde-equal cases
    let filters_dep = dependencies
        .iter()
        .find(|d| d.name == "django-filters")
        .unwrap();
    assert_eq!(filters_dep.version, Some("~=23.5".to_string()));

    let boto3_dep = dependencies.iter().find(|d| d.name == "boto3").unwrap();
    assert_eq!(boto3_dep.version, Some("~=1.35".to_string()));
}

#[test]
fn test_editable_and_urls() {
    let content = r#"
-e git+https://github.com/user/project.git@master#egg=project
https://files.pythonhosted.org/packages/package.whl
git+https://github.com/user/other-project.git@v1.0.0#egg=other-project
    "#;

    let files = vec![("requirements.txt", content)];

    let source = RequirementsMigrationSource;
    let dependencies = extract(&source, &files).unwrap();

    assert_eq!(dependencies.len(), 3);
}

#[test]
fn test_malformed_requirements() {
    let content = r#"
flask=2.0.0  # Invalid separator
requests==   # Missing version
===invalid===
    "#;

    let files = vec![("requirements.txt", content)];

    let source = RequirementsMigrationSource;
    let result = extract(&source, &files);

    assert!(result.is_ok()); // Should handle malformed requirements gracefully
    let dependencies = result.unwrap();
    assert!(dependencies.len() < 3); // Some requirements should be skipped
}

#[test]
fn test_packages_without_versions() {
    let content = r#"
flask
requests
sqlalchemy
    "#;

    let files = vec![("requirements.txt", content)];

    let source = RequirementsMigrationSource;
    let dependencies = extract(&source, &files).unwrap();

    assert_eq!(dependencies.len(), 3);

    for dep in dependencies {
        assert!(dep.version.is_none());
        assert_eq!(dep.dep_type, DependencyType::Main);
    }
}

#[test]
    fn test_merge_groups_requirements() {
        let main_content = "flask==2.0.0\nrequests==2.31.0";
        let dev_content = "pytest==7.0.0\nblack==22.3.0";
        let test_content = "pytest-cov==4.1.0\npytest-mock==3.10.0";

        let files = vec![
            ("requirements.txt", main_content),
            ("requirements-dev.txt", dev_content),
            ("requirements-test.txt", test_content),
        ];

        // Extract dependencies normally first
        let source = RequirementsMigrationSource;
        let dependencies = extract(&source, &files).unwrap();

        // Verify initial state
        assert_eq!(
            dependencies
                .iter()
                .filter(|d| matches!(d.dep_type, DependencyType::Main))
                .count(),
            2,
            "Should have 2 main dependencies"
        );
        assert_eq!(
            dependencies
                .iter()
                .filter(|d| matches!(d.dep_type, DependencyType::Dev))
                .count(),
            2,
            "Should have 2 dev dependencies"
        );
        assert_eq!(
            dependencies
                .iter()
                .filter(|d| matches!(d.dep_type, DependencyType::Group(ref g) if g == "test"))
                .count(),
            2,
            "Should have 2 test group dependencies"
        );

        // Apply group merging
        let merged_deps = migrators::merge_dependency_groups(dependencies);

        // Verify merged state
        assert_eq!(
            merged_deps
                .iter()
                .filter(|d| matches!(d.dep_type, DependencyType::Main))
                .count(),
            2,
            "Should still have 2 main dependencies after merge"
        );
        assert_eq!(
            merged_deps
                .iter()
                .filter(|d| matches!(d.dep_type, DependencyType::Dev))
                .count(),
            4,
            "Should have 4 dev dependencies after merge (original dev + merged test)"
        );
        assert_eq!(
            merged_deps
                .iter()
                .filter(|d| matches!(d.dep_type, DependencyType::Group(_)))
                .count(),
            0,
            "Should have no group dependencies after merge"
        );
    }

#[test]
fn test_no_requirements_files() {
    let source = RequirementsMigrationSource;
    let files: Vec<(&str, &str)> = vec![("setup.py", ""), ("README.md", "")];
    let result = extract(&source, &files);
    assert!(result.is_err());
    assert!(result.unwrap_err().contains("No requirements files found"));
}

#[test]
fn test_find_requirements_files_by_name() {
    let source = RequirementsMigrationSource;
    let names = vec![
        "requirements.txt".to_string(),
        "requirements-dev.txt".to_string(),
        "requirements_test.txt".to_string(),
        "requirements-docs.txt".to_string(),
        "other.txt".to_string(),
    ];
    let found = source.find_requirements_files(&names);
    assert_eq!(
        found,
        vec![
            ("requirements.txt".to_string(), DependencyType::Main),
            ("requirements-dev.txt".to_string(), DependencyType::Dev),
            ("requirements-docs.txt".to_string(), DependencyType::Group("docs".to_string())),
        ]
    );
    assert!(source.has_requirements_files(&names));
    assert!(!source.has_requirements_files(&vec!["setup.py".to_string()]));
    assert!(migrators::perform_requirements_migration(&names));
    assert!(!migrators::perform_requirements_migration(&vec!["requirements.txt".to_string(), "requirements-dev.txt".to_string()]));
}

#[test]
fn test_parse_requirement_lines() {
    let source = RequirementsMigrationSource;
    let d = source.parse_requirement("django[rest,admin]>=4.0; python_version >= '3.8'").unwrap().unwrap();
    assert_eq!(d.name, "django[rest,admin]");
    assert_eq!(d.version, Some(">=4.0".to_string()));
    assert_eq!(d.environment_markers, Some("python_version >= '3.8'".to_string()));
    assert!(source.parse_requirement("python>=3.8").unwrap().is_none());
    assert_eq!(source.process_version_spec("==1.0"), "1.0");
}
