use semver::Version;
use uv_migrator::migrators::UvTool;
use uv_migrator::models::{DependencyType, Dependency, PoetryProjectType, ProjectType};
use uv_migrator::utils::uv::{check_uv_requirements, get_uv_version, supports_bare, UvCommandBuilder, UV_SUPPORT_BARE};

#[test]
fn test_version_comparison() {
    // Hardcode the bare version for testing to ensure consistency
    let bare_version = Version::parse(UV_SUPPORT_BARE).unwrap();

    // Version below support threshold
    let below = Version::new(0, 5, 0);
    assert!(below < bare_version);

    // Version at support threshold
    let at = Version::new(0, 6, 0);
    assert!(at >= bare_version);

    // Version above support threshold
    let above = Version::new(0, 7, 0);
    assert!(above > bare_version);
}

#[test]
fn test_should_use_bare_flag_with_version() {
    fn should_use_bare_flag(uv_version: &str) -> bool {
        supports_bare(&format!("uv {}", uv_version), None).unwrap().unwrap()
    }

    // Test with version below 0.6.0
    assert!(
        !should_use_bare_flag("0.5.9"),
        "Version 0.5.9 should NOT use --bare flag"
    );

    // Test with version equal to 0.6.0
    assert!(
        should_use_bare_flag("0.6.0"),
        "Version 0.6.0 should use --bare flag"
    );

    // Test with version above 0.6.0
    assert!(
        should_use_bare_flag("0.7.0"),
        "Version 0.7.0 should use --bare flag"
    );
}

#[test]
fn test_bare_flag_test_override() {
    assert_eq!(supports_bare("uv 0.6.5", Some("0.7.0")), Ok(Some(false)));
    assert_eq!(supports_bare("uv 0.6.5", Some("not a version")), Ok(Some(true)));
    assert!(supports_bare("uv", None).is_err());
}

#[test]
fn test_get_uv_version() {
    assert_eq!(get_uv_version("uv 0.6.2 (abc 2025-01-01)\n"), Ok("0.6.2".to_string()));
    assert_eq!(get_uv_version("  uv   0.5.0"), Ok("0.5.0".to_string()));
    assert_eq!(get_uv_version("uv"), Err("Unexpected uv version format: 'uv'".to_string()));
    let e = get_uv_version("uv 1.0").unwrap_err();
    assert!(e.starts_with("Failed to parse uv version '1.0': "));
}

#[test]
fn test_check_uv_requirements() {
    assert_eq!(check_uv_requirements("uv 0.5.0"), Ok(()));
    assert_eq!(check_uv_requirements("uv 0.6.1"), Ok(()));
    assert_eq!(
        check_uv_requirements("uv 0.4.30"),
        Err("uv version 0.5.0 or higher is required. Found version 0.4.30".to_string())
    );
}

#[test]
fn test_command_builder() {
    let b = UvCommandBuilder::new("/usr/bin/uv".to_string())
        .arg("add".to_string())
        .working_dir("/tmp/project".to_string())
        .args(vec!["--dev".to_string(), "pytest".to_string()]);
    assert_eq!(b.program(), "/usr/bin/uv");
    assert_eq!(b.arguments(), &vec!["add".to_string(), "--dev".to_string(), "pytest".to_string()]);
    assert_eq!(b.directory(), &Some("/tmp/project".to_string()));
    assert_eq!(b.execute_success(false, "boom"), Err("UV command failed: boom".to_string()));
    let b2 = UvCommandBuilder::new("uv".to_string());
    assert_eq!(b2.execute_success(true, ""), Ok(()));
}

#[test]
fn test_init_arguments() {
    let args = UvTool::init_arguments(&ProjectType::Poetry(PoetryProjectType::Package), Some("3.10".to_string()), true);
    assert_eq!(
        args,
        vec!["init", "--package", "--python", "3.10", "--vcs", "none", "--no-readme", "--bare"]
    );
    let args = UvTool::init_arguments(&ProjectType::Requirements, None, false);
    assert_eq!(args, vec!["init", "--vcs", "none", "--no-readme"]);
    let args = UvTool::init_arguments(&ProjectType::SetupPy, None, false);
    assert_eq!(args, vec!["init", "--package", "--vcs", "none", "--no-readme"]);
}

#[test]
fn test_dependency_groups_and_add_arguments() {
    let deps = vec![
        Dependency::with_version("requests".to_string(), "^2.0".to_string(), DependencyType::Main),
        Dependency::new("pytest".to_string(), DependencyType::Dev),
        Dependency::new("mkdocs".to_string(), DependencyType::Group("docs".to_string())),
        Dependency::new("flask".to_string(), DependencyType::Main),
    ];
    let groups = UvTool::dependency_groups(&deps);
    assert_eq!(groups.len(), 3);
    assert_eq!(groups[0].0, DependencyType::Main);
    assert_eq!(groups[0].1, vec!["requests>=2.0".to_string(), "flask".to_string()]);
    assert_eq!(groups[1].0, DependencyType::Dev);
    assert_eq!(groups[2].0, DependencyType::Group("docs".to_string()));
    assert_eq!(UvTool::add_arguments(&groups[1].0, &groups[1].1), vec!["add", "--dev", "pytest"]);
    assert_eq!(UvTool::add_arguments(&groups[2].0, &groups[2].1), vec!["add", "--group", "docs", "mkdocs"]);
    assert_eq!(UvTool::add_arguments(&groups[0].0, &groups[0].1), vec!["add", "requests>=2.0", "flask"]);
}

#[test]
fn test_backup_needed() {
    assert!(matches!(UvTool::backup_needed(true, false, "p/old.pyproject.toml"), Ok(true)));
    assert!(matches!(UvTool::backup_needed(false, true, "p/old.pyproject.toml"), Ok(false)));
    let e = UvTool::backup_needed(true, true, "p/old.pyproject.toml").unwrap_err();
    assert!(e.contains("already exists"));
    assert_eq!(
        e.message(),
        "File operation error on p/old.pyproject.toml: Backup file 'old.pyproject.toml' already exists. Please remove or rename it before running the migration again."
    );
}
