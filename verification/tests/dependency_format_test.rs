use uv_migrator::migrators;
use uv_migrator::migrators::{follow_up_step, FollowUpStep, UvTool};
use uv_migrator::models::{Dependency, DependencyType, PoetryProjectType, ProjectType};

/// Test formatting of dependencies for UV CLI use.
///
/// This test verifies that the format_dependency function correctly formats:
/// 1. Simple dependencies with version
/// 2. Dependencies with extras
/// 3. Dependencies with multiple extras
/// 4. Dependencies with environment markers
#[test]
fn test_format_dependency() {
    // Use the public format_dependency function directly
    let format_dependency = migrators::format_dependency;

    // Test simple dependency with version
    let dep1 = Dependency {
        name: "requests".to_string(),
        version: Some("2.28.1".to_string()),
        dep_type: DependencyType::Main,
        environment_markers: None,
        extras: None,
    };
    assert_eq!(format_dependency(&dep1), "requests==2.28.1");

    // Test dependency with extras
    let dep2 = Dependency {
        name: "uvicorn".to_string(),
        version: Some("^0.30.1".to_string()),
        dep_type: DependencyType::Main,
        environment_markers: None,
        extras: Some(vec!["standard".to_string()]),
    };
    assert_eq!(format_dependency(&dep2), "uvicorn[standard]>=0.30.1");

    // Test dependency with multiple extras
    let dep3 = Dependency {
        name: "ibis-framework".to_string(),
        version: Some("^10.0.0".to_string()),
        dep_type: DependencyType::Main,
        environment_markers: None,
        extras: Some(vec![
            "bigquery".to_string(),
            "duckdb".to_string(),
            "polars".to_string(),
        ]),
    };
    assert_eq!(
        format_dependency(&dep3),
        "ibis-framework[bigquery,duckdb,polars]>=10.0.0"
    );

    // Test dependency with environment markers
    let dep4 = Dependency {
        name: "dataclasses".to_string(),
        version: Some("1.0.0".to_string()),
        dep_type: DependencyType::Main,
        environment_markers: Some("python_version < '3.7'".to_string()),
        extras: None,
    };
    assert_eq!(
        format_dependency(&dep4),
        "dataclasses==1.0.0; python_version < '3.7'"
    );

    // Test dependency with both extras and environment markers
    let dep5 = Dependency {
        name: "django".to_string(),
        version: Some("~=4.2.0".to_string()),
        dep_type: DependencyType::Main,
        environment_markers: Some("platform_system != 'Windows'".to_string()),
        extras: Some(vec!["rest".to_string(), "admin".to_string()]),
    };
    assert_eq!(
        format_dependency(&dep5),
        "django[rest,admin]~=4.2.0; platform_system != 'Windows'"
    );
}

#[test]
fn test_format_dependency_constraints() {
    let make = |version: Option<&str>| Dependency {
        name: "pkg".to_string(),
        version: version.map(|v| v.to_string()),
        dep_type: DependencyType::Dev,
        environment_markers: None,
        extras: Some(vec![]),
    };
    assert_eq!(migrators::format_dependency(&make(None)), "pkg");
    assert_eq!(migrators::format_dependency(&make(Some("~1.2"))), "pkg~=1.2");
    assert_eq!(migrators::format_dependency(&make(Some(" >=1,<2 "))), "pkg>=1,<2");
    assert_eq!(migrators::format_dependency(&make(Some("<3"))), "pkg<3");
    assert_eq!(migrators::format_dependency(&make(Some("==1.0"))), "pkg==1.0");
}

#[test]
fn test_merge_dependency_groups() {
    let deps = vec![
        Dependency::new("a".to_string(), DependencyType::Main),
        Dependency::new("b".to_string(), DependencyType::Group("docs".to_string())),
        Dependency::with_version("c".to_string(), "1.0".to_string(), DependencyType::Dev),
    ];
    let merged = migrators::common::merge_dependency_groups(deps);
    assert_eq!(merged.len(), 3);
    assert_eq!(merged[0].dep_type, DependencyType::Main);
    assert_eq!(merged[1].dep_type, DependencyType::Dev);
    assert_eq!(merged[1].name, "b");
    assert_eq!(merged[2].dep_type, DependencyType::Dev);
    assert_eq!(merged[2].version, Some("1.0".to_string()));
    let again = migrators::common::merge_dependency_groups(merged.clone());
    assert!(again.iter().zip(merged.iter()).all(|(x, y)| x.name == y.name && x.dep_type == y.dep_type));
}

#[test]
fn test_dependency_type_parse_str() {
    assert_eq!(DependencyType::parse_str("main"), DependencyType::Main);
    assert_eq!(DependencyType::parse_str("dev"), DependencyType::Dev);
    assert_eq!(DependencyType::parse_str("docs"), DependencyType::Group("docs".to_string()));
    assert_eq!("dev".parse::<DependencyType>().unwrap(), DependencyType::Dev);
    let d = Dependency::new("x".to_string(), DependencyType::Main).with_markers("os_name == 'nt'".to_string());
    assert_eq!(d.environment_markers, Some("os_name == 'nt'".to_string()));
}

#[test]
fn add_commands_one_per_type_in_order() {
    let deps = vec![
        Dependency::with_version("requests".to_string(), "^2.31.0".to_string(), DependencyType::Main),
        Dependency::new("pytest".to_string(), DependencyType::Dev),
        Dependency::new("mkdocs".to_string(), DependencyType::Group("docs".to_string())),
        Dependency::new("flask".to_string(), DependencyType::Main),
    ];
    let cmds = UvTool::add_commands(&deps);
    assert_eq!(cmds.len(), 3);
    assert_eq!(cmds[0].0, DependencyType::Main);
    assert_eq!(cmds[0].1, vec!["add", "requests>=2.31.0", "flask"]);
    assert_eq!(cmds[1].1, vec!["add", "--dev", "pytest"]);
    assert_eq!(cmds[2].1, vec!["add", "--group", "docs", "mkdocs"]);
}

#[test]
fn follow_up_step_by_project_type() {
    assert_eq!(
        follow_up_step(ProjectType::Poetry(PoetryProjectType::Package), true),
        FollowUpStep::Poetry(PoetryProjectType::Package)
    );
    assert_eq!(follow_up_step(ProjectType::SetupPy, true), FollowUpStep::SetupPy);
    assert_eq!(follow_up_step(ProjectType::SetupPy, false), FollowUpStep::Nothing);
    assert_eq!(follow_up_step(ProjectType::Conda, false), FollowUpStep::Conda);
    assert_eq!(follow_up_step(ProjectType::Requirements, true), FollowUpStep::Requirements);
}
