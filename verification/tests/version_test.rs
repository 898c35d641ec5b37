use uv_migrator::utils::version::{clean_version, extract_version};

#[test]
fn test_clean_version() {
    let test_cases = vec![
        ("1.2.3", Some("1.2.3")),
        ("\"1.2.3\"", Some("1.2.3")),
        ("'1.2.3'", Some("1.2.3")),
        ("1.2.3,", Some("1.2.3")),
        (" 1.2.3 ", Some("1.2.3")),
        ("\"1.2.3\",", Some("1.2.3")),
        ("'1.2.3',", Some("1.2.3")),
        (" \"1.2.3\", ", Some("1.2.3")),
        (" '1.2.3', ", Some("1.2.3")),
        ("__version__,", None),
        ("", None),
        ("\"\"", None),
        ("\",\"", None),
        ("version", None),
    ];

    for (input, expected) in test_cases {
        assert_eq!(
            clean_version(input),
            expected.map(String::from),
            "Failed for input: {:?}",
            input
        );
    }
}

#[test]
fn test_extract_version_from_init_py() {
    let init_content = r#"
from .core import something

__version__ = "1.2.0"

def setup():
    pass
"#;
    let version = extract_version(None, &vec![init_content.to_string()], None).unwrap();
    assert_eq!(version, Some("1.2.0".to_string()));
}

#[test]
fn test_extract_version_from_init_py_single_quotes() {
    let init_content = "__version__ = '1.2.0'";
    let version = extract_version(None, &vec![init_content.to_string()], None).unwrap();
    assert_eq!(version, Some("1.2.0".to_string()));
}

#[test]
fn test_extract_version_with_multiple_sources() {
    let setup_py_content = r#"
from setuptools import setup

setup(
    name="test",
    version="2.0.0",
    description="Test project"
)
"#;
    let version = extract_version(
        Some(setup_py_content),
        &vec![r#"__version__ = "1.2.0""#.to_string()],
        Some("3.0.0\n"),
    )
    .unwrap();
    assert_eq!(version, Some("2.0.0".to_string()));
}

#[test]
fn test_extract_version_precedence() {
    let version = extract_version(None, &vec![r#"__version__ = "1.2.0""#.to_string()], Some("3.0.0\n")).unwrap();
    assert_eq!(version, Some("1.2.0".to_string()));
}

#[test]
fn test_extract_version_from_version_file_only() {
    let version = extract_version(None, &vec![], Some("3.0.0\n")).unwrap();
    assert_eq!(version, Some("3.0.0".to_string()));
    assert_eq!(extract_version(None, &vec![], None).unwrap(), None);
}

#[test]
fn test_extract_version_with_invalid_values() {
    let version = extract_version(None, &vec![r#"__version__ = "__version__,""#.to_string()], None).unwrap();
    assert_eq!(version, None);
}

#[test]
fn test_extract_version_with_comma() {
    let test_cases = vec![
        r#"__version__ = "1.2.0","#,
        r#"__version__ = '1.2.0',"#,
        r#"__version__ = "1.2.0", "#,
        r#"__version__ = "1.2.0",  # Comment"#,
        r#"__version__ = "1.2.0" # Comment"#,
        r#"__version__ = '1.2.0'  # With spaces and comment"#,
        r#"__version__ = "1.2.0",# No space before comment"#,
    ];

    for test_case in test_cases {
        let version = extract_version(None, &vec![test_case.to_string()], None).unwrap();
        assert_eq!(version, Some("1.2.0".to_string()), "Failed for case: {}", test_case);
    }
}

#[test]
fn test_extract_version_setup_py_without_setup_call() {
    let version = extract_version(Some("print('no setup here')\n"), &vec![r#"__version__ = "0.9.1""#.to_string()], None).unwrap();
    assert_eq!(version, Some("0.9.1".to_string()));
}

#[test]
fn clean_version_of_a_cleaned_version_is_itself() {
    for input in ["  \"1.2.3\", ", "'2.0.0'", "\"3.1\","] {
        let once = clean_version(input).unwrap();
        assert_eq!(clean_version(&once), Some(once.clone()));
        assert_eq!(once.trim(), once);
    }
}
