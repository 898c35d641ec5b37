use uv_migrator::error::Error;
use uv_migrator::migrators::pipenv::PipenvMigrationSource;
use uv_migrator::utils::documents::{document_text, parse_json, parse_toml, parse_toml_value_text};
use uv_migrator::utils::toml::{read_toml, str_at, write_toml, Node};

#[test]
fn parse_toml_gives_tables_and_values() {
    let d = parse_toml("[project]\nname = \"demo\"\nversion = \"1.0\"\n\n[tool.black]\nline-length = 88\n").unwrap();
    assert_eq!(str_at(&d, &["project", "name"]), Some("demo".to_string()));
    let Node::Table { implicit, entries } = &d else { panic!("the document is a table") };
    assert!(!implicit);
    assert_eq!(entries.len(), 2);
    assert_eq!(entries[0].0, "project");
    let Node::Table { implicit, entries } = &entries[1].1 else { panic!("tool is a table") };
    assert!(*implicit);
    assert_eq!(entries[0].0, "black");
    let Node::Table { entries, .. } = &entries[0].1 else { panic!("black is a table") };
    assert_eq!(entries[0].0, "line-length");
    assert!(matches!(&entries[0].1, Node::Other(t) if t == "88"));
}

#[test]
fn parse_toml_keeps_arrays_and_inline_tables() {
    let d = parse_toml("deps = [\"a\", { name = \"b\" }]\n[[tool.poetry.source]]\nname = \"x\"\n").unwrap();
    let Node::Table { entries, .. } = &d else { panic!("the document is a table") };
    let Node::Array(items) = &entries[0].1 else { panic!("deps is an array") };
    assert!(matches!(&items[0], Node::Str(s) if s == "a"));
    let Node::InlineTable(es) = &items[1] else { panic!("an inline table") };
    assert_eq!(es[0].0, "name");
    assert!(matches!(&es[0].1, Node::Str(s) if s == "b"));
    let sources = uv_migrator::utils::toml::get_path_node(&d, &["tool", "poetry", "source"]);
    assert!(matches!(sources, Some(Node::ArrayOfTables(v)) if v.len() == 1));
}

#[test]
fn parse_toml_error_text() {
    assert!(parse_toml("[tool.poetry\nname = \"x\"\n").is_err());
}

#[test]
fn read_toml_error_names_the_file() {
    let e = read_toml("dir/pyproject.toml", "[broken").unwrap_err();
    assert!(e.starts_with("Failed to parse TOML in 'dir/pyproject.toml': "));
}

#[test]
fn write_toml_removes_empty_sections_and_reads_back() {
    let mut d = parse_toml("[project]\nname = \"demo\"\n\n[tool.empty]\n").unwrap();
    let text = write_toml(&mut d);
    assert!(!text.contains("tool.empty"));
    let back = parse_toml(&text).unwrap();
    assert_eq!(str_at(&back, &["project", "name"]), Some("demo".to_string()));
}

#[test]
fn document_text_writes_tables_and_values() {
    let d = parse_toml("[project]\nname = \"demo\"\nversion = \"0.1.0\"\ndependencies = [\"requests>=2\"]\n").unwrap();
    let text = document_text(&d);
    assert_eq!(text, "[project]\nname = \"demo\"\nversion = \"0.1.0\"\ndependencies = [\"requests>=2\"]\n");
}

#[test]
fn parse_json_objects_become_tables() {
    let d = parse_json("{\"default\": {\"requests\": {\"version\": \"==2.31.0\"}}, \"n\": 3}").unwrap();
    assert_eq!(str_at(&d, &["default", "requests", "version"]), Some("==2.31.0".to_string()));
    assert!(parse_json("{not json").is_err());
}

#[test]
fn parse_toml_value_text_reads_pipfiles() {
    let d = parse_toml_value_text("[packages]\nrequests = \"*\"\n").unwrap();
    assert_eq!(str_at(&d, &["packages", "requests"]), Some("*".to_string()));
}

#[test]
fn pipfile_errors() {
    let e = PipenvMigrationSource::parse_pipfile("[packages\n").unwrap_err();
    assert!(matches!(e, Error::DependencyParsing(ref m) if m.starts_with("Error parsing Pipfile: ")));
    let e = PipenvMigrationSource::parse_pipfile_lock("p/Pipfile.lock", None).unwrap_err();
    assert!(e.contains("does not exist"));
    let e = PipenvMigrationSource::parse_pipfile_lock("p/Pipfile.lock", Some("{")).unwrap_err();
    assert!(matches!(e, Error::DependencyParsing(ref m) if m.starts_with("Error parsing Pipfile.lock: ")));
}
