use ud::index::{availability_from_entries, http_error_message, index_lines, index_status, sparse_index_path, IndexStatus};
use ud::manifest::{read_manifest, write_batch};
use ud::model::{Constraint, Coordinate, Dependency, Span, Version};

#[test]
fn test_sparse_index_path() {
    assert_eq!(sparse_index_path("a"), "1/a");
    assert_eq!(sparse_index_path("ab"), "2/ab");
    assert_eq!(sparse_index_path("abc"), "3/a/abc");
    assert_eq!(sparse_index_path("abcd"), "ab/cd/abcd");
    assert_eq!(sparse_index_path("serde"), "se/rd/serde");
    // Check case insensitivity
    assert_eq!(sparse_index_path("SerDe"), "se/rd/serde");
}

#[test]
fn sparse_index_path_of_hyphenated_names() {
    assert_eq!(sparse_index_path("test-dep"), "te/st/test-dep");
    assert_eq!(sparse_index_path("ws-dep"), "ws/-d/ws-dep");
    assert_eq!(sparse_index_path("err-dep"), "er/r-/err-dep");
}

#[test]
fn test_cargo_read() {
    let content = r#"
[package]
name = "test"
version = "0.1.0"

[dependencies]
serde = "1.0.0"
tokio = { version = "1.0", features = ["full"] }
"#;
    let deps = read_manifest(content).unwrap();
    assert_eq!(deps.len(), 2);
    assert_eq!(deps[0].coordinate.0, "serde");
    assert_eq!(deps[0].constraint.0, "1.0.0");
    assert_eq!(deps[1].coordinate.0, "tokio");
    assert_eq!(deps[1].constraint.0, "1.0");
}

#[test]
fn test_cargo_write() {
    let content = r#"
[dependencies]
serde = "1.0.0" # some comment
"#;
    let dep = Dependency {
        coordinate: Coordinate("serde".to_string()),
        constraint: Constraint("1.0.0".to_string()),
        span: Some(Span { start: 0, end: 0 }),
        source_hint: None,
        section: None,
    };
    let new_version = Version("1.0.219".to_string());
    let new_content = ud::manifest::write(content, &dep, &new_version).unwrap();
    assert!(new_content.contains("serde = \"1.0.219\""));
    assert!(new_content.contains("# some comment"));
}

#[test]
fn test_workspace_and_target_dependencies() {
    let content = r#"
[workspace.dependencies]
workspace-dep = "1.2.3"

[target.'cfg(target_os = "linux")'.dependencies]
linux-dep = "0.4.5"
"#;
    let deps = read_manifest(content).unwrap();
    assert_eq!(deps.len(), 2);

    let ws_dep = deps.iter().find(|d| d.coordinate.0 == "workspace-dep").unwrap();
    assert_eq!(ws_dep.constraint.0, "1.2.3");

    let target_dep = deps.iter().find(|d| d.coordinate.0 == "linux-dep").unwrap();
    assert_eq!(target_dep.constraint.0, "0.4.5");

    // Test writing back to workspace
    let ws_version = Version("1.2.4".to_string());
    let updated_content = ud::manifest::write(content, ws_dep, &ws_version).unwrap();
    assert!(updated_content.contains("workspace-dep = \"1.2.4\""));

    // Test writing back to target
    let target_version = Version("0.4.6".to_string());
    let updated_content2 = ud::manifest::write(content, target_dep, &target_version).unwrap();
    assert!(updated_content2.contains("linux-dep = \"0.4.6\""));
}

#[test]
fn read_labels_sections_and_skips_path_dependencies() {
    let content = r#"
[dependencies]
local = { path = "../local" }
serde = { version = "1", features = ["derive"] }

[dev-dependencies]
tempfile = "3"

[build-dependencies.cc]
version = "1.0"
"#;
    let deps = read_manifest(content).unwrap();
    let names: Vec<&str> = deps.iter().map(|d| d.coordinate.0.as_str()).collect();
    assert_eq!(names, vec!["serde", "tempfile", "cc"]);
    assert_eq!(deps[0].section.as_deref(), Some("dependencies"));
    assert_eq!(deps[1].section.as_deref(), Some("dev-dependencies"));
    assert_eq!(deps[2].section.as_deref(), Some("build-dependencies"));
    assert_eq!(deps[2].constraint.0, "1.0");
}

#[test]
fn read_labels_target_sections() {
    let content = "[target.'cfg(unix)'.dev-dependencies]\nnix = \"0.27\"\n";
    let deps = read_manifest(content).unwrap();
    assert_eq!(deps.len(), 1);
    assert_eq!(deps[0].section.as_deref(), Some("target.cfg(unix).dev-dependencies"));
}

#[test]
fn read_rejects_invalid_toml() {
    let err = read_manifest("[dependencies\nserde = ").unwrap_err();
    assert!(err.starts_with("Failed to parse Cargo.toml: "));
}

#[test]
fn write_keeps_other_bytes() {
    let content = "[dependencies]\n# pinned\nserde = { version = \"1.0.0\", features = [\"derive\"] } # keep\ntokio = \"1\"\n";
    let dep = read_manifest(content).unwrap().into_iter().next().unwrap();
    let out = ud::manifest::write(content, &dep, &Version("1.0.219".into())).unwrap();
    assert_eq!(out, "[dependencies]\n# pinned\nserde = { version = \"1.0.219\", features = [\"derive\"] } # keep\ntokio = \"1\"\n");
}

#[test]
fn write_targets_the_section_it_was_read_from() {
    let content = "[dependencies]\nrand = \"0.7\"\n\n[dev-dependencies]\nrand = \"0.8\"\n";
    let deps = read_manifest(content).unwrap();
    assert_eq!(deps.len(), 2);
    let out = ud::manifest::write(content, &deps[1], &Version("0.9.0".into())).unwrap();
    assert_eq!(out, "[dependencies]\nrand = \"0.7\"\n\n[dev-dependencies]\nrand = \"0.9.0\"\n");
    // Both sections updated independently in one batch.
    let v1 = Version("0.7.3".into());
    let v2 = Version("0.9.0".into());
    let out = write_batch(content, &[(&deps[0], &v1), (&deps[1], &v2)]).unwrap();
    assert_eq!(out, "[dependencies]\nrand = \"0.7.3\"\n\n[dev-dependencies]\nrand = \"0.9.0\"\n");
}

#[test]
fn write_table_form_dependency() {
    let content = "[dependencies.cc]\nversion = \"1.0\" # c compiler\n";
    let deps = read_manifest(content).unwrap();
    let out = ud::manifest::write(content, &deps[0], &Version("1.2.0".into())).unwrap();
    assert_eq!(out, "[dependencies.cc]\nversion = \"1.2.0\" # c compiler\n");
}

#[test]
fn index_lines_trims_and_skips_blank_lines() {
    let body = "\n  {\"a\":1}  \r\n\n{\"b\":2}\n";
    assert_eq!(index_lines(body), vec!["{\"a\":1}".to_string(), "{\"b\":2}".to_string()]);
    assert!(index_lines("").is_empty());
}

#[test]
fn index_entries_become_availability() {
    let a = availability_from_entries(vec![("1.0.0".into(), false), ("1.2.0-alpha.1".into(), false), ("1.1.5".into(), true)]);
    assert_eq!(a.versions.len(), 3);
    assert!(!a.versions[0].prerelease);
    assert!(a.versions[1].prerelease);
    assert!(a.versions[2].yanked);
    assert!(!a.versions[2].prerelease);
}

#[test]
fn index_status_meanings() {
    assert_eq!(index_status(404), IndexStatus::NotFound);
    assert_eq!(index_status(500), IndexStatus::Failed);
    assert_eq!(index_status(200), IndexStatus::Listed);
    assert_eq!(http_error_message("500 Internal Server Error", "err-dep"), "HTTP error 500 Internal Server Error for err-dep");
}

#[test]
fn write_is_idempotent() {
    let content = "[dependencies]\nserde = \"1.0.0\" # c\n";
    let dep = read_manifest(content).unwrap().into_iter().next().unwrap();
    let v = Version("1.0.219".into());
    let once = ud::manifest::write(content, &dep, &v).unwrap();
    let twice = ud::manifest::write(&once, &dep, &v).unwrap();
    assert_eq!(once, twice);
}

#[test]
fn write_without_version_changes_nothing() {
    let content = "[dependencies]\nlocal = { path = \"../local\" }  # here\n";
    let dep = Dependency {
        coordinate: Coordinate("local".into()),
        constraint: Constraint("*".into()),
        span: None,
        source_hint: None,
        section: Some("dependencies".into()),
    };
    assert_eq!(ud::manifest::write(content, &dep, &Version("1.0.0".into())).unwrap(), content);
    assert_eq!(write_batch(content, &[]).unwrap(), content);
}

#[test]
fn read_then_write_gives_back_the_new_version() {
    let content = "[dependencies]\ntokio = { version = \"1.36\", features = [\"full\"] }\n";
    let dep = read_manifest(content).unwrap().into_iter().next().unwrap();
    let out = ud::manifest::write(content, &dep, &Version("1.45.0".into())).unwrap();
    let again = read_manifest(&out).unwrap();
    assert_eq!(again.len(), 1);
    assert_eq!(again[0].constraint.0, "1.45.0");
    assert_eq!(again[0].section.as_deref(), Some("dependencies"));
}

#[test]
fn read_gives_byte_spans() {
    let content = "[dependencies]\nserde = \"1.0.0\"\ntokio = { version = \"1\" }\n";
    let deps = read_manifest(content).unwrap();
    let s = deps[0].span.unwrap();
    assert_eq!(&content[s.start..s.end], "\"1.0.0\"");
    let t = deps[1].span.unwrap();
    assert_eq!(&content[t.start..t.end], "{ version = \"1\" }");
}

#[test]
fn written_text_reads_back_with_the_rest_unchanged() {
    let content = "[dependencies]\nrand = \"0.7\"\nlog = { version = \"0.4\" }\n\n[dev-dependencies]\nrand = \"0.8\"\n";
    let deps = read_manifest(content).unwrap();
    let out = ud::manifest::write(content, &deps[0], &Version("0.7.3".into())).unwrap();
    let again = read_manifest(&out).unwrap();
    assert_eq!(again.len(), 3);
    assert_eq!(again[0].constraint.0, "0.7.3");
    assert_eq!(again[1].constraint.0, "0.4");
    assert_eq!(again[2].constraint.0, "0.8");
    assert_eq!(again[2].section.as_deref(), Some("dev-dependencies"));
}

#[test]
fn write_ends_the_text_with_a_newline() {
    let content = "[dependencies]\nserde = \"1.0.0\"";
    let dep = read_manifest(content).unwrap().into_iter().next().unwrap();
    let out = ud::manifest::write(content, &dep, &Version("1.0.219".into())).unwrap();
    assert_eq!(out, "[dependencies]\nserde = \"1.0.219\"\n");
}
