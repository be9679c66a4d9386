use container::discovery::{discover_services, FoundFile};

fn file(path: &[&str], content: &str) -> FoundFile {
    FoundFile {
        path: path.iter().map(|p| p.to_string()).collect(),
        content: content.to_string(),
    }
}

const GOOD: &str = r#"{"uid": 10}"#;

#[test]
fn descriptors_are_named_after_their_directory() {
    let files = vec![
        file(&["web", "service.json"], GOOD),
        file(&["api", "service.json"], GOOD),
    ];
    let found = discover_services(&"stack".to_string(), &files);
    assert_eq!(found.len(), 2);
    assert_eq!(found[0].name, "web".to_string());
    assert_eq!(found[1].name, "api".to_string());
}

#[test]
fn descriptor_directly_under_root_takes_the_root_name() {
    let files = vec![file(&["service.json"], GOOD)];
    let found = discover_services(&"stack".to_string(), &files);
    assert_eq!(found.len(), 1);
    assert_eq!(found[0].name, "stack".to_string());
}

#[test]
fn descriptor_three_levels_deep_is_never_found() {
    let files = vec![
        file(&["a", "b", "service.json"], GOOD),
        file(&["web", "service.json"], GOOD),
        file(&["x", "y", "z", "service.json"], GOOD),
    ];
    let found = discover_services(&"stack".to_string(), &files);
    assert_eq!(found.len(), 1);
    assert_eq!(found[0].name, "web".to_string());
}

#[test]
fn other_file_names_are_ignored() {
    let files = vec![
        file(&["web", "service.yaml"], GOOD),
        file(&["web", "service.json"], GOOD),
    ];
    let found = discover_services(&"stack".to_string(), &files);
    assert_eq!(found.len(), 1);
}

#[test]
fn invalid_descriptor_is_skipped_and_valid_ones_still_succeed() {
    let files = vec![
        file(&["bad", "service.json"], "{ broken"),
        file(&["good", "service.json"], GOOD),
        file(&["worse", "service.json"], r#"{"uid": "nope"}"#),
    ];
    let found = discover_services(&"stack".to_string(), &files);
    assert_eq!(found.len(), 1);
    assert_eq!(found[0].name, "good".to_string());
    assert_eq!(found[0].config.uid, Some(10));
}

#[test]
fn later_descriptor_under_a_known_name_replaces_in_place() {
    let files = vec![
        file(&["web", "service.json"], r#"{"uid": 1}"#),
        file(&["api", "service.json"], r#"{"uid": 2}"#),
        file(&["web", "service.json"], r#"{"uid": 3}"#),
    ];
    let found = discover_services(&"stack".to_string(), &files);
    assert_eq!(found.len(), 2);
    assert_eq!(found[0].name, "web".to_string());
    assert_eq!(found[0].config.uid, Some(3));
    assert_eq!(found[1].name, "api".to_string());
}

#[test]
fn no_valid_descriptor_yields_an_empty_result() {
    let files = vec![file(&["bad", "service.json"], "nope")];
    let found = discover_services(&"stack".to_string(), &files);
    assert!(found.is_empty());
}
