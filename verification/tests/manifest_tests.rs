use container::manifest::load_manifest;

#[test]
fn dependency_sequence_and_mapping_forms_normalize_alike() {
    let seq_form = r#"
services:
  api:
    depends_on:
      - web
      - db
"#;
    let map_form = r#"
services:
  api:
    depends_on:
      web:
        condition: service_started
      db:
        condition: service_started
"#;
    let a = load_manifest(seq_form).unwrap();
    let b = load_manifest(map_form).unwrap();
    assert_eq!(a.len(), 1);
    assert_eq!(b.len(), 1);
    assert_eq!(a[0].depends_on, vec!["web".to_string(), "db".to_string()]);
    assert_eq!(a[0].depends_on, b[0].depends_on);
}

#[test]
fn sequence_form_keeps_declared_order() {
    let text = r#"
services:
  api:
    depends_on: [c, a, b]
"#;
    let m = load_manifest(text).unwrap();
    assert_eq!(
        m[0].depends_on,
        vec!["c".to_string(), "a".to_string(), "b".to_string()]
    );
}

#[test]
fn ports_volumes_environment_are_extracted() {
    let text = r#"
services:
  web:
    ports:
      - "8080:80"
    volumes:
      - "/data/web:/var/www"
    environment:
      MODE: fast
      EMPTY_FROM_NUMBER: 3
"#;
    let m = load_manifest(text).unwrap();
    assert_eq!(m.len(), 1);
    assert_eq!(m[0].name, "web".to_string());
    assert_eq!(m[0].ports, vec!["8080:80".to_string()]);
    assert_eq!(m[0].volumes, vec!["/data/web:/var/www".to_string()]);
    assert_eq!(m[0].environment.len(), 2);
    assert_eq!(m[0].environment[0].key, "MODE".to_string());
    assert_eq!(m[0].environment[0].value, "fast".to_string());
    assert_eq!(m[0].environment[1].key, "EMPTY_FROM_NUMBER".to_string());
    assert_eq!(m[0].environment[1].value, "".to_string());
}

#[test]
fn absent_fields_default_to_empty() {
    let text = r#"
services:
  lone: {}
"#;
    let m = load_manifest(text).unwrap();
    assert_eq!(m.len(), 1);
    assert!(m[0].depends_on.is_empty());
    assert!(m[0].ports.is_empty());
    assert!(m[0].volumes.is_empty());
    assert!(m[0].environment.is_empty());
}

#[test]
fn manifest_without_services_key_declares_no_services() {
    let m = load_manifest("version: \"3\"\n").unwrap();
    assert!(m.is_empty());
}

#[test]
fn manifest_entries_keep_declared_order() {
    let text = r#"
services:
  one: {}
  two: {}
  three: {}
"#;
    let m = load_manifest(text).unwrap();
    let names: Vec<String> = m.into_iter().map(|s| s.name).collect();
    assert_eq!(
        names,
        vec!["one".to_string(), "two".to_string(), "three".to_string()]
    );
}

#[test]
fn unparseable_manifest_is_rejected() {
    assert!(load_manifest("services: [unclosed").is_none());
}
