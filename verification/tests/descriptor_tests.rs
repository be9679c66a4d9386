use container::descriptor::load_service_config;

#[test]
fn full_descriptor_parses() {
    let text = r#"{
        "username": "appuser",
        "uid": 1500,
        "groupname": "appgroup",
        "gid": 1501,
        "description": "the app",
        "data_dir": "/data/app",
        "dockerfile": "Dockerfile",
        "config_files": ["app.conf.example", "run.sh"],
        "binaries": ["bin/app"],
        "ports": ["8080:80"],
        "special_dirs": ["logs", "cache"]
    }"#;
    let c = load_service_config(text).expect("descriptor should parse");
    assert_eq!(c.username, Some("appuser".to_string()));
    assert_eq!(c.uid, Some(1500));
    assert_eq!(c.groupname, Some("appgroup".to_string()));
    assert_eq!(c.gid, Some(1501));
    assert_eq!(c.description, Some("the app".to_string()));
    assert_eq!(c.data_dir, Some("/data/app".to_string()));
    assert_eq!(c.dockerfile, Some("Dockerfile".to_string()));
    assert_eq!(
        c.config_files,
        Some(vec!["app.conf.example".to_string(), "run.sh".to_string()])
    );
    assert_eq!(c.binaries, Some(vec!["bin/app".to_string()]));
    assert_eq!(c.ports, Some(vec!["8080:80".to_string()]));
    assert_eq!(c.special_dirs, Some(vec!["logs".to_string(), "cache".to_string()]));
}

#[test]
fn empty_object_gives_all_absent_fields() {
    let c = load_service_config("{}").expect("empty object is a valid descriptor");
    assert_eq!(c.username, None);
    assert_eq!(c.uid, None);
    assert_eq!(c.config_files, None);
}

#[test]
fn null_fields_count_as_absent() {
    let c = load_service_config(r#"{"username": null, "uid": null}"#).unwrap();
    assert_eq!(c.username, None);
    assert_eq!(c.uid, None);
}

#[test]
fn invalid_json_is_rejected() {
    assert!(load_service_config("{ not json").is_none());
    assert!(load_service_config("").is_none());
}

#[test]
fn non_object_document_is_rejected() {
    assert!(load_service_config("[1, 2]").is_none());
    assert!(load_service_config("\"just a string\"").is_none());
}

#[test]
fn wrong_field_shape_rejects_the_descriptor() {
    assert!(load_service_config(r#"{"username": 5}"#).is_none());
    assert!(load_service_config(r#"{"uid": "not a number"}"#).is_none());
    assert!(load_service_config(r#"{"config_files": "one"}"#).is_none());
    assert!(load_service_config(r#"{"config_files": ["ok", 3]}"#).is_none());
}

#[test]
fn uid_too_large_for_an_os_id_is_rejected() {
    assert!(load_service_config(r#"{"uid": 4294967296}"#).is_none());
    assert!(load_service_config(r#"{"uid": 4294967295}"#).is_some());
}

#[test]
fn unknown_fields_are_ignored() {
    let c = load_service_config(r#"{"unknown": [1, 2], "uid": 7}"#).unwrap();
    assert_eq!(c.uid, Some(7));
}
