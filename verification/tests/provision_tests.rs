use container::descriptor::ServiceConfig;
use container::provision::{
    account_actions, config_file_actions, dest_file_name, directory_actions,
    mode_for_config_file, HostAction,
};

fn identity_config() -> ServiceConfig {
    ServiceConfig {
        username: Some("appuser".to_string()),
        uid: Some(1500),
        groupname: Some("appgroup".to_string()),
        gid: Some(1501),
        description: Some("the app".to_string()),
        data_dir: Some("/data/app".to_string()),
        dockerfile: Some("Dockerfile".to_string()),
        config_files: Some(vec!["app.conf.example".to_string(), "password.txt".to_string()]),
        binaries: None,
        ports: None,
        special_dirs: Some(vec!["logs".to_string()]),
    }
}

#[test]
fn provisioning_an_already_provisioned_host_plans_nothing_for_accounts() {
    let c = identity_config();
    assert!(account_actions(&c, true, true).is_empty());
}

#[test]
fn missing_group_and_user_are_each_created_once() {
    let c = identity_config();
    let plan = account_actions(&c, false, false);
    assert_eq!(plan.len(), 2);
    match &plan[0] {
        HostAction::EnsureGroup { group, gid } => {
            assert_eq!(group.as_str(), "appgroup");
            assert_eq!(*gid, 1501);
        }
        other => panic!("expected a group action, got {:?}", plan_kind(other)),
    }
    match &plan[1] {
        HostAction::EnsureUser { user, uid, group, comment } => {
            assert_eq!(user.as_str(), "appuser");
            assert_eq!(*uid, 1500);
            assert_eq!(group.as_str(), "appgroup");
            assert_eq!(comment.as_str(), "the app");
        }
        other => panic!("expected a user action, got {:?}", plan_kind(other)),
    }
}

fn plan_kind(a: &HostAction) -> &'static str {
    match a {
        HostAction::EnsureGroup { .. } => "group",
        HostAction::EnsureUser { .. } => "user",
        HostAction::MakeDir { .. } => "mkdir",
        HostAction::Chown { .. } => "chown",
        HostAction::Chmod { .. } => "chmod",
        HostAction::CopyFile { .. } => "copy",
    }
}

#[test]
fn existing_group_short_circuits_only_the_group() {
    let c = identity_config();
    let plan = account_actions(&c, true, false);
    assert_eq!(plan.len(), 1);
    assert!(matches!(&plan[0], HostAction::EnsureUser { .. }));
}

#[test]
fn missing_description_falls_back_to_a_generic_label() {
    let mut c = identity_config();
    c.description = None;
    let plan = account_actions(&c, true, false);
    match &plan[0] {
        HostAction::EnsureUser { comment, .. } => assert_eq!(comment.as_str(), "service account"),
        _ => panic!("expected a user action"),
    }
}

#[test]
fn incomplete_identity_plans_no_account_work() {
    let mut c = identity_config();
    c.gid = None;
    assert!(account_actions(&c, false, false).is_empty());
}

#[test]
fn directory_plan_reapplies_ownership_after_special_dirs() {
    let c = identity_config();
    let plan = directory_actions(&c);
    let kinds: Vec<&str> = plan.iter().map(plan_kind).collect();
    assert_eq!(kinds, vec!["mkdir", "chown", "chmod", "mkdir", "chown", "chmod"]);
    match &plan[3] {
        HostAction::MakeDir { path } => assert_eq!(path.as_str(), "/data/app/logs"),
        _ => panic!("expected the special directory"),
    }
    match &plan[5] {
        HostAction::Chmod { path, mode, recursive } => {
            assert_eq!(path.as_str(), "/data/app");
            assert_eq!(mode.as_str(), "755");
            assert!(*recursive);
        }
        _ => panic!("expected the final chmod"),
    }
}

#[test]
fn directory_plan_without_special_dirs_has_no_fixup_pass() {
    let mut c = identity_config();
    c.special_dirs = None;
    let kinds: Vec<&str> = directory_actions(&c).iter().map(plan_kind).collect();
    assert_eq!(kinds, vec!["mkdir", "chown", "chmod"]);
}

#[test]
fn destination_name_strips_the_template_suffix() {
    assert_eq!(dest_file_name("app.conf.example"), "app.conf".to_string());
    assert_eq!(dest_file_name("app.conf"), "app.conf".to_string());
    assert_eq!(dest_file_name("a.example.example"), "a".to_string());
}

#[test]
fn mode_selection_by_file_name() {
    assert_eq!(mode_for_config_file("password.txt"), "600".to_string());
    assert_eq!(mode_for_config_file("run.sh"), "755".to_string());
    assert_eq!(mode_for_config_file("app.conf"), "644".to_string());
}

#[test]
fn config_files_are_copied_under_their_stripped_name() {
    let c = identity_config();
    let plan = config_file_actions("/src", "app", &c, &vec![true, true]);
    let kinds: Vec<&str> = plan.iter().map(plan_kind).collect();
    assert_eq!(kinds, vec!["copy", "chown", "chmod", "copy", "chown", "chmod"]);
    match &plan[0] {
        HostAction::CopyFile { source, dest } => {
            assert_eq!(source.as_str(), "/src/app/app.conf.example");
            assert_eq!(dest.as_str(), "/data/app/app.conf");
        }
        _ => panic!("expected the copy"),
    }
    match &plan[2] {
        HostAction::Chmod { mode, recursive, .. } => {
            assert_eq!(mode.as_str(), "644");
            assert!(!*recursive);
        }
        _ => panic!("expected the chmod"),
    }
    match &plan[5] {
        HostAction::Chmod { mode, .. } => assert_eq!(mode.as_str(), "600"),
        _ => panic!("expected the chmod"),
    }
}

#[test]
fn staging_needs_the_complete_host_identity() {
    let mut c = identity_config();
    c.groupname = None;
    assert!(config_file_actions("/src", "app", &c, &vec![true, true]).is_empty());
    let mut c2 = identity_config();
    c2.username = None;
    assert!(config_file_actions("/src", "app", &c2, &vec![true, true]).is_empty());
}

#[test]
fn missing_source_skips_that_file_only() {
    let c = identity_config();
    let plan = config_file_actions("/src", "app", &c, &vec![false, true]);
    assert_eq!(plan.len(), 3);
    match &plan[0] {
        HostAction::CopyFile { source, .. } => assert_eq!(source.as_str(), "/src/app/password.txt"),
        _ => panic!("expected the copy"),
    }
}
