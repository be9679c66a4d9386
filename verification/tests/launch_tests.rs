use container::descriptor::ServiceConfig;
use container::launch::{display_description, launch_commands};
use container::resources::{binary_paths, missing_report, recipe_path};

fn config_with(description: Option<&str>) -> ServiceConfig {
    ServiceConfig {
        username: None,
        uid: None,
        groupname: None,
        gid: None,
        description: description.map(|d| d.to_string()),
        data_dir: None,
        dockerfile: Some("Dockerfile".to_string()),
        config_files: None,
        binaries: Some(vec!["bin/app".to_string(), "bin/tool".to_string()]),
        ports: None,
        special_dirs: None,
    }
}

#[test]
fn launch_plan_stops_builds_starts_and_reports() {
    let services = vec!["web".to_string(), "api".to_string()];
    let plan = launch_commands(&services);
    assert_eq!(plan.len(), 4);
    for cmd in &plan {
        assert_eq!(cmd.program.as_str(), "docker-compose");
    }
    assert_eq!(plan[0].args, vec!["down".to_string(), "-v".to_string()]);
    assert!(!plan[0].fatal);
    assert_eq!(
        plan[1].args,
        vec!["build".to_string(), "web".to_string(), "api".to_string()]
    );
    assert!(plan[1].fatal);
    assert_eq!(
        plan[2].args,
        vec!["up".to_string(), "-d".to_string(), "web".to_string(), "api".to_string()]
    );
    assert!(plan[2].fatal);
    assert_eq!(plan[3].args, vec!["ps".to_string()]);
    assert!(!plan[3].fatal);
}

#[test]
fn launch_plan_for_empty_selection_names_no_service() {
    let plan = launch_commands(&Vec::new());
    assert_eq!(plan[1].args, vec!["build".to_string()]);
    assert_eq!(plan[2].args, vec!["up".to_string(), "-d".to_string()]);
}

#[test]
fn description_falls_back_when_absent() {
    assert_eq!(
        display_description(&config_with(Some("the web tier"))).as_str(),
        "the web tier"
    );
    assert_eq!(display_description(&config_with(None)).as_str(), "no description");
}

#[test]
fn declared_resources_resolve_under_the_source_directory() {
    let c = config_with(None);
    let recipe = recipe_path("/src", "web", &c).unwrap();
    assert_eq!(recipe.as_str(), "/src/web/Dockerfile");
    let bins = binary_paths("/src", "web", &c);
    assert_eq!(
        bins,
        vec!["/src/web/bin/app".to_string(), "/src/web/bin/tool".to_string()]
    );
}

#[test]
fn missing_report_counts_and_lists_the_absent_paths() {
    let paths = vec!["a".to_string(), "b".to_string(), "c".to_string()];
    let present = vec![true, false, false];
    let report = missing_report(&paths, &present);
    assert_eq!(report.total, 3);
    assert_eq!(report.missing, vec!["b".to_string(), "c".to_string()]);
    assert_eq!(report.total - report.missing.len(), 1);
}
