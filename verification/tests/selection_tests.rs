use container::descriptor::ServiceConfig;
use container::graph::{build_graph, ServiceEntry};
use container::manifest::ComposeService;
use container::selection::{
    all_service_names, auto_detect_services, expand_selection, interpret_menu_selection,
    split_service_list, MenuChoice,
};

fn entry(name: &str, dockerfile: Option<&str>) -> ServiceEntry {
    ServiceEntry {
        name: name.to_string(),
        config: ServiceConfig {
            username: None,
            uid: None,
            groupname: None,
            gid: None,
            description: None,
            data_dir: None,
            dockerfile: dockerfile.map(|d| d.to_string()),
            config_files: None,
            binaries: None,
            ports: None,
            special_dirs: None,
        },
    }
}

#[test]
fn auto_detect_selects_only_services_with_a_present_recipe() {
    let services = vec![
        entry("web", Some("Dockerfile")),
        entry("api", Some("Dockerfile")),
        entry("db", Some("Dockerfile")),
    ];
    // only web's and db's recipe files exist on disk
    let present = vec![true, false, true];
    let picked = auto_detect_services(&services, &present);
    assert_eq!(picked, vec!["web".to_string(), "db".to_string()]);
}

#[test]
fn auto_detect_skips_services_without_a_declared_recipe() {
    let services = vec![entry("web", None), entry("api", Some("Dockerfile"))];
    let present = vec![false, true];
    let picked = auto_detect_services(&services, &present);
    assert_eq!(picked, vec!["api".to_string()]);
}

#[test]
fn menu_rows_map_to_services_then_meta_options() {
    assert_eq!(interpret_menu_selection(0, 3), MenuChoice::Service(0));
    assert_eq!(interpret_menu_selection(2, 3), MenuChoice::Service(2));
    assert_eq!(interpret_menu_selection(3, 3), MenuChoice::All);
    assert_eq!(interpret_menu_selection(4, 3), MenuChoice::AutoDetect);
    assert_eq!(interpret_menu_selection(5, 3), MenuChoice::IsolatedTest);
}

#[test]
fn single_pick_expands_to_the_chain_or_stays_alone() {
    let manifest = vec![
        ComposeService {
            name: "web".to_string(),
            depends_on: Vec::new(),
            ports: Vec::new(),
            volumes: Vec::new(),
            environment: Vec::new(),
        },
        ComposeService {
            name: "api".to_string(),
            depends_on: vec!["web".to_string()],
            ports: Vec::new(),
            volumes: Vec::new(),
            environment: Vec::new(),
        },
    ];
    let graph = build_graph(Vec::new(), manifest);
    assert_eq!(
        expand_selection(&graph, &"api".to_string(), true),
        vec!["web".to_string(), "api".to_string()]
    );
    assert_eq!(
        expand_selection(&graph, &"api".to_string(), false),
        vec!["api".to_string()]
    );
}

#[test]
fn explicit_list_splits_on_commas_and_trims() {
    assert_eq!(
        split_service_list("web, api ,db"),
        vec!["web".to_string(), "api".to_string(), "db".to_string()]
    );
}

#[test]
fn explicit_list_keeps_empty_pieces() {
    assert_eq!(
        split_service_list("a,,b"),
        vec!["a".to_string(), "".to_string(), "b".to_string()]
    );
    assert_eq!(split_service_list(""), vec!["".to_string()]);
    assert_eq!(split_service_list("  "), vec!["".to_string()]);
}

#[test]
fn all_names_follow_discovery_order() {
    let services = vec![entry("b", None), entry("a", None), entry("c", None)];
    let names = all_service_names(&services);
    assert_eq!(names, vec!["b".to_string(), "a".to_string(), "c".to_string()]);
}
