use container::descriptor::ServiceConfig;
use container::graph::{build_graph, ServiceEntry};
use container::manifest::ComposeService;

fn bare_config() -> ServiceConfig {
    ServiceConfig {
        username: None,
        uid: None,
        groupname: None,
        gid: None,
        description: None,
        data_dir: None,
        dockerfile: None,
        config_files: None,
        binaries: None,
        ports: None,
        special_dirs: None,
    }
}

fn entry(name: &str) -> ServiceEntry {
    ServiceEntry { name: name.to_string(), config: bare_config() }
}

fn compose(name: &str, deps: &[&str]) -> ComposeService {
    ComposeService {
        name: name.to_string(),
        depends_on: deps.iter().map(|d| d.to_string()).collect(),
        ports: Vec::new(),
        volumes: Vec::new(),
        environment: Vec::new(),
    }
}

#[test]
fn resolve_web_api_scenario() {
    let services = vec![entry("web"), entry("api")];
    let manifest = vec![compose("web", &[]), compose("api", &["web"])];
    let graph = build_graph(services, manifest);
    let order = graph.resolve_dependencies(&"api".to_string());
    assert_eq!(order, vec!["web".to_string(), "api".to_string()]);
}

#[test]
fn resolve_without_dependencies_returns_only_itself() {
    let services = vec![entry("web"), entry("api")];
    let manifest = vec![compose("web", &[]), compose("api", &["web"])];
    let graph = build_graph(services, manifest);
    let order = graph.resolve_dependencies(&"web".to_string());
    assert_eq!(order, vec!["web".to_string()]);
}

#[test]
fn resolve_chain_orders_dependencies_first() {
    let services = vec![entry("db"), entry("api"), entry("web")];
    let manifest = vec![
        compose("db", &[]),
        compose("api", &["db"]),
        compose("web", &["api"]),
    ];
    let graph = build_graph(services, manifest);
    let order = graph.resolve_dependencies(&"web".to_string());
    assert_eq!(
        order,
        vec!["db".to_string(), "api".to_string(), "web".to_string()]
    );
}

#[test]
fn resolve_diamond_lists_each_name_once() {
    let manifest = vec![
        compose("base", &[]),
        compose("left", &["base"]),
        compose("right", &["base"]),
        compose("top", &["left", "right"]),
    ];
    let graph = build_graph(Vec::new(), manifest);
    let order = graph.resolve_dependencies(&"top".to_string());
    assert_eq!(order.len(), 4);
    for name in ["base", "left", "right", "top"] {
        assert_eq!(order.iter().filter(|n| n.as_str() == name).count(), 1);
    }
    let pos = |n: &str| order.iter().position(|x| x == n).unwrap();
    assert!(pos("base") < pos("left"));
    assert!(pos("base") < pos("right"));
    assert!(pos("left") < pos("top"));
    assert!(pos("right") < pos("top"));
}

#[test]
fn resolve_terminates_on_cycle_and_covers_each_name_once() {
    let manifest = vec![compose("a", &["b"]), compose("b", &["a"])];
    let graph = build_graph(Vec::new(), manifest);
    let order = graph.resolve_dependencies(&"a".to_string());
    assert_eq!(order, vec!["b".to_string(), "a".to_string()]);
}

#[test]
fn resolve_always_ends_with_the_requested_service() {
    let manifest = vec![
        compose("a", &["b"]),
        compose("b", &["c"]),
        compose("c", &["a"]),
    ];
    let graph = build_graph(Vec::new(), manifest);
    let order = graph.resolve_dependencies(&"b".to_string());
    assert_eq!(order.len(), 3);
    assert_eq!(order.last(), Some(&"b".to_string()));
}

#[test]
fn resolve_includes_names_without_descriptors() {
    let services = vec![entry("api")];
    let manifest = vec![compose("api", &["ghost"])];
    let graph = build_graph(services, manifest);
    let order = graph.resolve_dependencies(&"api".to_string());
    assert_eq!(order, vec!["ghost".to_string(), "api".to_string()]);
}

#[test]
fn build_graph_indexes_only_services_with_dependencies() {
    let manifest = vec![compose("web", &[]), compose("api", &["web"])];
    let graph = build_graph(Vec::new(), manifest);
    assert_eq!(graph.deps.len(), 1);
    assert_eq!(graph.deps[0].name, "api".to_string());
    assert_eq!(graph.deps[0].deps, vec!["web".to_string()]);
}
