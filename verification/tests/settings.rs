use pastaless::hosts::load_allowed_hosts;
use pastaless::projects::{ProjectConfig, Projects};
use pastaless::server::Pastaless;

fn config(root: &str) -> ProjectConfig {
    ProjectConfig {
        root: root.to_string(),
    }
}

#[test]
fn hosts_of_this_machine_by_default() {
    let local = vec!["localhost", "127.0.0.1", "::1"];
    assert_eq!(load_allowed_hosts(None), local);
    assert_eq!(load_allowed_hosts(Some("")), local);
    assert_eq!(load_allowed_hosts(Some(" , ,\t")), local);
}

#[test]
fn hosts_that_the_setting_names() {
    assert_eq!(
        load_allowed_hosts(Some(" example.org,, \u{3000}a b\t, x:80")),
        vec!["example.org", "a b", "x:80"]
    );
    assert_eq!(load_allowed_hosts(Some("one")), vec!["one"]);
}

#[test]
fn projects_by_key() {
    let mut all = Projects::new();
    assert!(all.get("game").is_none());
    all.insert("game".to_string(), config("/w/game"));
    all.insert("blog".to_string(), config("/w/blog"));
    all.insert("game".to_string(), config("/w/game2"));
    assert_eq!(all.get("game").unwrap().root, "/w/game2");
    assert_eq!(all.get("blog").unwrap().root, "/w/blog");
    assert!(all.get("gam").is_none());
    assert_eq!(all.sorted_keys(), vec!["blog", "game"]);
}

#[test]
fn project_keys_are_listed_in_order() {
    let mut all = Projects::new();
    for key in ["zeta", "Beta", "alpha", "beta", "alpha"] {
        all.insert(key.to_string(), config("/w"));
    }
    let server = Pastaless::new(all);
    assert_eq!(
        server.list_projects().projects,
        vec!["Beta", "alpha", "beta", "zeta"]
    );
}

#[test]
fn no_projects() {
    assert!(Pastaless::new(Projects::new()).list_projects().projects.is_empty());
}

#[test]
fn roots_of_projects() {
    let mut all = Projects::new();
    all.insert("game".to_string(), config("/w/game"));
    let server = Pastaless::new(all);
    assert_eq!(server.project_root("game").unwrap(), "/w/game");
    assert_eq!(
        server.project_root("nope").unwrap_err().message(),
        "unknown project: nope"
    );
}
