use limavel::config::{
    default_disk, default_nodejs, DatabaseConfig, Features, FolderMap, LimavelConfig, PortMap,
    SiteMap,
};
use limavel::error::LimavelError;

fn site(map: &str, php: &str) -> SiteMap {
    SiteMap { map: map.to_string(), to: format!("/home/limavel/{}", map), php: php.to_string() }
}

fn config(sites: Vec<SiteMap>, folders: Vec<FolderMap>) -> LimavelConfig {
    LimavelConfig {
        name: "dev".to_string(),
        memory: 4096,
        cpus: 2,
        disk: default_disk(),
        image: "https://example.org/debian.qcow2".to_string(),
        arch: "aarch64".to_string(),
        authorize: "~/.ssh/id_ed25519.pub".to_string(),
        keys: vec![],
        folders,
        sites,
        databases: vec!["app".to_string()],
        database: DatabaseConfig {
            db_type: "mysql".to_string(),
            version: "8.4".to_string(),
            password: "secret".to_string(),
        },
        features: Features { ohmyzsh: true, webdriver: false, mailpit: true, mongodb: false, valkey: false, extra: vec![] },
        ports: vec![PortMap { send: 8080, to: 80 }],
        nodejs: default_nodejs(),
        bootstrap: None,
        playbooks: None,
    }
}

#[test]
fn defaults_are_fifty_gib_and_node_24() {
    assert_eq!(default_disk(), 50);
    assert_eq!(default_nodejs(), "24");
}

#[test]
fn config_path_appends_yaml() {
    assert_eq!(LimavelConfig::config_path("limavel"), "limavel.yaml");
}

#[test]
fn instance_name_is_the_name_field() {
    assert_eq!(config(vec![], vec![]).instance_name(), "dev");
}

#[test]
fn php_versions_are_sorted_and_unique() {
    let c = config(
        vec![site("a.test", "8.3"), site("b.test", "8.1"), site("c.test", "8.3"), site("d.test", "7.4")],
        vec![],
    );
    assert_eq!(c.php_versions(), vec!["7.4", "8.1", "8.3"]);
}

#[test]
fn php_versions_of_no_sites_is_empty() {
    assert!(config(vec![], vec![]).php_versions().is_empty());
}

#[test]
fn php_versions_order_is_string_order() {
    let c = config(vec![site("a", "8.10"), site("b", "8.9"), site("c", "8")], vec![]);
    assert_eq!(c.php_versions(), vec!["8", "8.10", "8.9"]);
}

#[test]
fn site_domains_in_order() {
    let c = config(vec![site("b.test", "8.3"), site("a.test", "8.3")], vec![]);
    assert_eq!(c.site_domains(), vec!["b.test", "a.test"]);
}

#[test]
fn resolve_path_leaves_plain_paths_alone() {
    assert_eq!(LimavelConfig::resolve_path("/srv/code"), "/srv/code");
    assert_eq!(LimavelConfig::resolve_path("~other/code"), "~other/code");
}

#[test]
fn resolve_path_expands_a_leading_tilde() {
    let r = LimavelConfig::resolve_path("~/code");
    assert!(r.ends_with("/code"));
    assert!(!r.starts_with('~'));
}

#[test]
fn ssh_pubkey_is_trimmed() {
    assert_eq!(LimavelConfig::ssh_pubkey_from("ssh-ed25519 AAAA me@host\n"), "ssh-ed25519 AAAA me@host");
}

#[test]
fn validate_folders_lists_missing_ones() {
    let folders = vec![
        FolderMap { map: "~/a".to_string(), to: "/a".to_string() },
        FolderMap { map: "~/b".to_string(), to: "/b".to_string() },
        FolderMap { map: "~/c".to_string(), to: "/c".to_string() },
    ];
    let c = config(vec![], folders);
    let checked = vec![
        ("/home/u/a".to_string(), false),
        ("/home/u/b".to_string(), true),
        ("/home/u/c".to_string(), false),
    ];
    assert_eq!(
        c.validate_folders(&checked),
        Err(LimavelError::FoldersNotFound("  - ~/a (/home/u/a)\n  - ~/c (/home/u/c)".to_string()))
    );
    let all_there = vec![
        ("/home/u/a".to_string(), true),
        ("/home/u/b".to_string(), true),
        ("/home/u/c".to_string(), true),
    ];
    assert_eq!(c.validate_folders(&all_there), Ok(()));
}

#[test]
fn folder_locations_expand_each_folder() {
    let folders = vec![
        FolderMap { map: "/srv/code".to_string(), to: "/code".to_string() },
        FolderMap { map: "~/projects".to_string(), to: "/projects".to_string() },
    ];
    let locations = config(vec![], folders).folder_locations();
    assert_eq!(locations.len(), 2);
    assert_eq!(locations[0], "/srv/code");
    assert!(locations[1].ends_with("/projects"));
    assert!(!locations[1].starts_with('~'));
}
