use limavel::config::{DatabaseConfig, Features, FolderMap, LimavelConfig, PortMap};
use limavel::lima_config::{generate_bootstrap_script, LimaConfig};

fn config() -> LimavelConfig {
    LimavelConfig {
        name: "dev".to_string(),
        memory: 4096,
        cpus: 2,
        disk: 50,
        image: "https://example.org/debian.qcow2".to_string(),
        arch: "aarch64".to_string(),
        authorize: "~/.ssh/id.pub".to_string(),
        keys: vec![],
        folders: vec![
            FolderMap { map: "/srv/code".to_string(), to: "/home/limavel/code".to_string() },
            FolderMap { map: "~/projects".to_string(), to: "/home/limavel/projects".to_string() },
        ],
        sites: vec![],
        databases: vec![],
        database: DatabaseConfig { db_type: "mariadb".to_string(), version: "11".to_string(), password: "x".to_string() },
        features: Features { ohmyzsh: false, webdriver: false, mailpit: false, mongodb: false, valkey: false, extra: vec![] },
        ports: vec![PortMap { send: 8080, to: 80 }, PortMap { send: 33060, to: 3306 }],
        nodejs: "24".to_string(),
        bootstrap: None,
        playbooks: None,
    }
}

#[test]
fn bootstrap_script_fills_every_placeholder() {
    assert_eq!(
        generate_bootstrap_script("echo {ssh_pubkey} >> a\necho {ssh_pubkey} >> b\n", "ssh-ed25519 K"),
        "echo ssh-ed25519 K >> a\necho ssh-ed25519 K >> b\n"
    );
    assert_eq!(generate_bootstrap_script("no key here", "K"), "no key here");
    assert_eq!(generate_bootstrap_script("{ssh_pubkey", "K"), "{ssh_pubkey");
    assert_eq!(generate_bootstrap_script("{{ssh_pubkey}}", "K"), "{K}");
}

#[test]
fn template_from_config() {
    let c = LimaConfig::from_config(&config(), "ssh-ed25519 K", "key={ssh_pubkey}");
    assert_eq!(c.vm_type, "vz");
    assert_eq!(c.os, "Linux");
    assert_eq!(c.arch, "aarch64");
    assert_eq!(c.images.len(), 1);
    assert_eq!(c.images[0].location, "https://example.org/debian.qcow2");
    assert_eq!(c.images[0].arch, "aarch64");
    assert_eq!(c.cpus, 2);
    assert_eq!(c.memory, "4096MiB");
    assert_eq!(c.disk, "50GiB");
    assert_eq!(c.mount_type, "virtiofs");
    assert_eq!(c.mounts.len(), 3);
    assert_eq!(c.mounts[0].location, "/srv/code");
    assert_eq!(c.mounts[0].mount_point.as_deref(), Some("/home/limavel/code"));
    assert!(c.mounts[0].writable);
    assert!(c.mounts[1].location.ends_with("/projects"));
    assert_eq!(c.mounts[2].location, "/tmp/lima");
    assert_eq!(c.mounts[2].mount_point, None);
    assert!(c.mounts[2].writable);
    assert_eq!(c.networks.len(), 1);
    assert!(c.networks[0].vz_nat);
    assert_eq!(c.port_forwards.len(), 2);
    assert_eq!(c.port_forwards[0].guest_port, 80);
    assert_eq!(c.port_forwards[0].host_port, 8080);
    assert_eq!(c.port_forwards[1].guest_port, 3306);
    assert_eq!(c.port_forwards[1].host_port, 33060);
    assert!(c.ssh.load_dot_ssh_pub_keys);
    assert!(!c.containerd.system);
    assert!(!c.containerd.user);
    assert_eq!(c.provision.len(), 1);
    assert_eq!(c.provision[0].mode, "system");
    assert_eq!(c.provision[0].script, "key=ssh-ed25519 K");
}

#[test]
fn assemble_uses_the_given_locations() {
    let c = LimaConfig::assemble(&config(), &["/a".to_string(), "/b".to_string()], "s".to_string());
    assert_eq!(c.mounts[0].location, "/a");
    assert_eq!(c.mounts[1].location, "/b");
    assert_eq!(c.provision[0].script, "s");
}
