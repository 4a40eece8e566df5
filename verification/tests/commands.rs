use limavel::commands::{confirmed, grown_disk, plan_resource_changes};
use limavel::error::LimavelError;

#[test]
fn confirmation_accepts_y_in_either_case() {
    assert!(confirmed("y\n"));
    assert!(confirmed("  Y  "));
    assert!(!confirmed("yes"));
    assert!(!confirmed(""));
    assert!(!confirmed("n"));
}

#[test]
fn no_change_when_resources_agree() {
    assert!(plan_resource_changes(2, 4096, 50, 2, 4096, 50).is_none());
    assert!(plan_resource_changes(2, 4096, 40, 2, 4096, 50).is_none());
}

#[test]
fn all_resources_change() {
    let ch = plan_resource_changes(4, 8192, 60, 2, 4096, 50).unwrap();
    assert_eq!(ch.cpus, 4);
    assert_eq!(ch.memory, 8192);
    assert_eq!(ch.disk, Some(60));
    assert_eq!(ch.summary, "cpus: 2 -> 4, memory: 4096MiB -> 8192MiB, disk: 50GiB -> 60GiB");
}

#[test]
fn only_memory_changes() {
    let ch = plan_resource_changes(2, 2048, 50, 2, 4096, 50).unwrap();
    assert_eq!(ch.disk, None);
    assert_eq!(ch.summary, "memory: 4096MiB -> 2048MiB");
}

#[test]
fn disk_never_shrinks_in_a_change() {
    let ch = plan_resource_changes(3, 4096, 10, 2, 4096, 50).unwrap();
    assert_eq!(ch.disk, None);
    assert_eq!(ch.summary, "cpus: 2 -> 3");
    let grow = plan_resource_changes(2, 4096, 51, 2, 4096, 50).unwrap();
    assert_eq!(grow.summary, "disk: 50GiB -> 51GiB");
}

#[test]
fn grown_disk_only_when_larger() {
    assert_eq!(grown_disk(60, 50), Some(60));
    assert_eq!(grown_disk(50, 50), None);
    assert_eq!(grown_disk(40, 50), None);
}

#[test]
fn error_messages() {
    assert_eq!(
        LimavelError::ConfigNotFound("dev.yaml".to_string()).message(),
        "dev.yaml not found in current directory. Run 'limavel init' first."
    );
    assert_eq!(
        LimavelError::ConfigAlreadyExists("dev.yaml".to_string()).message(),
        "dev.yaml already exists in current directory"
    );
    assert_eq!(LimavelError::LimaNotFound.message(), "lima-vm (limactl) not found. Install it with: brew install lima");
    assert_eq!(
        LimavelError::InstanceNotFound("dev".to_string()).message(),
        "VM instance 'dev' does not exist. Run 'limavel start' first."
    );
    assert_eq!(LimavelError::InstanceNotRunning("dev".to_string()).message(), "VM instance 'dev' is not running");
    assert_eq!(LimavelError::LimactlExec("boom".to_string()).message(), "Failed to execute limactl: boom");
    assert_eq!(LimavelError::SshKeyNotFound("~/k".to_string()).message(), "SSH key not found: ~/k");
    assert_eq!(
        LimavelError::FoldersNotFound("  - a (b)".to_string()).message(),
        "The following host directories do not exist:\n  - a (b)"
    );
    assert_eq!(LimavelError::InstanceUnknown("dev".to_string()).message(), "Could not find instance 'dev'");
    assert_eq!(LimavelError::CpusUnknown("dev".to_string()).message(), "Could not determine cpus for instance 'dev'");
    assert_eq!(LimavelError::MemoryUnknown("dev".to_string()).message(), "Could not determine memory for instance 'dev'");
    assert_eq!(
        LimavelError::DiskUnknown("dev".to_string()).message(),
        "Could not determine disk size for instance 'dev'"
    );
    assert_eq!(LimavelError::GuestIpUnknown.message(), "Could not determine guest IP from lima0 interface");
    assert_eq!(
        LimavelError::PlaybooksNotADirectory("/p".to_string()).message(),
        "Custom playbooks path '/p' does not exist or is not a directory."
    );
    assert_eq!(
        LimavelError::PlaybookMissing("/p".to_string()).message(),
        "Custom playbooks path '/p' does not contain a playbook.yml file."
    );
}
