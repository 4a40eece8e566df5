use limavel::error::LimavelError;
use limavel::flows::{Action, Outcome, Reply};
use limavel::lima::{LimaClient, LimaCommand};

const LISTING: &str = "{\"name\":\"other\",\"status\":\"Stopped\",\"cpus\":1,\"memory\":1073741824,\"disk\":10737418240}\nnot json\n{\"name\":\"dev\",\"status\":\"Running\",\"cpus\":4,\"memory\":4294967296,\"disk\":107374182400}\n{\"name\":\"dev\",\"status\":\"Broken\"}\n{\"name\":\"bare\"}\n";

#[test]
fn list_invocations() {
    assert_eq!(LimaCommand::ListQuiet.args(), vec!["list", "--quiet"]);
    assert_eq!(LimaCommand::ListJson.args(), vec!["list", "--json"]);
}

#[test]
fn create_invocation() {
    let c = LimaCommand::Create { name: "dev".to_string(), template_path: "/tmp/t.yaml".to_string() };
    assert_eq!(c.args(), vec!["create", "--name", "dev", "--tty=false", "/tmp/t.yaml"]);
}

#[test]
fn start_stop_delete_invocations() {
    assert_eq!(LimaCommand::Start("dev".to_string()).args(), vec!["start", "dev"]);
    assert_eq!(LimaCommand::Stop("dev".to_string()).args(), vec!["stop", "dev"]);
    assert_eq!(LimaCommand::Delete("dev".to_string()).args(), vec!["delete", "dev"]);
}

#[test]
fn edit_invocation_with_and_without_disk() {
    let with_disk = LimaCommand::Edit { name: "dev".to_string(), cpus: 4, memory_mib: 8192, disk_gib: Some(120) };
    assert_eq!(
        with_disk.args(),
        vec!["edit", "dev", "--cpus=4", "--memory=8192MiB", "--disk=120GiB", "--tty=false"]
    );
    let without = LimaCommand::Edit { name: "dev".to_string(), cpus: 0, memory_mib: 4294967295, disk_gib: None };
    assert_eq!(without.args(), vec!["edit", "dev", "--cpus=0", "--memory=4294967295MiB", "--tty=false"]);
}

#[test]
fn shell_invocations() {
    let c = LimaCommand::Shell { name: "dev".to_string(), command: "uname -a".to_string() };
    assert_eq!(c.args(), vec!["shell", "--workdir", "/", "dev", "--", "bash", "-c", "uname -a"]);
    let t = LimaCommand::ExtractTar { name: "dev".to_string(), remote_dir: "/opt/x".to_string() };
    assert_eq!(
        t.args(),
        vec!["shell", "--workdir", "/", "dev", "--", "sudo", "tar", "-xf", "-", "-C", "/opt/x"]
    );
    assert_eq!(
        LimaCommand::Login("dev".to_string()).args(),
        vec!["shell", "--workdir", "/tmp", "dev", "--", "sudo", "-iu", "limavel"]
    );
}

#[test]
fn guest_ip_query_is_a_shell_command() {
    match LimaClient::guest_ip_query("dev") {
        LimaCommand::Shell { name, command } => {
            assert_eq!(name, "dev");
            assert_eq!(command, "ip -4 addr show lima0 | grep -oP 'inet \\K[0-9.]+'");
        }
        other => panic!("unexpected {:?}", other),
    }
}

#[test]
fn instance_exists_matches_trimmed_lines() {
    assert!(LimaClient::instance_exists("other\n  dev \n", "dev"));
    assert!(!LimaClient::instance_exists("other\ndevel\n", "dev"));
    assert!(!LimaClient::instance_exists("", "dev"));
}

#[test]
fn first_with_name_finds_the_first() {
    let names = vec![None, Some("a".to_string()), Some("b".to_string()), Some("a".to_string())];
    assert_eq!(LimaClient::first_with_name(&names, "a"), Some(1));
    assert_eq!(LimaClient::first_with_name(&names, "c"), None);
}

#[test]
fn find_instance_line_takes_the_first_record() {
    let line = LimaClient::find_instance_line(LISTING, "dev").unwrap();
    assert!(line.contains("\"status\":\"Running\""));
    assert_eq!(LimaClient::find_instance_line(LISTING, "missing"), None);
}

#[test]
fn status_of_instances() {
    assert_eq!(LimaClient::instance_status(LISTING, "dev"), "Running");
    assert_eq!(LimaClient::instance_status(LISTING, "other"), "Stopped");
    assert_eq!(LimaClient::instance_status(LISTING, "bare"), "Unknown");
    assert_eq!(LimaClient::instance_status(LISTING, "missing"), "Unknown");
    assert_eq!(LimaClient::status_or_unknown(None), "Unknown");
    assert_eq!(LimaClient::status_or_unknown(Some("Stopped".to_string())), "Stopped");
}

#[test]
fn resources_of_instances() {
    assert_eq!(LimaClient::instance_cpus(LISTING, "dev"), Ok(4));
    assert_eq!(LimaClient::instance_memory_mib(LISTING, "dev"), Ok(4096));
    assert_eq!(LimaClient::instance_disk_gib(LISTING, "dev"), Ok(100));
    assert_eq!(LimaClient::instance_memory_mib(LISTING, "other"), Ok(1024));
    assert_eq!(LimaClient::instance_disk_gib(LISTING, "other"), Ok(10));
}

#[test]
fn missing_resources_are_errors() {
    assert_eq!(LimaClient::instance_cpus(LISTING, "bare"), Err(LimavelError::CpusUnknown("bare".to_string())));
    assert_eq!(
        LimaClient::instance_memory_mib(LISTING, "bare"),
        Err(LimavelError::MemoryUnknown("bare".to_string()))
    );
    assert_eq!(LimaClient::instance_disk_gib(LISTING, "bare"), Err(LimavelError::DiskUnknown("bare".to_string())));
    assert_eq!(
        LimaClient::instance_cpus(LISTING, "missing"),
        Err(LimavelError::InstanceUnknown("missing".to_string()))
    );
}

#[test]
fn quantities_divide_and_truncate() {
    assert_eq!(LimaClient::quantity_from_field(Some(5 * 1048576 + 7), 1048576, LimavelError::GuestIpUnknown), Ok(5));
    assert_eq!(LimaClient::quantity_from_field(Some(4294967296 + 3), 1, LimavelError::GuestIpUnknown), Ok(3));
    assert_eq!(LimaClient::quantity_from_field(None, 1, LimavelError::GuestIpUnknown), Err(LimavelError::GuestIpUnknown));
}

#[test]
fn guest_ip_is_trimmed_output() {
    assert_eq!(LimaClient::guest_ip("192.168.105.3\n"), Ok("192.168.105.3".to_string()));
    assert_eq!(LimaClient::guest_ip(" \n"), Err(LimavelError::GuestIpUnknown));
}

#[test]
fn ensure_running_cases() {
    assert_eq!(LimaClient::ensure_running("dev", true, "Running"), Ok(()));
    assert_eq!(
        LimaClient::ensure_running("dev", true, "Stopped"),
        Err(LimavelError::InstanceNotRunning("dev".to_string()))
    );
    assert_eq!(
        LimaClient::ensure_running("dev", false, "Running"),
        Err(LimavelError::InstanceNotFound("dev".to_string()))
    );
}

#[test]
fn restart_stops_then_starts() {
    let mut f = LimaClient::restart("dev");
    assert!(matches!(f.next(Reply::Done), Action::Run(LimaCommand::Stop(n)) if n == "dev"));
    assert!(matches!(f.next(Reply::Done), Action::Run(LimaCommand::Start(n)) if n == "dev"));
    assert!(matches!(f.next(Reply::Done), Action::Finish(Outcome::Success)));
}

#[test]
fn restart_does_not_start_after_a_failed_stop() {
    let mut f = LimaClient::restart("dev");
    f.next(Reply::Done);
    assert!(matches!(f.next(Reply::Failed), Action::Finish(Outcome::ActionFailed)));
    let mut g = LimaClient::restart("dev");
    g.next(Reply::Done);
    g.next(Reply::Done);
    assert!(matches!(g.next(Reply::Failed), Action::Finish(Outcome::ActionFailed)));
}

#[test]
fn failure_messages_name_the_operation() {
    let create = LimaCommand::Create { name: "dev".to_string(), template_path: "/t.yaml".to_string() };
    assert_eq!(create.failure_message(), "Failed to create instance");
    assert_eq!(LimaCommand::Start("dev".to_string()).failure_message(), "Failed to start instance");
    assert_eq!(LimaCommand::Stop("dev".to_string()).failure_message(), "Failed to stop instance");
    let edit = LimaCommand::Edit { name: "dev".to_string(), cpus: 2, memory_mib: 1024, disk_gib: None };
    assert_eq!(edit.failure_message(), "Failed to edit instance");
    assert_eq!(LimaCommand::Delete("dev".to_string()).failure_message(), "Failed to delete instance");
    let tar = LimaCommand::ExtractTar { name: "dev".to_string(), remote_dir: "/opt".to_string() };
    assert_eq!(tar.failure_message(), "Failed to copy files to guest via tar");
    assert_eq!(LimaCommand::Login("dev".to_string()).failure_message(), "SSH session exited with error");
    let shell = LimaCommand::Shell { name: "dev".to_string(), command: "true".to_string() };
    assert_eq!(shell.failure_message(), "Interactive command failed");
}
