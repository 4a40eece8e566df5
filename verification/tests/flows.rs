#![allow(deprecated)]
use limavel::ansible::{ansible_vars, PlaybookAction, PlaybookRun, CHECK_ANSIBLE, INSTALL_ANSIBLE, MAKE_ANSIBLE_DIR, RUN_PLAYBOOK};
use limavel::config::{DatabaseConfig, Features, LimavelConfig, SiteMap};
use limavel::error::LimavelError;
use limavel::flows::{
    Action, DestroyFlow, EditFlow, Outcome, ProvisionFlow, Reply, SshFlow, StartFlow, StartStep, StatusFlow,
    StopFlow,
};
use limavel::lima::LimaCommand;

const RUNNING: &str = "{\"name\":\"dev\",\"status\":\"Running\",\"cpus\":2,\"memory\":4294967296,\"disk\":53687091200}\n";
const STOPPED: &str = "{\"name\":\"dev\",\"status\":\"Stopped\",\"cpus\":2,\"memory\":4294967296,\"disk\":53687091200}\n";

fn config(cpus: u32, memory: u32, disk: u32, sites: usize) -> LimavelConfig {
    LimavelConfig {
        name: "dev".to_string(),
        memory,
        cpus,
        disk,
        image: "img".to_string(),
        arch: "aarch64".to_string(),
        authorize: "~/.ssh/id.pub".to_string(),
        keys: vec![],
        folders: vec![],
        sites: (0..sites)
            .map(|i| SiteMap { map: format!("s{}.test", i), to: "/var/www".to_string(), php: "8.3".to_string() })
            .collect(),
        databases: vec!["app".to_string(), "test".to_string()],
        database: DatabaseConfig { db_type: "mysql".to_string(), version: "8".to_string(), password: "pw".to_string() },
        features: Features { ohmyzsh: true, webdriver: false, mailpit: true, mongodb: false, valkey: true, extra: vec![] },
        ports: vec![],
        nodejs: "22".to_string(),
        bootstrap: None,
        playbooks: None,
    }
}

fn text(s: &str) -> Reply {
    Reply::Text(s.to_string())
}

fn is_query(a: &Action, c: fn(&LimaCommand) -> bool) -> bool {
    matches!(a, Action::Query(cmd) if c(cmd))
}

#[test]
fn start_resumes_a_stopped_vm_without_changes() {
    let c = config(2, 4096, 50, 1);
    let mut f = StartFlow::new(&c, false);
    assert!(is_query(&f.next(Reply::Done), |c| matches!(c, LimaCommand::ListQuiet)));
    assert!(is_query(&f.next(text("dev\n")), |c| matches!(c, LimaCommand::ListJson)));
    assert!(is_query(&f.next(text(STOPPED)), |c| matches!(c, LimaCommand::ListJson)));
    assert!(matches!(f.next(text(STOPPED)), Action::Run(LimaCommand::Start(n)) if n == "dev"));
    assert!(is_query(&f.next(Reply::Done), |c| matches!(c, LimaCommand::Shell { .. })));
    assert!(matches!(f.next(text("10.0.0.5\n")), Action::WriteHosts { ip } if ip == "10.0.0.5"));
    assert!(matches!(f.next(Reply::Done), Action::Finish(Outcome::Success)));
    assert_eq!(f.step, StartStep::Finished);
}

#[test]
fn start_resizes_when_resources_differ() {
    let c = config(4, 8192, 60, 0);
    let mut f = StartFlow::new(&c, false);
    f.next(Reply::Done);
    f.next(text("dev\n"));
    f.next(text(STOPPED));
    match f.next(text(STOPPED)) {
        Action::Resize { command: LimaCommand::Edit { name, cpus, memory_mib, disk_gib }, summary } => {
            assert_eq!(name, "dev");
            assert_eq!((cpus, memory_mib, disk_gib), (4, 8192, Some(60)));
            assert_eq!(summary, "cpus: 2 -> 4, memory: 4096MiB -> 8192MiB, disk: 50GiB -> 60GiB");
        }
        other => panic!("unexpected {:?}", other),
    }
    assert!(matches!(f.next(Reply::Done), Action::Run(LimaCommand::Start(_))));
    assert!(matches!(f.next(Reply::Done), Action::Finish(Outcome::Success)));
}

#[test]
fn start_does_nothing_when_running() {
    let c = config(2, 4096, 50, 1);
    let mut f = StartFlow::new(&c, false);
    f.next(Reply::Done);
    f.next(text("dev\n"));
    assert!(matches!(f.next(text(RUNNING)), Action::Finish(Outcome::AlreadyRunning)));
}

#[test]
fn start_creates_and_provisions_a_new_vm() {
    let c = config(2, 4096, 50, 2);
    let mut f = StartFlow::new(&c, true);
    f.next(Reply::Done);
    assert!(matches!(f.next(text("other\n")), Action::CreateInstance));
    assert!(matches!(f.next(Reply::Done), Action::Run(LimaCommand::Start(_))));
    assert!(matches!(f.next(Reply::Done), Action::Provision));
    assert!(matches!(f.next(Reply::Done), Action::Finish(Outcome::Created)));
}

#[test]
fn start_reports_failures() {
    let c = config(2, 4096, 50, 0);
    let mut f = StartFlow::new(&c, false);
    f.next(Reply::Done);
    assert!(matches!(f.next(Reply::Failed), Action::Finish(Outcome::ActionFailed)));
    let mut g = StartFlow::new(&c, false);
    g.next(Reply::Done);
    g.next(text("dev\n"));
    g.next(Reply::Failed);
    assert!(matches!(
        g.next(text("{\"name\":\"dev\"}\n")),
        Action::Finish(Outcome::Error(LimavelError::CpusUnknown(n))) if n == "dev"
    ));
}

#[test]
fn stop_removes_hosts_then_stops() {
    let mut f = StopFlow::new("dev", false);
    f.next(Reply::Done);
    f.next(text("dev\n"));
    assert!(matches!(f.next(text(RUNNING)), Action::RemoveHosts));
    assert!(matches!(f.next(Reply::Done), Action::Run(LimaCommand::Stop(n)) if n == "dev"));
    assert!(matches!(f.next(Reply::Done), Action::Finish(Outcome::Success)));
    let mut g = StopFlow::new("dev", true);
    g.next(Reply::Done);
    g.next(text("dev\n"));
    assert!(matches!(g.next(text(RUNNING)), Action::Run(LimaCommand::Stop(_))));
}

#[test]
fn stop_needs_a_running_vm() {
    let mut f = StopFlow::new("dev", false);
    f.next(Reply::Done);
    assert!(matches!(
        f.next(text("other\n")),
        Action::Finish(Outcome::Error(LimavelError::InstanceNotFound(n))) if n == "dev"
    ));
    let mut g = StopFlow::new("dev", false);
    g.next(Reply::Done);
    g.next(text("dev\n"));
    assert!(matches!(
        g.next(text(STOPPED)),
        Action::Finish(Outcome::Error(LimavelError::InstanceNotRunning(n))) if n == "dev"
    ));
}

#[test]
fn destroy_asks_first() {
    let mut f = DestroyFlow::new("dev");
    f.next(Reply::Done);
    assert!(matches!(f.next(text("dev\n")), Action::Confirm));
    assert!(matches!(f.next(text("n\n")), Action::Finish(Outcome::Aborted)));

    let mut g = DestroyFlow::new("dev");
    g.next(Reply::Done);
    g.next(text("dev\n"));
    assert!(matches!(g.next(text("Y\n")), Action::RemoveHosts));
    assert!(is_query(&g.next(Reply::Done), |c| matches!(c, LimaCommand::ListJson)));
    assert!(matches!(g.next(text(RUNNING)), Action::Run(LimaCommand::Stop(_))));
    assert!(matches!(g.next(Reply::Done), Action::Run(LimaCommand::Delete(n)) if n == "dev"));
    assert!(matches!(g.next(Reply::Done), Action::Finish(Outcome::Success)));
}

#[test]
fn destroy_without_instance_does_nothing() {
    let mut f = DestroyFlow::new("dev");
    f.next(Reply::Done);
    assert!(matches!(f.next(text("")), Action::Finish(Outcome::NoInstance)));
}

#[test]
fn edit_stops_a_running_vm_and_never_shrinks_the_disk() {
    let c = config(4, 2048, 10, 0);
    let mut f = EditFlow::new(&c);
    f.next(Reply::Done);
    f.next(text("dev\n"));
    assert!(matches!(f.next(text(RUNNING)), Action::Run(LimaCommand::Stop(_))));
    assert!(is_query(&f.next(Reply::Done), |c| matches!(c, LimaCommand::ListJson)));
    assert!(matches!(
        f.next(text(RUNNING)),
        Action::Run(LimaCommand::Edit { cpus: 4, memory_mib: 2048, disk_gib: None, .. })
    ));
    assert!(matches!(f.next(Reply::Done), Action::Run(LimaCommand::Start(_))));
    assert!(matches!(f.next(Reply::Done), Action::Finish(Outcome::Success)));
}

#[test]
fn edit_grows_the_disk_of_a_stopped_vm() {
    let c = config(2, 4096, 80, 0);
    let mut f = EditFlow::new(&c);
    f.next(Reply::Done);
    f.next(text("dev\n"));
    assert!(is_query(&f.next(text(STOPPED)), |c| matches!(c, LimaCommand::ListJson)));
    assert!(matches!(f.next(text(STOPPED)), Action::Run(LimaCommand::Edit { disk_gib: Some(80), .. })));
    assert!(matches!(f.next(Reply::Done), Action::Finish(Outcome::Success)));
}

#[test]
fn provision_updates_hosts_after_provisioning() {
    let c = config(2, 4096, 50, 1);
    let mut f = ProvisionFlow::new(&c);
    f.next(Reply::Done);
    f.next(text("dev\n"));
    assert!(matches!(f.next(text(RUNNING)), Action::Provision));
    assert!(is_query(&f.next(Reply::Done), |c| matches!(c, LimaCommand::Shell { .. })));
    assert!(matches!(f.next(text(" 10.1.1.1 \n")), Action::WriteHosts { ip } if ip == "10.1.1.1"));
    assert!(matches!(f.next(Reply::Done), Action::Finish(Outcome::Success)));
}

#[test]
fn provision_without_sites_skips_hosts_but_needs_an_ip() {
    let c = config(2, 4096, 50, 0);
    let mut f = ProvisionFlow::new(&c);
    f.next(Reply::Done);
    f.next(text("dev\n"));
    f.next(text(RUNNING));
    f.next(Reply::Done);
    assert!(matches!(f.next(text("")), Action::Finish(Outcome::Error(LimavelError::GuestIpUnknown))));
}

#[test]
fn ssh_logs_in_to_a_running_vm() {
    let mut f = SshFlow::new("dev");
    f.next(Reply::Done);
    f.next(text("dev\n"));
    assert!(matches!(f.next(text(RUNNING)), Action::Run(LimaCommand::Login(n)) if n == "dev"));
    assert!(matches!(f.next(Reply::Failed), Action::Finish(Outcome::ActionFailed)));
}

fn guest(a: &PlaybookAction, cmd: &str) -> bool {
    matches!(a, PlaybookAction::Guest(LimaCommand::Shell { name, command }) if name == "dev" && command == cmd)
}

#[test]
fn playbooks_from_the_embedded_set() {
    let mut run = PlaybookRun::new("dev", None);
    assert!(matches!(run.next(Reply::Done), PlaybookAction::WriteEmbeddedPlaybooks));
    assert!(matches!(run.next(Reply::Done), PlaybookAction::WriteVars));
    assert!(guest(&run.next(Reply::Done), CHECK_ANSIBLE));
    assert!(guest(&run.next(Reply::Failed), INSTALL_ANSIBLE));
    assert!(guest(&run.next(text("ok")), MAKE_ANSIBLE_DIR));
    assert!(matches!(
        run.next(text("")),
        PlaybookAction::SendPlaybooks(LimaCommand::ExtractTar { remote_dir, .. }) if remote_dir == "/opt/limavel/ansible"
    ));
    assert!(matches!(
        run.next(Reply::Done),
        PlaybookAction::RunPlaybook(LimaCommand::Shell { command, .. }) if command == RUN_PLAYBOOK
    ));
    assert!(matches!(run.next(Reply::Done), PlaybookAction::Finish(Outcome::Success)));
}

#[test]
fn custom_playbooks_are_checked() {
    let mut run = PlaybookRun::new("dev", Some("/srv/books".to_string()));
    assert!(matches!(run.next(Reply::Done), PlaybookAction::CheckDirectory(p) if p == "/srv/books"));
    assert!(matches!(run.next(Reply::Done), PlaybookAction::CheckPlaybook(p) if p == "/srv/books"));
    assert!(matches!(
        run.next(Reply::Failed),
        PlaybookAction::Finish(Outcome::Error(LimavelError::PlaybookMissing(p))) if p == "/srv/books"
    ));
    let mut other = PlaybookRun::new("dev", Some("/nope".to_string()));
    other.next(Reply::Done);
    assert!(matches!(
        other.next(Reply::Failed),
        PlaybookAction::Finish(Outcome::Error(LimavelError::PlaybooksNotADirectory(p))) if p == "/nope"
    ));
    let mut good = PlaybookRun::new("dev", Some("/srv/books".to_string()));
    good.next(Reply::Done);
    good.next(Reply::Done);
    assert!(matches!(good.next(Reply::Done), PlaybookAction::CopyPlaybooks(p) if p == "/srv/books"));
}

#[test]
fn ansible_vars_from_config() {
    let mut c = config(2, 4096, 50, 0);
    c.sites = vec![
        SiteMap { map: "a.test".to_string(), to: "/a".to_string(), php: "8.3".to_string() },
        SiteMap { map: "b.test".to_string(), to: "/b".to_string(), php: "8.1".to_string() },
        SiteMap { map: "c.test".to_string(), to: "/c".to_string(), php: "8.3".to_string() },
    ];
    c.features.extra = vec![
        ("docker".to_string(), serde_yml::Value::Bool(true)),
        ("php_memory".to_string(), serde_yml::Value::String("512M".to_string())),
    ];
    let v = ansible_vars(&c, "ssh-ed25519 K".to_string());
    assert_eq!(v.ssh_public_key, "ssh-ed25519 K");
    assert_eq!(v.sites.len(), 3);
    assert_eq!(v.sites[1].domain, "b.test");
    assert_eq!(v.sites[1].root, "/b");
    assert_eq!(v.sites[1].php_version, "8.1");
    assert_eq!(v.php_versions, vec!["8.1", "8.3"]);
    assert_eq!(v.db_type, "mysql");
    assert_eq!(v.db_version, "8");
    assert_eq!(v.db_password, "pw");
    assert_eq!(v.databases, vec!["app", "test"]);
    assert!(v.features.ohmyzsh && !v.features.webdriver && v.features.mailpit && !v.features.mongodb && v.features.valkey);
    assert_eq!(v.features.extra.len(), 2);
    assert_eq!(v.features.extra[0].0, "docker");
    assert!(v.features.extra[0].1 == serde_yml::Value::Bool(true));
    assert_eq!(v.features.extra[1].0, "php_memory");
    assert!(v.features.extra[1].1 == serde_yml::Value::String("512M".to_string()));
    assert_eq!(v.nodejs_version, "22");
}

#[test]
fn status_reports_a_running_vm_with_its_address() {
    let mut f = StatusFlow::new("dev");
    assert!(is_query(&f.next(Reply::Done), |c| matches!(c, LimaCommand::ListQuiet)));
    assert!(is_query(&f.next(text("dev\n")), |c| matches!(c, LimaCommand::ListJson)));
    assert!(is_query(&f.next(text(RUNNING)), |c| matches!(c, LimaCommand::Shell { .. })));
    match f.next(text("192.168.5.15\n")) {
        Action::Finish(Outcome::Report { status, ip }) => {
            assert_eq!(status, "Running");
            assert_eq!(ip.as_deref(), Some("192.168.5.15"));
        }
        other => panic!("unexpected {:?}", other),
    }
}

#[test]
fn status_reports_na_when_the_address_is_unknown() {
    let mut f = StatusFlow::new("dev");
    f.next(Reply::Done);
    f.next(text("dev\n"));
    f.next(text(RUNNING));
    assert!(matches!(
        f.next(Reply::Failed),
        Action::Finish(Outcome::Report { status, ip: Some(ip) }) if status == "Running" && ip == "N/A"
    ));
}

#[test]
fn status_of_a_stopped_or_missing_vm() {
    let mut f = StatusFlow::new("dev");
    f.next(Reply::Done);
    f.next(text("dev\n"));
    assert!(matches!(
        f.next(text(STOPPED)),
        Action::Finish(Outcome::Report { status, ip: None }) if status == "Stopped"
    ));
    let mut g = StatusFlow::new("dev");
    g.next(Reply::Done);
    g.next(text("dev\n"));
    assert!(matches!(
        g.next(Reply::Failed),
        Action::Finish(Outcome::Report { status, ip: None }) if status == "Unknown"
    ));
    let mut h = StatusFlow::new("dev");
    h.next(Reply::Done);
    assert!(matches!(h.next(text("other\n")), Action::Finish(Outcome::NoInstance)));
}

#[test]
fn start_with_no_hosts_never_writes_hosts() {
    let c = config(2, 4096, 50, 3);
    let mut f = StartFlow::new(&c, true);
    f.next(Reply::Done);
    f.next(text("dev\n"));
    f.next(text(STOPPED));
    assert!(matches!(f.next(text(STOPPED)), Action::Run(LimaCommand::Start(_))));
    assert!(matches!(f.next(Reply::Done), Action::Finish(Outcome::Success)));
}

#[test]
fn start_of_an_existing_vm_neither_creates_nor_provisions() {
    let c = config(2, 4096, 50, 0);
    let mut f = StartFlow::new(&c, false);
    let mut actions = vec![f.next(Reply::Done)];
    actions.push(f.next(text("dev\n")));
    actions.push(f.next(text(STOPPED)));
    actions.push(f.next(text(STOPPED)));
    actions.push(f.next(Reply::Done));
    assert!(actions.iter().all(|a| !matches!(a, Action::CreateInstance | Action::Provision)));
    assert!(matches!(actions.last(), Some(Action::Finish(Outcome::Success))));
}
