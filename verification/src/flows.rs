//! The commands that talk to the VM, as state machines: each `next` call
//! takes what the program reports of the last action and says which action
//! to perform now, until one ends the command. The program performs the
//! actions (running `limactl`, touching files, asking the user) and prints
//! the progress.
use vstd::prelude::*;
use crate::commands::{change_parts, confirmed, grown_disk, join_with, plan_resource_changes};
use crate::config::LimavelConfig;
use crate::error::LimavelError;
use crate::lima::{instance_record, instance_status_in, json_u64_at, LimaClient, LimaCommand, GIB, MIB};
use crate::text::{lines, owned, trim};

verus! {

/// What the program reports after performing an action.
#[derive(Debug)]
pub enum Reply {
    /// The action succeeded.
    Done,
    /// The action succeeded with this text: the standard output of a
    /// `limactl` query, or the line the user typed.
    Text(String),
    /// The action failed; the program keeps its error.
    Failed,
}

/// How a command ends.
#[derive(Debug)]
pub enum Outcome {
    /// The command did its work.
    Success,
    /// The command created the VM.
    Created,
    /// The VM was already running; nothing was done.
    AlreadyRunning,
    /// There is no VM instance to act on; nothing was done.
    NoInstance,
    /// The user declined; nothing was done.
    Aborted,
    /// The last action failed; its error is the command's error.
    ActionFailed,
    /// The command failed with this error.
    Error(LimavelError),
    /// The instance's status, and, when it runs, its address (`N/A` when
    /// the guest did not give one).
    Report { status: String, ip: Option<String> },
}

/// An action for the program to perform.
#[derive(Debug)]
pub enum Action {
    /// Run `limactl` and reply with its standard output.
    Query(LimaCommand),
    /// Run `limactl` with its output shown, and reply `Done`.
    Run(LimaCommand),
    /// Run the `limactl edit` in `command`, after telling the user what
    /// changes (`summary`).
    Resize { command: LimaCommand, summary: String },
    /// Create the instance from the template that the configuration gives.
    CreateInstance,
    /// Provision the guest with Ansible.
    Provision,
    /// Map the site domains to `ip` in `/etc/hosts`.
    WriteHosts { ip: String },
    /// Take the instance's entries out of `/etc/hosts`.
    RemoveHosts,
    /// Ask the user to confirm, and reply with the line typed.
    Confirm,
    /// End the command.
    Finish(Outcome),
}

/// The CPU count, memory (MiB) and disk size (GiB) of instance `name` in a
/// `limactl list --json` answer, when its record gives all three.
pub open spec fn current_resources(j: Seq<char>, name: Seq<char>) -> Option<(u32, u32, u32)> {
    match instance_record(j, name) {
        None => None,
        Some(l) => match (json_u64_at(l, "cpus"@), json_u64_at(l, "memory"@), json_u64_at(l, "disk"@)) {
            (Some(c), Some(m), Some(d)) => Some((c as u32, (m / MIB) as u32, (d / GIB) as u32)),
            _ => None,
        },
    }
}

/// `e` is the error for the first resource of instance `name` that a
/// `limactl list --json` answer does not give.
pub open spec fn resource_error(e: LimavelError, j: Seq<char>, name: Seq<char>) -> bool {
    match instance_record(j, name) {
        None => e matches LimavelError::InstanceUnknown(n) && n@ == name,
        Some(l) => if json_u64_at(l, "cpus"@) is None {
            e matches LimavelError::CpusUnknown(n) && n@ == name
        } else if json_u64_at(l, "memory"@) is None {
            e matches LimavelError::MemoryUnknown(n) && n@ == name
        } else {
            e matches LimavelError::DiskUnknown(n) && n@ == name
        },
    }
}

/// The resize action that brings resources `(c, m, d)` to the configured
/// `cpus`, `memory` and `disk`: the configured CPU count and memory, the
/// disk only when it grows.
pub open spec fn resize_action(
    a: Action,
    name: Seq<char>,
    cpus: u32,
    memory: u32,
    disk: u32,
    c: u32,
    m: u32,
    d: u32,
) -> bool {
    a matches Action::Resize { command: LimaCommand::Edit { name: n, cpus: ec, memory_mib: em, disk_gib: ed }, summary }
        && n@ == name && ec == cpus && em == memory && ed == (if disk > d {
        Some(disk)
    } else {
        None::<u32>
    }) && summary@ == join_with(change_parts(cpus, memory, disk, c, m, d), ", "@)
}

/// Whether a `limactl list --quiet` answer names instance `name`.
pub open spec fn listed(listing: Seq<char>, name: Seq<char>) -> bool {
    exists|i: int| 0 <= i < lines(listing).len() && trim(#[trigger] lines(listing)[i]) == name
}

/// The status of instance `name` as a status query replied it: `Unknown`
/// when the query failed.
pub open spec fn replied_status(reply: Reply, name: Seq<char>) -> Seq<char> {
    match reply {
        Reply::Text(j) => instance_status_in(j@, name),
        _ => "Unknown"@,
    }
}

fn status_of(reply: &Reply, name: &str) -> (s: String)
    ensures
        s@ == replied_status(*reply, name@),
{
    match reply {
        Reply::Text(j) => LimaClient::instance_status(j.as_str(), name),
        _ => {
            let mut s = String::new();
            s.append("Unknown");
            assert(s@ =~= "Unknown"@);
            s
        },
    }
}

fn is_running(status: &String) -> (r: bool)
    ensures
        r == (status@ == "Running"@),
{
    crate::text::str_eq(status.as_str(), "Running")
}

// ---------------------------------------------------------------------
// start
// ---------------------------------------------------------------------

/// Where `limavel start` is.
#[derive(Debug, PartialEq, Eq, Clone, Copy)]
pub enum StartStep {
    Begin,
    /// Waiting for the list of instances.
    Listed,
    /// Waiting for the instance's status.
    Status,
    /// Waiting for the instance's resources.
    Resources,
    /// Waiting for the resize.
    Resized,
    /// Waiting for the creation.
    Created,
    /// Waiting for the start; `created` tells whether this run created the VM.
    Started { created: bool },
    /// Waiting for the first provisioning.
    Provisioned,
    /// Waiting for the guest's IP address.
    GuestIp { created: bool },
    /// Waiting for `/etc/hosts` to be written.
    Hosts { created: bool },
    Finished,
}

/// `limavel start`: starts the VM, creating and provisioning it when it does
/// not exist, bringing its resources to the configured ones when it does,
/// and mapping the site domains to it in `/etc/hosts` unless asked not to.
#[derive(Debug)]
pub struct StartFlow {
    pub instance: String,
    pub cpus: u32,
    pub memory: u32,
    pub disk: u32,
    /// Whether to write `/etc/hosts`: the configuration has sites and the
    /// command line did not say `--no-hosts`.
    pub update_hosts: bool,
    pub step: StartStep,
}

/// The action that follows a successful start: the guest's IP address is
/// asked for when `/etc/hosts` is to be written; otherwise the command ends.
pub open spec fn after_start(f: StartFlow, created: bool, g: StartFlow, a: Action) -> bool {
    if f.update_hosts {
        &&& g.step == StartStep::GuestIp { created }
        &&& a matches Action::Query(LimaCommand::Shell { name, command }) && name@
            == f.instance@ && command@ == "ip -4 addr show lima0 | grep -oP 'inet \\K[0-9.]+'"@
    } else {
        &&& g.step == StartStep::Finished
        &&& a == Action::Finish(
            if created {
                Outcome::Created
            } else {
                Outcome::Success
            },
        )
    }
}

/// One step of `limavel start`: from `f`, on `reply` to the last action,
/// the flow moves to `g` and asks for `a`.
pub open spec fn start_step(f: StartFlow, reply: Reply, g: StartFlow, a: Action) -> bool {
    &&& g.instance == f.instance
    &&& g.cpus == f.cpus
    &&& g.memory == f.memory
    &&& g.disk == f.disk
    &&& g.update_hosts == f.update_hosts
    &&& f.step == StartStep::Begin ==> g.step == StartStep::Listed && a
        == Action::Query(LimaCommand::ListQuiet)
    &&& f.step == StartStep::Listed ==> match reply {
        Reply::Text(l) => if listed(l@, f.instance@) {
            g.step == StartStep::Status && a == Action::Query(LimaCommand::ListJson)
        } else {
            g.step == StartStep::Created && a == Action::CreateInstance
        },
        _ => g.step == StartStep::Finished && a == Action::Finish(
            Outcome::ActionFailed,
        ),
    }
    &&& f.step == StartStep::Status ==> if replied_status(reply, f.instance@)
        == "Running"@ {
        g.step == StartStep::Finished && a == Action::Finish(
            Outcome::AlreadyRunning,
        )
    } else {
        g.step == StartStep::Resources && a == Action::Query(LimaCommand::ListJson)
    }
    &&& f.step == StartStep::Resources ==> match reply {
        Reply::Text(j) => match current_resources(j@, f.instance@) {
            None => g.step == StartStep::Finished && (a matches Action::Finish(
                Outcome::Error(e),
            ) && resource_error(e, j@, f.instance@)),
            Some((c, m, d)) => if f.cpus == c && f.memory == m
                && f.disk <= d {
                g.step == StartStep::Started { created: false } && a
                    == Action::Run(LimaCommand::Start(f.instance))
            } else {
                g.step == StartStep::Resized && resize_action(
                    a,
                    f.instance@,
                    f.cpus,
                    f.memory,
                    f.disk,
                    c,
                    m,
                    d,
                )
            },
        },
        _ => g.step == StartStep::Finished && a == Action::Finish(
            Outcome::ActionFailed,
        ),
    }
    &&& f.step == StartStep::Resized ==> if reply is Done {
        g.step == StartStep::Started { created: false } && a == Action::Run(
            LimaCommand::Start(f.instance),
        )
    } else {
        g.step == StartStep::Finished && a == Action::Finish(Outcome::ActionFailed)
    }
    &&& f.step == StartStep::Created ==> if reply is Done {
        g.step == StartStep::Started { created: true } && a == Action::Run(
            LimaCommand::Start(f.instance),
        )
    } else {
        g.step == StartStep::Finished && a == Action::Finish(Outcome::ActionFailed)
    }
    &&& f.step matches StartStep::Started { created } ==> if reply is Done {
        if created {
            g.step == StartStep::Provisioned && a == Action::Provision
        } else {
            after_start(f, false, g, a)
        }
    } else {
        g.step == StartStep::Finished && a == Action::Finish(Outcome::ActionFailed)
    }
    &&& f.step == StartStep::Provisioned ==> if reply is Done {
        after_start(f, true, g, a)
    } else {
        g.step == StartStep::Finished && a == Action::Finish(Outcome::ActionFailed)
    }
    &&& f.step matches StartStep::GuestIp { created } ==> match reply {
        Reply::Text(o) => if trim(o@).len() == 0 {
            g.step == StartStep::Finished && a == Action::Finish(
                Outcome::Error(LimavelError::GuestIpUnknown),
            )
        } else {
            g.step == StartStep::Hosts { created } && (a matches Action::WriteHosts {
                ip,
            } && ip@ == trim(o@))
        },
        _ => g.step == StartStep::Finished && a == Action::Finish(
            Outcome::ActionFailed,
        ),
    }
    &&& f.step matches StartStep::Hosts { created } ==> g.step
        == StartStep::Finished && a == Action::Finish(
        if !(reply is Done) {
            Outcome::ActionFailed
        } else if created {
            Outcome::Created
        } else {
            Outcome::Success
        },
    )
    &&& f.step == StartStep::Finished ==> g.step == StartStep::Finished && a
        == Action::Finish(Outcome::Success)
}

impl StartFlow {
    /// The start of `limavel start` for `config`.
    pub fn new(config: &LimavelConfig, no_hosts: bool) -> (f: StartFlow)
        ensures
            f.instance@ == config.name@,
            f.cpus == config.cpus,
            f.memory == config.memory,
            f.disk == config.disk,
            f.update_hosts == (!no_hosts && config.sites@.len() > 0),
            f.step == StartStep::Begin,
    {
        StartFlow {
            instance: config.name.clone(),
            cpus: config.cpus,
            memory: config.memory,
            disk: config.disk,
            update_hosts: !no_hosts && config.sites.len() > 0,
            step: StartStep::Begin,
        }
    }

    /// The action that follows `reply` to the last one.
    pub fn next(&mut self, reply: Reply) -> (a: Action)
        ensures
            start_step(*old(self), reply, *final(self), a),
    {
        match self.step {
            StartStep::Begin => {
                self.step = StartStep::Listed;
                Action::Query(LimaCommand::ListQuiet)
            },
            StartStep::Listed => match reply {
                Reply::Text(l) => {
                    if LimaClient::instance_exists(l.as_str(), self.instance.as_str()) {
                        self.step = StartStep::Status;
                        Action::Query(LimaCommand::ListJson)
                    } else {
                        self.step = StartStep::Created;
                        Action::CreateInstance
                    }
                },
                _ => self.finish(Outcome::ActionFailed),
            },
            StartStep::Status => {
                let status = status_of(&reply, self.instance.as_str());
                if is_running(&status) {
                    self.finish(Outcome::AlreadyRunning)
                } else {
                    self.step = StartStep::Resources;
                    Action::Query(LimaCommand::ListJson)
                }
            },
            StartStep::Resources => match reply {
                Reply::Text(j) => self.resources(j.as_str()),
                _ => self.finish(Outcome::ActionFailed),
            },
            StartStep::Resized => match reply {
                Reply::Done => {
                    self.step = StartStep::Started { created: false };
                    Action::Run(LimaCommand::Start(self.instance.clone()))
                },
                _ => self.finish(Outcome::ActionFailed),
            },
            StartStep::Created => match reply {
                Reply::Done => {
                    self.step = StartStep::Started { created: true };
                    Action::Run(LimaCommand::Start(self.instance.clone()))
                },
                _ => self.finish(Outcome::ActionFailed),
            },
            StartStep::Started { created } => match reply {
                Reply::Done => {
                    if created {
                        self.step = StartStep::Provisioned;
                        Action::Provision
                    } else {
                        self.started(false)
                    }
                },
                _ => self.finish(Outcome::ActionFailed),
            },
            StartStep::Provisioned => match reply {
                Reply::Done => self.started(true),
                _ => self.finish(Outcome::ActionFailed),
            },
            StartStep::GuestIp { created } => match reply {
                Reply::Text(o) => match LimaClient::guest_ip(o.as_str()) {
                    Ok(ip) => {
                        self.step = StartStep::Hosts { created };
                        Action::WriteHosts { ip }
                    },
                    Err(e) => self.finish(Outcome::Error(e)),
                },
                _ => self.finish(Outcome::ActionFailed),
            },
            StartStep::Hosts { created } => match reply {
                Reply::Done => self.finish(
                    if created {
                        Outcome::Created
                    } else {
                        Outcome::Success
                    },
                ),
                _ => self.finish(Outcome::ActionFailed),
            },
            StartStep::Finished => self.finish(Outcome::Success),
        }
    }

    fn resources(&mut self, j: &str) -> (a: Action)
        requires
            old(self).step == StartStep::Resources,
        ensures
            final(self).instance == old(self).instance,
            final(self).cpus == old(self).cpus,
            final(self).memory == old(self).memory,
            final(self).disk == old(self).disk,
            final(self).update_hosts == old(self).update_hosts,
            match current_resources(j@, old(self).instance@) {
                None => final(self).step == StartStep::Finished && (a matches Action::Finish(
                    Outcome::Error(e),
                ) && resource_error(e, j@, old(self).instance@)),
                Some((c, m, d)) => if old(self).cpus == c && old(self).memory == m && old(
                    self,
                ).disk <= d {
                    final(self).step == StartStep::Started { created: false } && a == Action::Run(
                        LimaCommand::Start(old(self).instance),
                    )
                } else {
                    final(self).step == StartStep::Resized && resize_action(
                        a,
                        old(self).instance@,
                        old(self).cpus,
                        old(self).memory,
                        old(self).disk,
                        c,
                        m,
                        d,
                    )
                },
            },
    {
        let name = self.instance.as_str();
        let c = match LimaClient::instance_cpus(j, name) {
            Ok(c) => c,
            Err(e) => return self.finish(Outcome::Error(e)),
        };
        let m = match LimaClient::instance_memory_mib(j, name) {
            Ok(m) => m,
            Err(e) => return self.finish(Outcome::Error(e)),
        };
        let d = match LimaClient::instance_disk_gib(j, name) {
            Ok(d) => d,
            Err(e) => return self.finish(Outcome::Error(e)),
        };
        match plan_resource_changes(self.cpus, self.memory, self.disk, c, m, d) {
            None => {
                self.step = StartStep::Started { created: false };
                Action::Run(LimaCommand::Start(self.instance.clone()))
            },
            Some(ch) => {
                self.step = StartStep::Resized;
                Action::Resize {
                    command: LimaCommand::Edit {
                        name: self.instance.clone(),
                        cpus: ch.cpus,
                        memory_mib: ch.memory,
                        disk_gib: ch.disk,
                    },
                    summary: ch.summary,
                }
            },
        }
    }

    fn finish(&mut self, outcome: Outcome) -> (a: Action)
        ensures
            final(self).step == StartStep::Finished,
            final(self).cpus == old(self).cpus,
            final(self).memory == old(self).memory,
            final(self).disk == old(self).disk,
            final(self).instance == old(self).instance,
            final(self).update_hosts == old(self).update_hosts,
            a == Action::Finish(outcome),
    {
        self.step = StartStep::Finished;
        Action::Finish(outcome)
    }

    fn started(&mut self, created: bool) -> (a: Action)
        ensures
            final(self).instance == old(self).instance,
            final(self).cpus == old(self).cpus,
            final(self).memory == old(self).memory,
            final(self).disk == old(self).disk,
            final(self).update_hosts == old(self).update_hosts,
            after_start(*old(self), created, *final(self), a),
    {
        if self.update_hosts {
            self.step = StartStep::GuestIp { created };
            Action::Query(LimaClient::guest_ip_query(self.instance.as_str()))
        } else {
            self.step = StartStep::Finished;
            Action::Finish(
                if created {
                    Outcome::Created
                } else {
                    Outcome::Success
                },
            )
        }
    }
}

/// A run of `limavel start`: on reply `rs[i]`, the flow goes from
/// `states[i]` to `states[i + 1]` and asks for `acts[i]`.
pub open spec fn start_run(states: Seq<StartFlow>, rs: Seq<Reply>, acts: Seq<Action>) -> bool {
    &&& states.len() == rs.len() + 1
    &&& acts.len() == rs.len()
    &&& forall|i: int| 0 <= i < rs.len() ==> start_step(states[i], rs[i], states[i + 1], #[trigger] acts[i])
}

/// The step comes after this run created the VM.
pub open spec fn after_creation(step: StartStep) -> bool {
    step == StartStep::Created || step == StartStep::Started { created: true } || step
        == StartStep::Provisioned
}

/// Before action `k`, the run created the VM after a listing that did not
/// name it.
pub open spec fn created_before(states: Seq<StartFlow>, rs: Seq<Reply>, acts: Seq<Action>, k: int) -> bool {
    exists|j: int|
        0 <= j < k && #[trigger] acts[j] == Action::CreateInstance && (rs[j] matches Reply::Text(l)
            && !listed(l@, states[0].instance@))
}

proof fn lemma_start_created(states: Seq<StartFlow>, rs: Seq<Reply>, acts: Seq<Action>, k: int)
    requires
        start_run(states, rs, acts),
        states[0].step == StartStep::Begin,
        0 <= k <= rs.len(),
    ensures
        states[k].instance == states[0].instance,
        after_creation(states[k].step) ==> created_before(states, rs, acts, k),
    decreases k,
{
    if k > 0 {
        lemma_start_created(states, rs, acts, k - 1);
        let f = states[k - 1];
        let g = states[k];
        assert(start_step(f, rs[k - 1], g, acts[k - 1]));
        if after_creation(g.step) {
            if g.step == StartStep::Created {
                assert(f.step == StartStep::Listed);
                assert(acts[k - 1] == Action::CreateInstance);
            } else {
                assert(after_creation(f.step));
                let j = choose|j: int|
                    0 <= j < k - 1 && #[trigger] acts[j] == Action::CreateInstance && (rs[j] matches Reply::Text(l)
                        && !listed(l@, states[0].instance@));
                assert(acts[j] == Action::CreateInstance);
            }
        }
    }
}

/// `limavel start` provisions only a VM that it has just created: in every
/// run from the beginning, a provisioning comes after a creation that
/// followed a listing of the instances that did not name the VM. A VM that
/// already exists is started, never created or provisioned again.
pub proof fn law_start_provisions_only_a_new_vm(
    states: Seq<StartFlow>,
    rs: Seq<Reply>,
    acts: Seq<Action>,
    i: int,
)
    requires
        start_run(states, rs, acts),
        states[0].step == StartStep::Begin,
        0 <= i < acts.len(),
        acts[i] == Action::Provision || acts[i] == Action::CreateInstance,
    ensures
        acts[i] == Action::CreateInstance ==> (rs[i] matches Reply::Text(l) && !listed(
            l@,
            states[0].instance@,
        )),
        acts[i] == Action::Provision ==> created_before(states, rs, acts, i),
{
    lemma_start_created(states, rs, acts, i);
    assert(start_step(states[i], rs[i], states[i + 1], acts[i]));
}

/// The step writes or is about to write `/etc/hosts`.
pub open spec fn touches_hosts(step: StartStep) -> bool {
    step matches StartStep::GuestIp { .. } || step matches StartStep::Hosts { .. }
}

proof fn lemma_start_hosts(states: Seq<StartFlow>, rs: Seq<Reply>, acts: Seq<Action>, k: int)
    requires
        start_run(states, rs, acts),
        states[0].step == StartStep::Begin,
        0 <= k <= rs.len(),
    ensures
        states[k].update_hosts == states[0].update_hosts,
        !states[0].update_hosts ==> !touches_hosts(states[k].step),
    decreases k,
{
    if k > 0 {
        lemma_start_hosts(states, rs, acts, k - 1);
        assert(start_step(states[k - 1], rs[k - 1], states[k], acts[k - 1]));
    }
}

/// `limavel start` leaves `/etc/hosts` alone when asked not to update it
/// (`--no-hosts`) or when the configuration has no sites: no run from the
/// beginning of such a flow asks to write it.
pub proof fn law_start_no_hosts(states: Seq<StartFlow>, rs: Seq<Reply>, acts: Seq<Action>, i: int)
    requires
        start_run(states, rs, acts),
        states[0].step == StartStep::Begin,
        !states[0].update_hosts,
        0 <= i < acts.len(),
    ensures
        !(acts[i] is WriteHosts),
{
    lemma_start_hosts(states, rs, acts, i);
    assert(start_step(states[i], rs[i], states[i + 1], acts[i]));
}

/// After `limavel start` provisions the VM it has just created, it maps the
/// site domains to it as it does for an existing VM: when `/etc/hosts` is to
/// be updated, a successful provisioning is followed by the query of the
/// guest's address on `lima0`, a nonempty answer by writing that address
/// (trimmed) to `/etc/hosts`, and a successful write by the end of the
/// command as a creation. This holds in every run from the beginning.
pub proof fn law_start_maps_hosts_of_a_new_vm(
    states: Seq<StartFlow>,
    rs: Seq<Reply>,
    acts: Seq<Action>,
    i: int,
)
    requires
        start_run(states, rs, acts),
        states[0].step == StartStep::Begin,
        states[0].update_hosts,
        0 <= i,
        i + 1 < acts.len(),
        acts[i] == Action::Provision,
        rs[i + 1] is Done,
    ensures
        acts[i + 1] matches Action::Query(LimaCommand::Shell { name, command }) && name@
            == states[0].instance@ && command@
            == "ip -4 addr show lima0 | grep -oP 'inet \\K[0-9.]+'"@,
        i + 2 < acts.len() ==> match rs[i + 2] {
            Reply::Text(o) => if trim(o@).len() > 0 {
                acts[i + 2] matches Action::WriteHosts { ip } && ip@ == trim(o@)
            } else {
                acts[i + 2] == Action::Finish(Outcome::Error(LimavelError::GuestIpUnknown))
            },
            _ => acts[i + 2] == Action::Finish(Outcome::ActionFailed),
        },
        i + 3 < acts.len() && (rs[i + 2] matches Reply::Text(o) && trim(o@).len() > 0)
            && rs[i + 3] is Done ==> acts[i + 3] == Action::Finish(Outcome::Created),
{
    lemma_start_created(states, rs, acts, i + 1);
    lemma_start_hosts(states, rs, acts, i + 1);
    assert(start_step(states[i], rs[i], states[i + 1], acts[i]));
    assert(states[i + 1].step == StartStep::Provisioned);
    assert(start_step(states[i + 1], rs[i + 1], states[i + 2], acts[i + 1]));
    assert(states[i + 2].step == StartStep::GuestIp { created: true });
    if i + 2 < acts.len() {
        assert(start_step(states[i + 2], rs[i + 2], states[i + 3], acts[i + 2]));
        if i + 3 < acts.len() {
            assert(start_step(states[i + 3], rs[i + 3], states[i + 4], acts[i + 3]));
        }
    }
}

/// `limavel start` for a VM that exists maps the site domains to it once it
/// is started: when `/etc/hosts` is to be updated, a successful start that
/// is not followed by a provisioning is followed by the query of the
/// guest's address on `lima0`. Without an update of `/etc/hosts`, it ends
/// the command.
pub proof fn law_start_queries_the_address_after_starting(
    states: Seq<StartFlow>,
    rs: Seq<Reply>,
    acts: Seq<Action>,
    i: int,
)
    requires
        start_run(states, rs, acts),
        states[0].step == StartStep::Begin,
        0 <= i,
        i + 1 < acts.len(),
        acts[i] matches Action::Run(LimaCommand::Start(_)),
        rs[i + 1] is Done,
    ensures
        acts[i + 1] != Action::Provision ==> if states[0].update_hosts {
            acts[i + 1] matches Action::Query(LimaCommand::Shell { name, command }) && name@
                == states[0].instance@ && command@
                == "ip -4 addr show lima0 | grep -oP 'inet \\K[0-9.]+'"@
        } else {
            acts[i + 1] == Action::Finish(Outcome::Success)
        },
{
    lemma_start_created(states, rs, acts, i + 1);
    lemma_start_hosts(states, rs, acts, i + 1);
    assert(start_step(states[i], rs[i], states[i + 1], acts[i]));
    assert(start_step(states[i + 1], rs[i + 1], states[i + 2], acts[i + 1]));
}

/// `limavel start` writes to `/etc/hosts` the address that the guest
/// reported: in every run from the beginning, an answer with text to the
/// query of the guest's address is followed by writing that text, trimmed,
/// or by an error when nothing is left of it; and a successful write ends
/// the command with success (or as a creation, for a new VM).
pub proof fn law_start_writes_the_queried_address(
    states: Seq<StartFlow>,
    rs: Seq<Reply>,
    acts: Seq<Action>,
    i: int,
)
    requires
        start_run(states, rs, acts),
        states[0].step == StartStep::Begin,
        0 <= i,
        i + 1 < acts.len(),
        acts[i] matches Action::Query(LimaCommand::Shell { .. }),
        rs[i + 1] is Text,
    ensures
        match rs[i + 1] {
            Reply::Text(o) => if trim(o@).len() > 0 {
                acts[i + 1] matches Action::WriteHosts { ip } && ip@ == trim(o@)
            } else {
                acts[i + 1] == Action::Finish(Outcome::Error(LimavelError::GuestIpUnknown))
            },
            _ => false,
        },
        i + 2 < acts.len() && acts[i + 1] is WriteHosts && rs[i + 2] is Done ==> (acts[i + 2]
            == Action::Finish(Outcome::Success) || acts[i + 2] == Action::Finish(
            Outcome::Created,
        )),
{
    assert(start_step(states[i], rs[i], states[i + 1], acts[i]));
    assert(start_step(states[i + 1], rs[i + 1], states[i + 2], acts[i + 1]));
    if i + 2 < acts.len() {
        assert(start_step(states[i + 2], rs[i + 2], states[i + 3], acts[i + 2]));
    }
}

} // verus!

verus! {

// ---------------------------------------------------------------------
// stop
// ---------------------------------------------------------------------

/// Where `limavel stop` is.
#[derive(Debug, PartialEq, Eq, Clone, Copy)]
pub enum StopStep {
    Begin,
    Listed,
    Status,
    HostsRemoved,
    Stopped,
    Finished,
}

/// `limavel stop`: stops the running VM, taking its entries out of
/// `/etc/hosts` first unless asked not to.
#[derive(Debug)]
pub struct StopFlow {
    pub instance: String,
    pub remove_hosts: bool,
    pub step: StopStep,
}

/// One step of `limavel stop`: from `f`, on `reply` to the last action,
/// the flow moves to `g` and asks for `a`.
pub open spec fn stop_step(f: StopFlow, reply: Reply, g: StopFlow, a: Action) -> bool {
    &&& g.instance == f.instance
    &&& g.remove_hosts == f.remove_hosts
    &&& f.step == StopStep::Begin ==> g.step == StopStep::Listed && a
        == Action::Query(LimaCommand::ListQuiet)
    &&& f.step == StopStep::Listed ==> match reply {
        Reply::Text(l) => if listed(l@, f.instance@) {
            g.step == StopStep::Status && a == Action::Query(LimaCommand::ListJson)
        } else {
            g.step == StopStep::Finished && (a matches Action::Finish(
                Outcome::Error(LimavelError::InstanceNotFound(n)),
            ) && n@ == f.instance@)
        },
        _ => g.step == StopStep::Finished && a == Action::Finish(
            Outcome::ActionFailed,
        ),
    }
    &&& f.step == StopStep::Status ==> if replied_status(reply, f.instance@)
        != "Running"@ {
        g.step == StopStep::Finished && (a matches Action::Finish(
            Outcome::Error(LimavelError::InstanceNotRunning(n)),
        ) && n@ == f.instance@)
    } else if f.remove_hosts {
        g.step == StopStep::HostsRemoved && a == Action::RemoveHosts
    } else {
        g.step == StopStep::Stopped && a == Action::Run(
            LimaCommand::Stop(f.instance),
        )
    }
    &&& f.step == StopStep::HostsRemoved ==> if reply is Done {
        g.step == StopStep::Stopped && a == Action::Run(
            LimaCommand::Stop(f.instance),
        )
    } else {
        g.step == StopStep::Finished && a == Action::Finish(Outcome::ActionFailed)
    }
    &&& f.step == StopStep::Stopped ==> g.step == StopStep::Finished && a
        == Action::Finish(
        if reply is Done {
            Outcome::Success
        } else {
            Outcome::ActionFailed
        },
    )
    &&& f.step == StopStep::Finished ==> g.step == StopStep::Finished && a
        == Action::Finish(Outcome::Success)
}

impl StopFlow {
    /// The start of `limavel stop` for instance `instance`; `no_hosts`
    /// keeps the `/etc/hosts` entries.
    pub fn new(instance: &str, no_hosts: bool) -> (f: StopFlow)
        ensures
            f.instance@ == instance@,
            f.remove_hosts == !no_hosts,
            f.step == StopStep::Begin,
    {
        StopFlow { instance: owned(instance), remove_hosts: !no_hosts, step: StopStep::Begin }
    }

    /// The action that follows `reply` to the last one.
    pub fn next(&mut self, reply: Reply) -> (a: Action)
        ensures
            stop_step(*old(self), reply, *final(self), a),
    {
        match self.step {
            StopStep::Begin => {
                self.step = StopStep::Listed;
                Action::Query(LimaCommand::ListQuiet)
            },
            StopStep::Listed => match reply {
                Reply::Text(l) => {
                    if LimaClient::instance_exists(l.as_str(), self.instance.as_str()) {
                        self.step = StopStep::Status;
                        Action::Query(LimaCommand::ListJson)
                    } else {
                        self.step = StopStep::Finished;
                        Action::Finish(
                            Outcome::Error(LimavelError::InstanceNotFound(self.instance.clone())),
                        )
                    }
                },
                _ => {
                    self.step = StopStep::Finished;
                    Action::Finish(Outcome::ActionFailed)
                },
            },
            StopStep::Status => {
                let status = status_of(&reply, self.instance.as_str());
                if !is_running(&status) {
                    self.step = StopStep::Finished;
                    Action::Finish(
                        Outcome::Error(LimavelError::InstanceNotRunning(self.instance.clone())),
                    )
                } else if self.remove_hosts {
                    self.step = StopStep::HostsRemoved;
                    Action::RemoveHosts
                } else {
                    self.step = StopStep::Stopped;
                    Action::Run(LimaCommand::Stop(self.instance.clone()))
                }
            },
            StopStep::HostsRemoved => match reply {
                Reply::Done => {
                    self.step = StopStep::Stopped;
                    Action::Run(LimaCommand::Stop(self.instance.clone()))
                },
                _ => {
                    self.step = StopStep::Finished;
                    Action::Finish(Outcome::ActionFailed)
                },
            },
            StopStep::Stopped => {
                self.step = StopStep::Finished;
                match reply {
                    Reply::Done => Action::Finish(Outcome::Success),
                    _ => Action::Finish(Outcome::ActionFailed),
                }
            },
            StopStep::Finished => Action::Finish(Outcome::Success),
        }
    }
}

/// A run of `limavel stop`: on reply `rs[i]`, the flow goes from
/// `states[i]` to `states[i + 1]` and asks for `acts[i]`.
pub open spec fn stop_run(states: Seq<StopFlow>, rs: Seq<Reply>, acts: Seq<Action>) -> bool {
    &&& states.len() == rs.len() + 1
    &&& acts.len() == rs.len()
    &&& forall|i: int| 0 <= i < rs.len() ==> stop_step(states[i], rs[i], states[i + 1], #[trigger] acts[i])
}

proof fn lemma_stop_hosts(states: Seq<StopFlow>, rs: Seq<Reply>, acts: Seq<Action>, k: int)
    requires
        stop_run(states, rs, acts),
        states[0].step == StopStep::Begin,
        0 <= k <= rs.len(),
    ensures
        states[k].remove_hosts == states[0].remove_hosts,
        states[k].instance == states[0].instance,
        states[k].step == StopStep::HostsRemoved ==> states[0].remove_hosts && k >= 1 && acts[k - 1]
            == Action::RemoveHosts,
    decreases k,
{
    if k > 0 {
        lemma_stop_hosts(states, rs, acts, k - 1);
        assert(stop_step(states[k - 1], rs[k - 1], states[k], acts[k - 1]));
    }
}

/// `limavel stop` takes the VM's entries out of `/etc/hosts` before it stops
/// the VM, and stops it only when that succeeded; with `--no-hosts` it
/// never touches `/etc/hosts`. Both hold in every run from the beginning.
pub proof fn law_stop_removes_hosts_first(
    states: Seq<StopFlow>,
    rs: Seq<Reply>,
    acts: Seq<Action>,
    i: int,
)
    requires
        stop_run(states, rs, acts),
        states[0].step == StopStep::Begin,
        0 <= i < acts.len(),
    ensures
        acts[i] matches Action::Run(LimaCommand::Stop(n)) ==> n == states[0].instance && (
        states[0].remove_hosts ==> i >= 1 && acts[i - 1] == Action::RemoveHosts && rs[i] is Done),
        !states[0].remove_hosts ==> acts[i] != Action::RemoveHosts,
{
    lemma_stop_hosts(states, rs, acts, i);
    assert(stop_step(states[i], rs[i], states[i + 1], acts[i]));
}

/// `limavel stop` succeeds once the VM stopped: in every run from the
/// beginning, with or without `--no-hosts`, a successful stop of the VM is
/// followed by the end of the command with success.
pub proof fn law_stop_succeeds_once_stopped(
    states: Seq<StopFlow>,
    rs: Seq<Reply>,
    acts: Seq<Action>,
    i: int,
)
    requires
        stop_run(states, rs, acts),
        states[0].step == StopStep::Begin,
        0 <= i,
        i + 1 < acts.len(),
        acts[i] matches Action::Run(LimaCommand::Stop(_)),
        rs[i + 1] is Done,
    ensures
        acts[i + 1] == Action::Finish(Outcome::Success),
{
    assert(stop_step(states[i], rs[i], states[i + 1], acts[i]));
    assert(stop_step(states[i + 1], rs[i + 1], states[i + 2], acts[i + 1]));
}

/// `limavel stop` stops a running VM and refuses any other: in every run
/// from the beginning, the answer to the query of the instances' records
/// decides. A status other than `Running` ends the command with the error
/// that the instance does not run; `Running` is followed by taking the
/// entries out of `/etc/hosts` (unless `--no-hosts`) or by stopping the VM,
/// and a successful removal of the entries by stopping the VM.
pub proof fn law_stop_stops_a_running_vm(
    states: Seq<StopFlow>,
    rs: Seq<Reply>,
    acts: Seq<Action>,
    i: int,
)
    requires
        stop_run(states, rs, acts),
        states[0].step == StopStep::Begin,
        0 <= i,
        i + 1 < acts.len(),
    ensures
        acts[i] == Action::Query(LimaCommand::ListJson) ==> if replied_status(
            rs[i + 1],
            states[0].instance@,
        ) == "Running"@ {
            if states[0].remove_hosts {
                acts[i + 1] == Action::RemoveHosts
            } else {
                acts[i + 1] == Action::Run(LimaCommand::Stop(states[0].instance))
            }
        } else {
            acts[i + 1] matches Action::Finish(Outcome::Error(LimavelError::InstanceNotRunning(n)))
                && n@ == states[0].instance@
        },
        acts[i] == Action::RemoveHosts && rs[i + 1] is Done ==> acts[i + 1] == Action::Run(
            LimaCommand::Stop(states[0].instance),
        ),
{
    lemma_stop_hosts(states, rs, acts, i + 1);
    assert(stop_step(states[i], rs[i], states[i + 1], acts[i]));
    assert(stop_step(states[i + 1], rs[i + 1], states[i + 2], acts[i + 1]));
}


} // verus!

verus! {

// ---------------------------------------------------------------------
// destroy
// ---------------------------------------------------------------------

/// Where `limavel destroy` is.
#[derive(Debug, PartialEq, Eq, Clone, Copy)]
pub enum DestroyStep {
    Begin,
    Listed,
    Confirming,
    HostsRemoved,
    Status,
    Stopped,
    Deleted,
    Finished,
}

/// `limavel destroy`: after the user confirms, takes the VM's entries out
/// of `/etc/hosts`, stops the VM if it runs, and deletes it.
#[derive(Debug)]
pub struct DestroyFlow {
    pub instance: String,
    pub step: DestroyStep,
}

/// The answer is a yes: once trimmed, it is `y` in either case.
pub open spec fn is_yes(answer: Seq<char>) -> bool {
    trim(answer) == seq!['y'] || trim(answer) == seq!['Y']
}

/// `f` moved to step `step`.
pub open spec fn destroy_at(f: DestroyFlow, step: DestroyStep) -> DestroyFlow {
    DestroyFlow { instance: f.instance, step }
}

/// The step of `limavel destroy` that follows `reply` in `f`, and its action.
pub open spec fn destroy_next(f: DestroyFlow, reply: Reply) -> (DestroyFlow, Action) {
    let failed = (destroy_at(f, DestroyStep::Finished), Action::Finish(Outcome::ActionFailed));
    match f.step {
        DestroyStep::Begin => (destroy_at(f, DestroyStep::Listed), Action::Query(LimaCommand::ListQuiet)),
        DestroyStep::Listed => match reply {
            Reply::Text(l) => if listed(l@, f.instance@) {
                (destroy_at(f, DestroyStep::Confirming), Action::Confirm)
            } else {
                (destroy_at(f, DestroyStep::Finished), Action::Finish(Outcome::NoInstance))
            },
            _ => failed,
        },
        DestroyStep::Confirming => match reply {
            Reply::Text(answer) => if is_yes(answer@) {
                (destroy_at(f, DestroyStep::HostsRemoved), Action::RemoveHosts)
            } else {
                (destroy_at(f, DestroyStep::Finished), Action::Finish(Outcome::Aborted))
            },
            _ => failed,
        },
        DestroyStep::HostsRemoved => if reply is Done {
            (destroy_at(f, DestroyStep::Status), Action::Query(LimaCommand::ListJson))
        } else {
            failed
        },
        DestroyStep::Status => if replied_status(reply, f.instance@) == "Running"@ {
            (destroy_at(f, DestroyStep::Stopped), Action::Run(LimaCommand::Stop(f.instance)))
        } else {
            (destroy_at(f, DestroyStep::Deleted), Action::Run(LimaCommand::Delete(f.instance)))
        },
        DestroyStep::Stopped => if reply is Done {
            (destroy_at(f, DestroyStep::Deleted), Action::Run(LimaCommand::Delete(f.instance)))
        } else {
            failed
        },
        DestroyStep::Deleted => (
            destroy_at(f, DestroyStep::Finished),
            Action::Finish(
                if reply is Done {
                    Outcome::Success
                } else {
                    Outcome::ActionFailed
                },
            ),
        ),
        DestroyStep::Finished => (destroy_at(f, DestroyStep::Finished), Action::Finish(Outcome::Success)),
    }
}

impl DestroyFlow {
    /// The start of `limavel destroy` for instance `instance`.
    pub fn new(instance: &str) -> (f: DestroyFlow)
        ensures
            f.instance@ == instance@,
            f.step == DestroyStep::Begin,
    {
        DestroyFlow { instance: owned(instance), step: DestroyStep::Begin }
    }

    fn fail(&mut self) -> (a: Action)
        ensures
            final(self).instance == old(self).instance,
            final(self).step == DestroyStep::Finished,
            a == Action::Finish(Outcome::ActionFailed),
    {
        self.step = DestroyStep::Finished;
        Action::Finish(Outcome::ActionFailed)
    }

    /// The action that follows `reply` to the last one.
    pub fn next(&mut self, reply: Reply) -> (a: Action)
        ensures
            (*final(self), a) == destroy_next(*old(self), reply),
    {
        match self.step {
            DestroyStep::Begin => {
                self.step = DestroyStep::Listed;
                Action::Query(LimaCommand::ListQuiet)
            },
            DestroyStep::Listed => match reply {
                Reply::Text(l) => {
                    if LimaClient::instance_exists(l.as_str(), self.instance.as_str()) {
                        self.step = DestroyStep::Confirming;
                        Action::Confirm
                    } else {
                        self.step = DestroyStep::Finished;
                        Action::Finish(Outcome::NoInstance)
                    }
                },
                _ => self.fail(),
            },
            DestroyStep::Confirming => match reply {
                Reply::Text(answer) => {
                    if confirmed(answer.as_str()) {
                        self.step = DestroyStep::HostsRemoved;
                        Action::RemoveHosts
                    } else {
                        self.step = DestroyStep::Finished;
                        Action::Finish(Outcome::Aborted)
                    }
                },
                _ => self.fail(),
            },
            DestroyStep::HostsRemoved => match reply {
                Reply::Done => {
                    self.step = DestroyStep::Status;
                    Action::Query(LimaCommand::ListJson)
                },
                _ => self.fail(),
            },
            DestroyStep::Status => {
                let status = status_of(&reply, self.instance.as_str());
                if is_running(&status) {
                    self.step = DestroyStep::Stopped;
                    Action::Run(LimaCommand::Stop(self.instance.clone()))
                } else {
                    self.step = DestroyStep::Deleted;
                    Action::Run(LimaCommand::Delete(self.instance.clone()))
                }
            },
            DestroyStep::Stopped => match reply {
                Reply::Done => {
                    self.step = DestroyStep::Deleted;
                    Action::Run(LimaCommand::Delete(self.instance.clone()))
                },
                _ => self.fail(),
            },
            DestroyStep::Deleted => match reply {
                Reply::Done => {
                    self.step = DestroyStep::Finished;
                    Action::Finish(Outcome::Success)
                },
                _ => self.fail(),
            },
            DestroyStep::Finished => Action::Finish(Outcome::Success),
        }
    }
}

/// The actions of `limavel destroy` from `f`, for the replies `rs` in turn:
/// the `i`-th action follows the `i`-th reply.
pub open spec fn destroy_trace(f: DestroyFlow, rs: Seq<Reply>) -> Seq<Action>
    decreases rs.len(),
{
    if rs.len() == 0 {
        Seq::empty()
    } else {
        let (g, a) = destroy_next(f, rs[0]);
        seq![a] + destroy_trace(g, rs.drop_first())
    }
}

/// The action touches the VM or `/etc/hosts`.
pub open spec fn is_destructive(a: Action) -> bool {
    a is RemoveHosts || a is Run
}

/// The step comes after the user said yes.
pub open spec fn after_yes(step: DestroyStep) -> bool {
    step == DestroyStep::HostsRemoved || step == DestroyStep::Status || step == DestroyStep::Stopped
        || step == DestroyStep::Deleted
}

/// The reply is a yes.
pub open spec fn replied_yes(r: Reply) -> bool {
    r matches Reply::Text(answer) && is_yes(answer@)
}

proof fn lemma_destroy_confirmed(f: DestroyFlow, rs: Seq<Reply>)
    ensures
        destroy_trace(f, rs).len() == rs.len(),
        forall|i: int|
            0 <= i < destroy_trace(f, rs).len() && is_destructive(#[trigger] destroy_trace(f, rs)[i])
                ==> after_yes(f.step) || (f.step == DestroyStep::Confirming && replied_yes(rs[0]))
                || exists|j: int|
                0 <= j < i && destroy_trace(f, rs)[j] == Action::Confirm && replied_yes(rs[j + 1]),
    decreases rs.len(),
{
    if rs.len() > 0 {
        let (g, a0) = destroy_next(f, rs[0]);
        let rest = rs.drop_first();
        let t = destroy_trace(f, rs);
        let tg = destroy_trace(g, rest);
        assert(t == seq![a0] + tg);
        lemma_destroy_confirmed(g, rest);
        assert forall|i: int| 0 <= i < t.len() && is_destructive(#[trigger] t[i]) implies after_yes(
            f.step,
        ) || (f.step == DestroyStep::Confirming && replied_yes(rs[0])) || exists|j: int|
            0 <= j < i && t[j] == Action::Confirm && replied_yes(rs[j + 1]) by {
            if i > 0 {
                assert(t[i] == tg[i - 1]);
                if exists|j: int| 0 <= j < i - 1 && tg[j] == Action::Confirm && replied_yes(rest[j + 1]) {
                    let j = choose|j: int| 0 <= j < i - 1 && tg[j] == Action::Confirm && replied_yes(
                        rest[j + 1],
                    );
                    assert(t[j + 1] == tg[j]);
                    assert(rs[j + 2] == rest[j + 1]);
                } else if g.step == DestroyStep::Confirming && replied_yes(rest[0]) {
                    assert(t[0] == Action::Confirm);
                    assert(rs[1] == rest[0]);
                }
            }
        }
    }
}

/// `limavel destroy` touches neither the VM nor `/etc/hosts` before the user
/// answered yes: for every sequence of replies, each action that stops or
/// deletes the VM or rewrites `/etc/hosts` comes after a confirmation whose
/// answer was a yes.
pub proof fn law_destroy_needs_yes(instance: String, rs: Seq<Reply>, i: int)
    requires
        0 <= i < destroy_trace(DestroyFlow { instance, step: DestroyStep::Begin }, rs).len(),
        is_destructive(destroy_trace(DestroyFlow { instance, step: DestroyStep::Begin }, rs)[i]),
    ensures
        exists|j: int|
            0 <= j < i && destroy_trace(DestroyFlow { instance, step: DestroyStep::Begin }, rs)[j]
                == Action::Confirm && replied_yes(rs[j + 1]),
{
    lemma_destroy_confirmed(DestroyFlow { instance, step: DestroyStep::Begin }, rs);
}

/// The trace holds no end before index `i`.
pub open spec fn no_finish_before(t: Seq<Action>, i: int) -> bool {
    forall|j: int| 0 <= j < i ==> !(#[trigger] t[j] is Finish)
}

proof fn lemma_destroy_deletes(f: DestroyFlow, rs: Seq<Reply>, i: int)
    requires
        f.step != DestroyStep::Finished,
        0 <= i < destroy_trace(f, rs).len(),
        destroy_trace(f, rs)[i] == Action::Finish(Outcome::Success),
        no_finish_before(destroy_trace(f, rs), i),
    ensures
        (f.step == DestroyStep::Deleted && i == 0 && rs[0] is Done) || exists|j: int|
            0 <= j < i && destroy_trace(f, rs)[j] == Action::Run(LimaCommand::Delete(f.instance))
                && rs[j + 1] is Done,
    decreases rs.len(),
{
    lemma_destroy_confirmed(f, rs);
    let (g, a0) = destroy_next(f, rs[0]);
    let rest = rs.drop_first();
    let t = destroy_trace(f, rs);
    let tg = destroy_trace(g, rest);
    assert(t == seq![a0] + tg);
    if i > 0 {
        assert(t[0] == a0);
        assert(!(a0 is Finish));
        assert(g.step != DestroyStep::Finished);
        assert(g.instance == f.instance);
        lemma_destroy_confirmed(g, rest);
        assert(tg[i - 1] == t[i]);
        assert forall|j: int| 0 <= j < i - 1 implies !(#[trigger] tg[j] is Finish) by {
            assert(tg[j] == t[j + 1]);
        }
        lemma_destroy_deletes(g, rest, i - 1);
        if g.step == DestroyStep::Deleted && i - 1 == 0 && rest[0] is Done {
            assert(a0 == Action::Run(LimaCommand::Delete(f.instance)));
            assert(rs[1] == rest[0]);
        } else {
            let j = choose|j: int|
                0 <= j < i - 1 && tg[j] == Action::Run(LimaCommand::Delete(g.instance))
                    && rest[j + 1] is Done;
            assert(t[j + 1] == tg[j]);
            assert(rs[j + 2] == rest[j + 1]);
        }
    }
}

/// `limavel destroy` reports success only after it deleted the VM: in every
/// run from the beginning, whatever the VM's status, the first end of the
/// command, when it is a success, comes after a deletion of the instance
/// that succeeded.
pub proof fn law_destroy_deletes_before_success(instance: String, rs: Seq<Reply>, i: int)
    requires
        0 <= i < destroy_trace(DestroyFlow { instance, step: DestroyStep::Begin }, rs).len(),
        destroy_trace(DestroyFlow { instance, step: DestroyStep::Begin }, rs)[i] == Action::Finish(
            Outcome::Success,
        ),
        no_finish_before(destroy_trace(DestroyFlow { instance, step: DestroyStep::Begin }, rs), i),
    ensures
        exists|j: int|
            0 <= j < i && destroy_trace(DestroyFlow { instance, step: DestroyStep::Begin }, rs)[j]
                == Action::Run(LimaCommand::Delete(instance)) && rs[j + 1] is Done,
{
    lemma_destroy_deletes(DestroyFlow { instance, step: DestroyStep::Begin }, rs, i);
}

/// The state of `limavel destroy` from `f` after the first `k` replies of
/// `rs`.
pub open spec fn destroy_state(f: DestroyFlow, rs: Seq<Reply>, k: nat) -> DestroyFlow
    decreases k,
{
    if k == 0 {
        f
    } else {
        destroy_next(destroy_state(f, rs, (k - 1) as nat), rs[k - 1]).0
    }
}

/// The reply `r` reports that action `a` succeeded: the text of a query or
/// of a question, or `Done` for anything else.
pub open spec fn succeeded(a: Action, r: Reply) -> bool {
    match a {
        Action::Query(_) | Action::Confirm => r is Text,
        _ => r is Done,
    }
}

proof fn lemma_destroy_state_shift(f: DestroyFlow, rs: Seq<Reply>, k: nat)
    requires
        0 < rs.len(),
        k < rs.len(),
    ensures
        destroy_state(f, rs, k + 1) == destroy_state(destroy_next(f, rs[0]).0, rs.drop_first(), k),
    decreases k,
{
    let g = destroy_next(f, rs[0]).0;
    let rest = rs.drop_first();
    assert(destroy_state(f, rs, k + 1) == destroy_next(destroy_state(f, rs, k), rs[k as int]).0);
    if k == 0 {
        assert(destroy_state(f, rs, 0) == f);
        assert(destroy_state(g, rest, 0) == g);
    } else {
        lemma_destroy_state_shift(f, rs, (k - 1) as nat);
        assert(((k - 1) as nat) + 1 == k);
        assert(rest[k - 1] == rs[k as int]);
        assert(destroy_state(g, rest, k) == destroy_next(
            destroy_state(g, rest, (k - 1) as nat),
            rest[k - 1],
        ).0);
    }
}

proof fn lemma_destroy_trace_at(f: DestroyFlow, rs: Seq<Reply>, k: nat)
    requires
        k < rs.len(),
    ensures
        destroy_trace(f, rs).len() == rs.len(),
        destroy_trace(f, rs)[k as int] == destroy_next(destroy_state(f, rs, k), rs[k as int]).1,
    decreases k,
{
    lemma_destroy_confirmed(f, rs);
    if k > 0 {
        let g = destroy_next(f, rs[0]).0;
        let rest = rs.drop_first();
        lemma_destroy_trace_at(g, rest, (k - 1) as nat);
        lemma_destroy_state_shift(f, rs, (k - 1) as nat);
        assert(destroy_trace(f, rs)[k as int] == destroy_trace(g, rest)[k - 1]);
        assert(rest[k - 1] == rs[k as int]);
    }
}

/// `limavel destroy` deletes the VM when the user says yes and nothing
/// fails: in every run from the beginning in which the instance is listed,
/// the user answers yes and each action succeeds, the command's first end
/// is a success, and it comes after the deletion of the instance, whether
/// the VM was running (it is stopped first) or not.
pub proof fn law_destroy_deletes_on_yes(instance: String, rs: Seq<Reply>, i: int)
    requires
        0 <= i < destroy_trace(DestroyFlow { instance, step: DestroyStep::Begin }, rs).len(),
        destroy_trace(DestroyFlow { instance, step: DestroyStep::Begin }, rs)[i] is Finish,
        no_finish_before(destroy_trace(DestroyFlow { instance, step: DestroyStep::Begin }, rs), i),
        forall|j: int|
            0 <= j < i ==> succeeded(
                #[trigger] destroy_trace(DestroyFlow { instance, step: DestroyStep::Begin }, rs)[j],
                rs[j + 1],
            ),
        rs[1] matches Reply::Text(l) && listed(l@, instance@),
        rs[2] matches Reply::Text(answer) && is_yes(answer@),
    ensures
        destroy_trace(DestroyFlow { instance, step: DestroyStep::Begin }, rs)[i] == Action::Finish(
            Outcome::Success,
        ),
        exists|j: int|
            0 <= j < i && destroy_trace(DestroyFlow { instance, step: DestroyStep::Begin }, rs)[j]
                == Action::Run(LimaCommand::Delete(instance)),
{
    let f = DestroyFlow { instance, step: DestroyStep::Begin };
    let t = destroy_trace(f, rs);
    lemma_destroy_confirmed(f, rs);
    let n = rs.len();
    if i < 5 {
        // the first actions are the listing, the question, the removal of
        // the hosts entries and the status query, none of them an end
        let k = i as nat;
        lemma_destroy_trace_at(f, rs, 0);
        assert(destroy_state(f, rs, 1).step == DestroyStep::Listed);
        if i >= 1 {
            lemma_destroy_trace_at(f, rs, 1);
            assert(destroy_state(f, rs, 2).step == DestroyStep::Confirming);
        }
        if i >= 2 {
            lemma_destroy_trace_at(f, rs, 2);
            assert(destroy_state(f, rs, 3).step == DestroyStep::HostsRemoved);
        }
        if i >= 3 {
            lemma_destroy_trace_at(f, rs, 3);
            assert(succeeded(t[2], rs[3]));
            assert(destroy_state(f, rs, 4).step == DestroyStep::Status);
        }
        if i >= 4 {
            lemma_destroy_trace_at(f, rs, 4);
        }
        lemma_destroy_trace_at(f, rs, k);
        assert(false);
    } else {
        lemma_destroy_trace_at(f, rs, 0);
        lemma_destroy_trace_at(f, rs, 1);
        lemma_destroy_trace_at(f, rs, 2);
        lemma_destroy_trace_at(f, rs, 3);
        assert(succeeded(t[2], rs[3]));
        lemma_destroy_trace_at(f, rs, 4);
        assert(destroy_state(f, rs, 4).step == DestroyStep::Status);
        assert(succeeded(t[3], rs[4]));
        let s5 = destroy_state(f, rs, 5);
        if s5.step == DestroyStep::Stopped {
            assert(t[4] == Action::Run(LimaCommand::Stop(instance)));
            if i == 5 {
                lemma_destroy_trace_at(f, rs, 5);
                assert(false);
            }
            lemma_destroy_trace_at(f, rs, 5);
            assert(succeeded(t[4], rs[5]));
            assert(t[5] == Action::Run(LimaCommand::Delete(instance)));
            assert(!(t[5] is Finish));
            if i > 6 {
                assert(!(t[6] is Finish));
                assert(succeeded(t[5], rs[6]));
            }
            lemma_destroy_trace_at(f, rs, 6);
            assert(succeeded(t[5], rs[6]));
        } else {
            assert(t[4] == Action::Run(LimaCommand::Delete(instance)));
            lemma_destroy_trace_at(f, rs, 5);
            assert(succeeded(t[4], rs[5]));
            if i > 5 {
                assert(!(t[5] is Finish));
            }
        }
    }
}

// ---------------------------------------------------------------------
// edit
// ---------------------------------------------------------------------

/// Where `limavel edit` is.
#[derive(Debug, PartialEq, Eq, Clone, Copy)]
pub enum EditStep {
    Begin,
    Listed,
    Status,
    Stopped,
    Disk { was_running: bool },
    Edited { was_running: bool },
    Restarted,
    Finished,
}

/// `limavel edit`: applies the configured CPU count and memory to the VM,
/// and the configured disk size when it is larger; a running VM is stopped
/// for this and started again afterwards.
#[derive(Debug)]
pub struct EditFlow {
    pub instance: String,
    pub cpus: u32,
    pub memory: u32,
    pub disk: u32,
    pub step: EditStep,
}

impl EditFlow {
    /// The start of `limavel edit` for `config`.
    pub fn new(config: &LimavelConfig) -> (f: EditFlow)
        ensures
            f.instance@ == config.name@,
            f.cpus == config.cpus,
            f.memory == config.memory,
            f.disk == config.disk,
            f.step == EditStep::Begin,
    {
        EditFlow {
            instance: config.name.clone(),
            cpus: config.cpus,
            memory: config.memory,
            disk: config.disk,
            step: EditStep::Begin,
        }
    }

    fn fail(&mut self) -> (a: Action)
        ensures
            final(self).instance == old(self).instance,
            final(self).cpus == old(self).cpus,
            final(self).memory == old(self).memory,
            final(self).disk == old(self).disk,
            final(self).step == EditStep::Finished,
            a == Action::Finish(Outcome::ActionFailed),
    {
        self.step = EditStep::Finished;
        Action::Finish(Outcome::ActionFailed)
    }

    /// The action that follows `reply` to the last one.
    pub fn next(&mut self, reply: Reply) -> (a: Action)
        ensures
            final(self).instance == old(self).instance,
            final(self).cpus == old(self).cpus,
            final(self).memory == old(self).memory,
            final(self).disk == old(self).disk,
            old(self).step == EditStep::Begin ==> final(self).step == EditStep::Listed && a
                == Action::Query(LimaCommand::ListQuiet),
            old(self).step == EditStep::Listed ==> match reply {
                Reply::Text(l) => if listed(l@, old(self).instance@) {
                    final(self).step == EditStep::Status && a == Action::Query(LimaCommand::ListJson)
                } else {
                    final(self).step == EditStep::Finished && (a matches Action::Finish(
                        Outcome::Error(LimavelError::InstanceNotFound(n)),
                    ) && n@ == old(self).instance@)
                },
                _ => final(self).step == EditStep::Finished && a == Action::Finish(
                    Outcome::ActionFailed,
                ),
            },
            old(self).step == EditStep::Status ==> if replied_status(reply, old(self).instance@)
                == "Running"@ {
                final(self).step == EditStep::Stopped && a == Action::Run(
                    LimaCommand::Stop(old(self).instance),
                )
            } else {
                final(self).step == EditStep::Disk { was_running: false } && a == Action::Query(
                    LimaCommand::ListJson,
                )
            },
            old(self).step == EditStep::Stopped ==> if reply is Done {
                final(self).step == EditStep::Disk { was_running: true } && a == Action::Query(
                    LimaCommand::ListJson,
                )
            } else {
                final(self).step == EditStep::Finished && a == Action::Finish(Outcome::ActionFailed)
            },
            old(self).step matches EditStep::Disk { was_running } ==> match reply {
                Reply::Text(j) => match instance_record(j@, old(self).instance@) {
                    None => final(self).step == EditStep::Finished && (a matches Action::Finish(
                        Outcome::Error(LimavelError::InstanceUnknown(n)),
                    ) && n@ == old(self).instance@),
                    Some(l) => match json_u64_at(l, "disk"@) {
                        None => final(self).step == EditStep::Finished && (a matches Action::Finish(
                            Outcome::Error(LimavelError::DiskUnknown(n)),
                        ) && n@ == old(self).instance@),
                        Some(bytes) => final(self).step == EditStep::Edited { was_running }
                            && a == Action::Run(
                            LimaCommand::Edit {
                                name: old(self).instance,
                                cpus: old(self).cpus,
                                memory_mib: old(self).memory,
                                disk_gib: if old(self).disk > (bytes / GIB) as u32 {
                                    Some(old(self).disk)
                                } else {
                                    None
                                },
                            },
                        ),
                    },
                },
                _ => final(self).step == EditStep::Finished && a == Action::Finish(
                    Outcome::ActionFailed,
                ),
            },
            old(self).step matches EditStep::Edited { was_running } ==> if !(reply is Done) {
                final(self).step == EditStep::Finished && a == Action::Finish(Outcome::ActionFailed)
            } else if was_running {
                final(self).step == EditStep::Restarted && a == Action::Run(
                    LimaCommand::Start(old(self).instance),
                )
            } else {
                final(self).step == EditStep::Finished && a == Action::Finish(Outcome::Success)
            },
            old(self).step == EditStep::Restarted ==> final(self).step == EditStep::Finished && a
                == Action::Finish(
                if reply is Done {
                    Outcome::Success
                } else {
                    Outcome::ActionFailed
                },
            ),
            old(self).step == EditStep::Finished ==> final(self).step == EditStep::Finished && a
                == Action::Finish(Outcome::Success),
    {
        match self.step {
            EditStep::Begin => {
                self.step = EditStep::Listed;
                Action::Query(LimaCommand::ListQuiet)
            },
            EditStep::Listed => match reply {
                Reply::Text(l) => {
                    if LimaClient::instance_exists(l.as_str(), self.instance.as_str()) {
                        self.step = EditStep::Status;
                        Action::Query(LimaCommand::ListJson)
                    } else {
                        self.step = EditStep::Finished;
                        Action::Finish(
                            Outcome::Error(LimavelError::InstanceNotFound(self.instance.clone())),
                        )
                    }
                },
                _ => self.fail(),
            },
            EditStep::Status => {
                let status = status_of(&reply, self.instance.as_str());
                if is_running(&status) {
                    self.step = EditStep::Stopped;
                    Action::Run(LimaCommand::Stop(self.instance.clone()))
                } else {
                    self.step = EditStep::Disk { was_running: false };
                    Action::Query(LimaCommand::ListJson)
                }
            },
            EditStep::Stopped => match reply {
                Reply::Done => {
                    self.step = EditStep::Disk { was_running: true };
                    Action::Query(LimaCommand::ListJson)
                },
                _ => self.fail(),
            },
            EditStep::Disk { was_running } => match reply {
                Reply::Text(j) => match LimaClient::instance_disk_gib(
                    j.as_str(),
                    self.instance.as_str(),
                ) {
                    Ok(current) => {
                        self.step = EditStep::Edited { was_running };
                        Action::Run(
                            LimaCommand::Edit {
                                name: self.instance.clone(),
                                cpus: self.cpus,
                                memory_mib: self.memory,
                                disk_gib: grown_disk(self.disk, current),
                            },
                        )
                    },
                    Err(e) => {
                        self.step = EditStep::Finished;
                        Action::Finish(Outcome::Error(e))
                    },
                },
                _ => self.fail(),
            },
            EditStep::Edited { was_running } => match reply {
                Reply::Done => {
                    if was_running {
                        self.step = EditStep::Restarted;
                        Action::Run(LimaCommand::Start(self.instance.clone()))
                    } else {
                        self.step = EditStep::Finished;
                        Action::Finish(Outcome::Success)
                    }
                },
                _ => self.fail(),
            },
            EditStep::Restarted => {
                self.step = EditStep::Finished;
                match reply {
                    Reply::Done => Action::Finish(Outcome::Success),
                    _ => Action::Finish(Outcome::ActionFailed),
                }
            },
            EditStep::Finished => Action::Finish(Outcome::Success),
        }
    }
}

} // verus!

verus! {

// ---------------------------------------------------------------------
// provision
// ---------------------------------------------------------------------

/// Where `limavel provision` is.
#[derive(Debug, PartialEq, Eq, Clone, Copy)]
pub enum ProvisionStep {
    Begin,
    Listed,
    Status,
    Provisioned,
    GuestIp,
    Hosts,
    Finished,
}

/// `limavel provision`: provisions the running VM again, then maps the
/// site domains to it in `/etc/hosts` when there are any.
#[derive(Debug)]
pub struct ProvisionFlow {
    pub instance: String,
    /// Whether the configuration has sites.
    pub has_domains: bool,
    pub step: ProvisionStep,
}

impl ProvisionFlow {
    /// The start of `limavel provision` for `config`.
    pub fn new(config: &LimavelConfig) -> (f: ProvisionFlow)
        ensures
            f.instance@ == config.name@,
            f.has_domains == (config.sites@.len() > 0),
            f.step == ProvisionStep::Begin,
    {
        ProvisionFlow {
            instance: config.name.clone(),
            has_domains: config.sites.len() > 0,
            step: ProvisionStep::Begin,
        }
    }

    fn fail(&mut self) -> (a: Action)
        ensures
            final(self).instance == old(self).instance,
            final(self).has_domains == old(self).has_domains,
            final(self).step == ProvisionStep::Finished,
            a == Action::Finish(Outcome::ActionFailed),
    {
        self.step = ProvisionStep::Finished;
        Action::Finish(Outcome::ActionFailed)
    }

    /// The action that follows `reply` to the last one.
    pub fn next(&mut self, reply: Reply) -> (a: Action)
        ensures
            final(self).instance == old(self).instance,
            final(self).has_domains == old(self).has_domains,
            old(self).step == ProvisionStep::Begin ==> final(self).step == ProvisionStep::Listed
                && a == Action::Query(LimaCommand::ListQuiet),
            old(self).step == ProvisionStep::Listed ==> match reply {
                Reply::Text(l) => if listed(l@, old(self).instance@) {
                    final(self).step == ProvisionStep::Status && a == Action::Query(
                        LimaCommand::ListJson,
                    )
                } else {
                    final(self).step == ProvisionStep::Finished && (a matches Action::Finish(
                        Outcome::Error(LimavelError::InstanceNotFound(n)),
                    ) && n@ == old(self).instance@)
                },
                _ => final(self).step == ProvisionStep::Finished && a == Action::Finish(
                    Outcome::ActionFailed,
                ),
            },
            old(self).step == ProvisionStep::Status ==> if replied_status(
                reply,
                old(self).instance@,
            ) == "Running"@ {
                final(self).step == ProvisionStep::Provisioned && a == Action::Provision
            } else {
                final(self).step == ProvisionStep::Finished && (a matches Action::Finish(
                    Outcome::Error(LimavelError::InstanceNotRunning(n)),
                ) && n@ == old(self).instance@)
            },
            old(self).step == ProvisionStep::Provisioned ==> if reply is Done {
                final(self).step == ProvisionStep::GuestIp && (a matches Action::Query(
                    LimaCommand::Shell { name, command },
                ) && name@ == old(self).instance@ && command@
                    == "ip -4 addr show lima0 | grep -oP 'inet \\K[0-9.]+'"@)
            } else {
                final(self).step == ProvisionStep::Finished && a == Action::Finish(
                    Outcome::ActionFailed,
                )
            },
            old(self).step == ProvisionStep::GuestIp ==> match reply {
                Reply::Text(o) => if trim(o@).len() == 0 {
                    final(self).step == ProvisionStep::Finished && a == Action::Finish(
                        Outcome::Error(LimavelError::GuestIpUnknown),
                    )
                } else if old(self).has_domains {
                    final(self).step == ProvisionStep::Hosts && (a matches Action::WriteHosts {
                        ip,
                    } && ip@ == trim(o@))
                } else {
                    final(self).step == ProvisionStep::Finished && a == Action::Finish(
                        Outcome::Success,
                    )
                },
                _ => final(self).step == ProvisionStep::Finished && a == Action::Finish(
                    Outcome::ActionFailed,
                ),
            },
            old(self).step == ProvisionStep::Hosts ==> final(self).step == ProvisionStep::Finished
                && a == Action::Finish(
                if reply is Done {
                    Outcome::Success
                } else {
                    Outcome::ActionFailed
                },
            ),
            old(self).step == ProvisionStep::Finished ==> final(self).step
                == ProvisionStep::Finished && a == Action::Finish(Outcome::Success),
    {
        match self.step {
            ProvisionStep::Begin => {
                self.step = ProvisionStep::Listed;
                Action::Query(LimaCommand::ListQuiet)
            },
            ProvisionStep::Listed => match reply {
                Reply::Text(l) => {
                    if LimaClient::instance_exists(l.as_str(), self.instance.as_str()) {
                        self.step = ProvisionStep::Status;
                        Action::Query(LimaCommand::ListJson)
                    } else {
                        self.step = ProvisionStep::Finished;
                        Action::Finish(
                            Outcome::Error(LimavelError::InstanceNotFound(self.instance.clone())),
                        )
                    }
                },
                _ => self.fail(),
            },
            ProvisionStep::Status => {
                let status = status_of(&reply, self.instance.as_str());
                if is_running(&status) {
                    self.step = ProvisionStep::Provisioned;
                    Action::Provision
                } else {
                    self.step = ProvisionStep::Finished;
                    Action::Finish(
                        Outcome::Error(LimavelError::InstanceNotRunning(self.instance.clone())),
                    )
                }
            },
            ProvisionStep::Provisioned => match reply {
                Reply::Done => {
                    self.step = ProvisionStep::GuestIp;
                    Action::Query(LimaClient::guest_ip_query(self.instance.as_str()))
                },
                _ => self.fail(),
            },
            ProvisionStep::GuestIp => match reply {
                Reply::Text(o) => match LimaClient::guest_ip(o.as_str()) {
                    Ok(ip) => {
                        if self.has_domains {
                            self.step = ProvisionStep::Hosts;
                            Action::WriteHosts { ip }
                        } else {
                            self.step = ProvisionStep::Finished;
                            Action::Finish(Outcome::Success)
                        }
                    },
                    Err(e) => {
                        self.step = ProvisionStep::Finished;
                        Action::Finish(Outcome::Error(e))
                    },
                },
                _ => self.fail(),
            },
            ProvisionStep::Hosts => {
                self.step = ProvisionStep::Finished;
                match reply {
                    Reply::Done => Action::Finish(Outcome::Success),
                    _ => Action::Finish(Outcome::ActionFailed),
                }
            },
            ProvisionStep::Finished => Action::Finish(Outcome::Success),
        }
    }
}

// ---------------------------------------------------------------------
// ssh
// ---------------------------------------------------------------------

/// Where `limavel ssh` is.
#[derive(Debug, PartialEq, Eq, Clone, Copy)]
pub enum SshStep {
    Begin,
    Listed,
    Status,
    LoggedIn,
    Finished,
}

/// `limavel ssh`: opens a login shell of the `limavel` user in the running
/// VM.
#[derive(Debug)]
pub struct SshFlow {
    pub instance: String,
    pub step: SshStep,
}

impl SshFlow {
    /// The start of `limavel ssh` for instance `instance`.
    pub fn new(instance: &str) -> (f: SshFlow)
        ensures
            f.instance@ == instance@,
            f.step == SshStep::Begin,
    {
        SshFlow { instance: owned(instance), step: SshStep::Begin }
    }

    /// The action that follows `reply` to the last one.
    pub fn next(&mut self, reply: Reply) -> (a: Action)
        ensures
            final(self).instance == old(self).instance,
            old(self).step == SshStep::Begin ==> final(self).step == SshStep::Listed && a
                == Action::Query(LimaCommand::ListQuiet),
            old(self).step == SshStep::Listed ==> match reply {
                Reply::Text(l) => if listed(l@, old(self).instance@) {
                    final(self).step == SshStep::Status && a == Action::Query(LimaCommand::ListJson)
                } else {
                    final(self).step == SshStep::Finished && (a matches Action::Finish(
                        Outcome::Error(LimavelError::InstanceNotFound(n)),
                    ) && n@ == old(self).instance@)
                },
                _ => final(self).step == SshStep::Finished && a == Action::Finish(
                    Outcome::ActionFailed,
                ),
            },
            old(self).step == SshStep::Status ==> if replied_status(reply, old(self).instance@)
                == "Running"@ {
                final(self).step == SshStep::LoggedIn && a == Action::Run(
                    LimaCommand::Login(old(self).instance),
                )
            } else {
                final(self).step == SshStep::Finished && (a matches Action::Finish(
                    Outcome::Error(LimavelError::InstanceNotRunning(n)),
                ) && n@ == old(self).instance@)
            },
            old(self).step == SshStep::LoggedIn ==> final(self).step == SshStep::Finished && a
                == Action::Finish(
                if reply is Done {
                    Outcome::Success
                } else {
                    Outcome::ActionFailed
                },
            ),
            old(self).step == SshStep::Finished ==> final(self).step == SshStep::Finished && a
                == Action::Finish(Outcome::Success),
    {
        match self.step {
            SshStep::Begin => {
                self.step = SshStep::Listed;
                Action::Query(LimaCommand::ListQuiet)
            },
            SshStep::Listed => match reply {
                Reply::Text(l) => {
                    if LimaClient::instance_exists(l.as_str(), self.instance.as_str()) {
                        self.step = SshStep::Status;
                        Action::Query(LimaCommand::ListJson)
                    } else {
                        self.step = SshStep::Finished;
                        Action::Finish(
                            Outcome::Error(LimavelError::InstanceNotFound(self.instance.clone())),
                        )
                    }
                },
                _ => {
                    self.step = SshStep::Finished;
                    Action::Finish(Outcome::ActionFailed)
                },
            },
            SshStep::Status => {
                let status = status_of(&reply, self.instance.as_str());
                if is_running(&status) {
                    self.step = SshStep::LoggedIn;
                    Action::Run(LimaCommand::Login(self.instance.clone()))
                } else {
                    self.step = SshStep::Finished;
                    Action::Finish(
                        Outcome::Error(LimavelError::InstanceNotRunning(self.instance.clone())),
                    )
                }
            },
            SshStep::LoggedIn => {
                self.step = SshStep::Finished;
                match reply {
                    Reply::Done => Action::Finish(Outcome::Success),
                    _ => Action::Finish(Outcome::ActionFailed),
                }
            },
            SshStep::Finished => Action::Finish(Outcome::Success),
        }
    }
}

// ---------------------------------------------------------------------
// status
// ---------------------------------------------------------------------

/// Where `limavel status` is.
#[derive(Debug, PartialEq, Eq, Clone, Copy)]
pub enum StatusStep {
    Begin,
    Listed,
    Status,
    GuestIp,
    Finished,
}

/// `limavel status`: reports whether the VM exists, its status, and the
/// guest's address when it runs.
#[derive(Debug)]
pub struct StatusFlow {
    pub instance: String,
    pub step: StatusStep,
}

/// The address that a guest address query replied, or `N/A` when it failed
/// or printed nothing.
pub open spec fn replied_ip(reply: Reply) -> Seq<char> {
    match reply {
        Reply::Text(o) => if trim(o@).len() > 0 {
            trim(o@)
        } else {
            "N/A"@
        },
        _ => "N/A"@,
    }
}

impl StatusFlow {
    /// The start of `limavel status` for instance `instance`.
    pub fn new(instance: &str) -> (f: StatusFlow)
        ensures
            f.instance@ == instance@,
            f.step == StatusStep::Begin,
    {
        StatusFlow { instance: owned(instance), step: StatusStep::Begin }
    }

    /// The action that follows `reply` to the last one.
    pub fn next(&mut self, reply: Reply) -> (a: Action)
        ensures
            final(self).instance == old(self).instance,
            old(self).step == StatusStep::Begin ==> final(self).step == StatusStep::Listed && a
                == Action::Query(LimaCommand::ListQuiet),
            old(self).step == StatusStep::Listed ==> match reply {
                Reply::Text(l) => if listed(l@, old(self).instance@) {
                    final(self).step == StatusStep::Status && a == Action::Query(
                        LimaCommand::ListJson,
                    )
                } else {
                    final(self).step == StatusStep::Finished && a == Action::Finish(
                        Outcome::NoInstance,
                    )
                },
                _ => final(self).step == StatusStep::Finished && a == Action::Finish(
                    Outcome::ActionFailed,
                ),
            },
            old(self).step == StatusStep::Status ==> if replied_status(reply, old(self).instance@)
                == "Running"@ {
                final(self).step == StatusStep::GuestIp && (a matches Action::Query(
                    LimaCommand::Shell { name, command },
                ) && name@ == old(self).instance@ && command@
                    == "ip -4 addr show lima0 | grep -oP 'inet \\K[0-9.]+'"@)
            } else {
                final(self).step == StatusStep::Finished && (a matches Action::Finish(
                    Outcome::Report { status, ip: None },
                ) && status@ == replied_status(reply, old(self).instance@))
            },
            old(self).step == StatusStep::GuestIp ==> final(self).step == StatusStep::Finished
                && (a matches Action::Finish(Outcome::Report { status, ip: Some(ip) }) && status@
                == "Running"@ && ip@ == replied_ip(reply)),
            old(self).step == StatusStep::Finished ==> final(self).step == StatusStep::Finished
                && a == Action::Finish(Outcome::Success),
    {
        match self.step {
            StatusStep::Begin => {
                self.step = StatusStep::Listed;
                Action::Query(LimaCommand::ListQuiet)
            },
            StatusStep::Listed => {
                self.step = StatusStep::Finished;
                match reply {
                    Reply::Text(l) => {
                        if LimaClient::instance_exists(l.as_str(), self.instance.as_str()) {
                            self.step = StatusStep::Status;
                            Action::Query(LimaCommand::ListJson)
                        } else {
                            Action::Finish(Outcome::NoInstance)
                        }
                    },
                    _ => Action::Finish(Outcome::ActionFailed),
                }
            },
            StatusStep::Status => {
                let status = status_of(&reply, self.instance.as_str());
                if is_running(&status) {
                    self.step = StatusStep::GuestIp;
                    Action::Query(LimaClient::guest_ip_query(self.instance.as_str()))
                } else {
                    self.step = StatusStep::Finished;
                    Action::Finish(Outcome::Report { status, ip: None })
                }
            },
            StatusStep::GuestIp => {
                self.step = StatusStep::Finished;
                let ip = match reply {
                    Reply::Text(o) => match LimaClient::guest_ip(o.as_str()) {
                        Ok(ip) => ip,
                        Err(_) => owned("N/A"),
                    },
                    _ => owned("N/A"),
                };
                Action::Finish(Outcome::Report { status: owned("Running"), ip: Some(ip) })
            },
            StatusStep::Finished => Action::Finish(Outcome::Success),
        }
    }
}

// ---------------------------------------------------------------------
// restart
// ---------------------------------------------------------------------

/// Where a restart is.
#[derive(Debug, PartialEq, Eq, Clone, Copy)]
pub enum RestartStep {
    Begin,
    /// Waiting for the stop.
    Stopped,
    /// Waiting for the start.
    Started,
    Finished,
}

/// The restart of a VM: stop it, then start it. The restart fails with the
/// error of the first invocation that fails, and the start is not run when
/// the stop failed.
#[derive(Debug)]
pub struct RestartFlow {
    pub instance: String,
    pub step: RestartStep,
}

/// One step of a restart: from `f`, on `reply` to the last action, the flow
/// moves to `g` and asks for `a`.
pub open spec fn restart_step(f: RestartFlow, reply: Reply, g: RestartFlow, a: Action) -> bool {
    &&& g.instance == f.instance
    &&& f.step == RestartStep::Begin ==> g.step == RestartStep::Stopped && a == Action::Run(
        LimaCommand::Stop(f.instance),
    )
    &&& f.step == RestartStep::Stopped ==> if reply is Done {
        g.step == RestartStep::Started && a == Action::Run(LimaCommand::Start(f.instance))
    } else {
        g.step == RestartStep::Finished && a == Action::Finish(Outcome::ActionFailed)
    }
    &&& f.step == RestartStep::Started ==> g.step == RestartStep::Finished && a == Action::Finish(
        if reply is Done {
            Outcome::Success
        } else {
            Outcome::ActionFailed
        },
    )
    &&& f.step == RestartStep::Finished ==> g.step == RestartStep::Finished && a == Action::Finish(
        Outcome::Success,
    )
}

impl RestartFlow {
    /// The action that follows `reply` to the last one.
    pub fn next(&mut self, reply: Reply) -> (a: Action)
        ensures
            restart_step(*old(self), reply, *final(self), a),
    {
        match self.step {
            RestartStep::Begin => {
                self.step = RestartStep::Stopped;
                Action::Run(LimaCommand::Stop(self.instance.clone()))
            },
            RestartStep::Stopped => match reply {
                Reply::Done => {
                    self.step = RestartStep::Started;
                    Action::Run(LimaCommand::Start(self.instance.clone()))
                },
                _ => {
                    self.step = RestartStep::Finished;
                    Action::Finish(Outcome::ActionFailed)
                },
            },
            RestartStep::Started => {
                self.step = RestartStep::Finished;
                match reply {
                    Reply::Done => Action::Finish(Outcome::Success),
                    _ => Action::Finish(Outcome::ActionFailed),
                }
            },
            RestartStep::Finished => Action::Finish(Outcome::Success),
        }
    }
}

/// A run of a restart: on reply `rs[i]`, the flow goes from `states[i]` to
/// `states[i + 1]` and asks for `acts[i]`.
pub open spec fn restart_run(states: Seq<RestartFlow>, rs: Seq<Reply>, acts: Seq<Action>) -> bool {
    &&& states.len() == rs.len() + 1
    &&& acts.len() == rs.len()
    &&& forall|i: int|
        0 <= i < rs.len() ==> restart_step(states[i], rs[i], states[i + 1], #[trigger] acts[i])
}

proof fn lemma_restart(states: Seq<RestartFlow>, rs: Seq<Reply>, acts: Seq<Action>, k: int)
    requires
        restart_run(states, rs, acts),
        states[0].step == RestartStep::Begin,
        0 <= k <= rs.len(),
    ensures
        states[k].instance == states[0].instance,
        k == 0 <==> states[k].step == RestartStep::Begin,
        states[k].step == RestartStep::Stopped ==> k == 1,
        states[k].step == RestartStep::Started ==> k == 2 && rs[1] is Done,
        k == 1 ==> states[k].step == RestartStep::Stopped,
        k == 2 && rs[1] is Done ==> states[k].step == RestartStep::Started,
    decreases k,
{
    if k > 0 {
        lemma_restart(states, rs, acts, k - 1);
        assert(restart_step(states[k - 1], rs[k - 1], states[k], acts[k - 1]));
    }
}

/// A restart stops the VM first and starts it only after the stop
/// succeeded; when the stop fails it ends at once with the stop's failure,
/// and after a start it ends with the start's success or failure. This
/// holds of every run from the beginning.
pub proof fn law_restart_stops_then_starts(
    states: Seq<RestartFlow>,
    rs: Seq<Reply>,
    acts: Seq<Action>,
    i: int,
)
    requires
        restart_run(states, rs, acts),
        states[0].step == RestartStep::Begin,
        0 <= i < acts.len(),
    ensures
        i == 0 ==> acts[i] == Action::Run(LimaCommand::Stop(states[0].instance)),
        i == 1 ==> if rs[1] is Done {
            acts[i] == Action::Run(LimaCommand::Start(states[0].instance))
        } else {
            acts[i] == Action::Finish(Outcome::ActionFailed)
        },
        i == 2 && rs[1] is Done ==> acts[i] == Action::Finish(
            if rs[2] is Done {
                Outcome::Success
            } else {
                Outcome::ActionFailed
            },
        ),
        acts[i] matches Action::Run(LimaCommand::Start(_)) ==> i == 1 && rs[1] is Done,
{
    lemma_restart(states, rs, acts, i);
    assert(restart_step(states[i], rs[i], states[i + 1], acts[i]));
}

} // verus!
