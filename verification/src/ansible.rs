//! The provisioning of the guest with Ansible: the variables handed to the
//! playbook, and the commands run in the guest.
use vstd::prelude::*;
use crate::config::{has_view, same_features, site_php, strictly_sorted, tilde_outcome, Features, LimavelConfig};
use crate::error::LimavelError;
use crate::flows::{Outcome, Reply};
use crate::lima::LimaCommand;
use crate::text::owned;

verus! {

/// A site as the playbook sees it.
#[derive(Debug)]
pub struct AnsibleSite {
    pub domain: String,
    pub root: String,
    pub php_version: String,
}

/// The variables handed to the playbook.
#[derive(Debug)]
pub struct AnsibleVars {
    pub ssh_public_key: String,
    pub sites: Vec<AnsibleSite>,
    pub php_versions: Vec<String>,
    pub db_type: String,
    pub db_version: String,
    pub db_password: String,
    pub databases: Vec<String>,
    pub features: Features,
    pub nodejs_version: String,
}

/// Where the guest keeps the playbooks.
pub const GUEST_ANSIBLE_DIR: &'static str = "/opt/limavel/ansible";

/// The guest command that tells whether Ansible is installed.
pub const CHECK_ANSIBLE: &'static str = "which ansible-playbook";

/// The guest command that installs Ansible.
pub const INSTALL_ANSIBLE: &'static str = "sudo apt-get update -qq && sudo apt-get install -y -qq ansible";

/// The guest command that creates the playbooks directory.
pub const MAKE_ANSIBLE_DIR: &'static str = "sudo mkdir -p /opt/limavel/ansible";

/// The guest command that runs the playbook with the variables file.
pub const RUN_PLAYBOOK: &'static str = "sudo ansible-playbook -c local -i 'localhost,' /opt/limavel/ansible/playbook.yml -e @/opt/limavel/ansible/vars.yml";

fn copy_string(s: &String) -> (out: String)
    ensures
        out@ == s@,
{
    s.clone()
}

/// The variables for `config`, with `ssh_public_key` as the key to
/// authorize: each site's domain, root and PHP version, the PHP versions in
/// use (each once, ascending), the database settings, the databases, the
/// features and the Node.js version.
pub fn ansible_vars(config: &LimavelConfig, ssh_public_key: String) -> (v: AnsibleVars)
    ensures
        v.ssh_public_key == ssh_public_key,
        v.sites@.len() == config.sites@.len(),
        forall|i: int|
            0 <= i < v.sites@.len() ==> (#[trigger] v.sites@[i]).domain@ == config.sites@[i].map@
                && v.sites@[i].root@ == config.sites@[i].to@ && v.sites@[i].php_version@
                == config.sites@[i].php@,
        strictly_sorted(v.php_versions@),
        forall|x: Seq<char>|
            #[trigger] has_view(v.php_versions@, x) <==> exists|j: int|
                0 <= j < config.sites@.len() && site_php(config.sites@, j) == x,
        v.db_type@ == config.database.db_type@,
        v.db_version@ == config.database.version@,
        v.db_password@ == config.database.password@,
        v.databases@.len() == config.databases@.len(),
        forall|i: int| 0 <= i < v.databases@.len() ==> #[trigger] v.databases@[i]@ == config.databases@[i]@,
        same_features(v.features, config.features),
        v.nodejs_version@ == config.nodejs@,
{
    let n = config.sites.len();
    let mut sites: Vec<AnsibleSite> = Vec::new();
    for i in 0..n
        invariant
            n == config.sites@.len(),
            sites@.len() == i,
            forall|k: int|
                0 <= k < i ==> (#[trigger] sites@[k]).domain@ == config.sites@[k].map@
                    && sites@[k].root@ == config.sites@[k].to@ && sites@[k].php_version@
                    == config.sites@[k].php@,
    {
        let s = &config.sites[i];
        sites.push(
            AnsibleSite {
                domain: copy_string(&s.map),
                root: copy_string(&s.to),
                php_version: copy_string(&s.php),
            },
        );
    }
    let m = config.databases.len();
    let mut databases: Vec<String> = Vec::new();
    for i in 0..m
        invariant
            m == config.databases@.len(),
            databases@.len() == i,
            forall|k: int| 0 <= k < i ==> #[trigger] databases@[k]@ == config.databases@[k]@,
    {
        databases.push(copy_string(&config.databases[i]));
    }
    AnsibleVars {
        ssh_public_key,
        sites,
        php_versions: config.php_versions(),
        db_type: copy_string(&config.database.db_type),
        db_version: copy_string(&config.database.version),
        db_password: copy_string(&config.database.password),
        databases,
        features: config.features.copy(),
        nodejs_version: copy_string(&config.nodejs),
    }
}


/// An action of the provisioning for the program to perform. The program
/// stages the playbooks and the variables file in a directory of its own.
#[derive(Debug)]
pub enum PlaybookAction {
    /// Reply `Done` when `path` is a directory, `Failed` otherwise.
    CheckDirectory(String),
    /// Reply `Done` when the directory `path` holds `playbook.yml`,
    /// `Failed` otherwise.
    CheckPlaybook(String),
    /// Copy the directory `path` into the staging directory.
    CopyPlaybooks(String),
    /// Write the embedded playbooks into the staging directory.
    WriteEmbeddedPlaybooks,
    /// Write the variables file into the staging directory.
    WriteVars,
    /// Run the shell command in the guest and reply with its output.
    Guest(LimaCommand),
    /// Stream the staging directory as a tar archive into this command.
    SendPlaybooks(LimaCommand),
    /// Run the playbook in the guest with its output shown.
    RunPlaybook(LimaCommand),
    /// End the provisioning.
    Finish(Outcome),
}

/// Where the provisioning is.
#[derive(Debug, PartialEq, Eq, Clone, Copy)]
pub enum PlaybookStep {
    Begin,
    DirectoryChecked,
    PlaybookChecked,
    PlaybooksStaged,
    VarsStaged,
    AnsibleChecked,
    AnsibleInstalled,
    GuestDirMade,
    Sent,
    Ran,
    Finished,
}

/// The provisioning of instance `instance` with Ansible, from the embedded
/// playbooks or from the custom directory `custom` once its leading `~` is
/// expanded (into `source`).
#[derive(Debug)]
pub struct PlaybookRun {
    pub instance: String,
    pub custom: Option<String>,
    pub source: Option<String>,
    pub step: PlaybookStep,
}


/// `c` runs `command` in the guest of instance `name`.
pub open spec fn guest_shell(c: LimaCommand, name: Seq<char>, command: Seq<char>) -> bool {
    c matches LimaCommand::Shell { name: n, command: k } && n@ == name && k@ == command
}

impl PlaybookRun {
    /// The provisioning of instance `instance` with the playbooks of
    /// `custom`, or the embedded ones when it is `None`.
    pub fn new(instance: &str, custom: Option<String>) -> (r: PlaybookRun)
        ensures
            r.instance@ == instance@,
            r.custom == custom,
            r.source is None,
            r.step == PlaybookStep::Begin,
    {
        PlaybookRun { instance: owned(instance), custom, source: None, step: PlaybookStep::Begin }
    }

    fn fail(&mut self) -> (a: PlaybookAction)
        ensures
            final(self).instance == old(self).instance,
            final(self).custom == old(self).custom,
            final(self).source == old(self).source,
            final(self).step == PlaybookStep::Finished,
            a == PlaybookAction::Finish(Outcome::ActionFailed),
    {
        self.step = PlaybookStep::Finished;
        PlaybookAction::Finish(Outcome::ActionFailed)
    }

    fn shell(&self, command: &str) -> (c: LimaCommand)
        ensures
            guest_shell(c, self.instance@, command@),
    {
        LimaCommand::Shell { name: self.instance.clone(), command: owned(command) }
    }

    /// The action that follows `reply` to the last one.
    pub fn next(&mut self, reply: Reply) -> (a: PlaybookAction)
        ensures
            final(self).instance == old(self).instance,
            final(self).custom == old(self).custom,
            old(self).step != PlaybookStep::Begin ==> final(self).source == old(self).source,
            old(self).step == PlaybookStep::Begin ==> match old(self).custom {
                Some(p) => final(self).step == PlaybookStep::DirectoryChecked && (final(self).source matches Some(e)
                    && tilde_outcome(p@, e@) && a == PlaybookAction::CheckDirectory(e)),
                None => final(self).step == PlaybookStep::PlaybooksStaged && final(self).source
                    is None && a == PlaybookAction::WriteEmbeddedPlaybooks,
            },
            old(self).step == PlaybookStep::DirectoryChecked ==> match old(self).source {
                Some(e) => if reply is Done {
                    final(self).step == PlaybookStep::PlaybookChecked && a
                        == PlaybookAction::CheckPlaybook(e)
                } else {
                    final(self).step == PlaybookStep::Finished && (a matches PlaybookAction::Finish(
                        Outcome::Error(LimavelError::PlaybooksNotADirectory(p)),
                    ) && p@ == e@)
                },
                None => final(self).step == PlaybookStep::Finished && a == PlaybookAction::Finish(
                    Outcome::ActionFailed,
                ),
            },
            old(self).step == PlaybookStep::PlaybookChecked ==> match old(self).source {
                Some(e) => if reply is Done {
                    final(self).step == PlaybookStep::PlaybooksStaged && a
                        == PlaybookAction::CopyPlaybooks(e)
                } else {
                    final(self).step == PlaybookStep::Finished && (a matches PlaybookAction::Finish(
                        Outcome::Error(LimavelError::PlaybookMissing(p)),
                    ) && p@ == e@)
                },
                None => final(self).step == PlaybookStep::Finished && a == PlaybookAction::Finish(
                    Outcome::ActionFailed,
                ),
            },
            old(self).step == PlaybookStep::PlaybooksStaged ==> if reply is Done {
                final(self).step == PlaybookStep::VarsStaged && a == PlaybookAction::WriteVars
            } else {
                final(self).step == PlaybookStep::Finished && a == PlaybookAction::Finish(
                    Outcome::ActionFailed,
                )
            },
            old(self).step == PlaybookStep::VarsStaged ==> if reply is Done {
                final(self).step == PlaybookStep::AnsibleChecked && (a matches PlaybookAction::Guest(
                    c,
                ) && guest_shell(c, old(self).instance@, CHECK_ANSIBLE@))
            } else {
                final(self).step == PlaybookStep::Finished && a == PlaybookAction::Finish(
                    Outcome::ActionFailed,
                )
            },
            old(self).step == PlaybookStep::AnsibleChecked ==> if reply is Text {
                final(self).step == PlaybookStep::GuestDirMade && (a matches PlaybookAction::Guest(
                    c,
                ) && guest_shell(c, old(self).instance@, MAKE_ANSIBLE_DIR@))
            } else {
                final(self).step == PlaybookStep::AnsibleInstalled && (a matches PlaybookAction::Guest(
                    c,
                ) && guest_shell(c, old(self).instance@, INSTALL_ANSIBLE@))
            },
            old(self).step == PlaybookStep::AnsibleInstalled ==> if reply is Text {
                final(self).step == PlaybookStep::GuestDirMade && (a matches PlaybookAction::Guest(
                    c,
                ) && guest_shell(c, old(self).instance@, MAKE_ANSIBLE_DIR@))
            } else {
                final(self).step == PlaybookStep::Finished && a == PlaybookAction::Finish(
                    Outcome::ActionFailed,
                )
            },
            old(self).step == PlaybookStep::GuestDirMade ==> if reply is Text {
                final(self).step == PlaybookStep::Sent && (a matches PlaybookAction::SendPlaybooks(
                    LimaCommand::ExtractTar { name, remote_dir },
                ) && name@ == old(self).instance@ && remote_dir@ == GUEST_ANSIBLE_DIR@)
            } else {
                final(self).step == PlaybookStep::Finished && a == PlaybookAction::Finish(
                    Outcome::ActionFailed,
                )
            },
            old(self).step == PlaybookStep::Sent ==> if reply is Done {
                final(self).step == PlaybookStep::Ran && (a matches PlaybookAction::RunPlaybook(c)
                    && guest_shell(c, old(self).instance@, RUN_PLAYBOOK@))
            } else {
                final(self).step == PlaybookStep::Finished && a == PlaybookAction::Finish(
                    Outcome::ActionFailed,
                )
            },
            old(self).step == PlaybookStep::Ran ==> final(self).step == PlaybookStep::Finished && a
                == PlaybookAction::Finish(
                if reply is Done {
                    Outcome::Success
                } else {
                    Outcome::ActionFailed
                },
            ),
            old(self).step == PlaybookStep::Finished ==> final(self).step
                == PlaybookStep::Finished && a == PlaybookAction::Finish(Outcome::Success),
    {
        match self.step {
            PlaybookStep::Begin => match &self.custom {
                Some(p) => {
                    let e = LimavelConfig::resolve_path(p.as_str());
                    self.source = Some(e.clone());
                    self.step = PlaybookStep::DirectoryChecked;
                    PlaybookAction::CheckDirectory(e)
                },
                None => {
                    self.source = None;
                    self.step = PlaybookStep::PlaybooksStaged;
                    PlaybookAction::WriteEmbeddedPlaybooks
                },
            },
            PlaybookStep::DirectoryChecked => match &self.source {
                Some(e) => {
                    let e = e.clone();
                    match reply {
                        Reply::Done => {
                            self.step = PlaybookStep::PlaybookChecked;
                            PlaybookAction::CheckPlaybook(e)
                        },
                        _ => {
                            self.step = PlaybookStep::Finished;
                            PlaybookAction::Finish(
                                Outcome::Error(LimavelError::PlaybooksNotADirectory(e)),
                            )
                        },
                    }
                },
                None => self.fail(),
            },
            PlaybookStep::PlaybookChecked => match &self.source {
                Some(e) => {
                    let e = e.clone();
                    match reply {
                        Reply::Done => {
                            self.step = PlaybookStep::PlaybooksStaged;
                            PlaybookAction::CopyPlaybooks(e)
                        },
                        _ => {
                            self.step = PlaybookStep::Finished;
                            PlaybookAction::Finish(Outcome::Error(LimavelError::PlaybookMissing(e)))
                        },
                    }
                },
                None => self.fail(),
            },
            PlaybookStep::PlaybooksStaged => match reply {
                Reply::Done => {
                    self.step = PlaybookStep::VarsStaged;
                    PlaybookAction::WriteVars
                },
                _ => self.fail(),
            },
            PlaybookStep::VarsStaged => match reply {
                Reply::Done => {
                    self.step = PlaybookStep::AnsibleChecked;
                    PlaybookAction::Guest(self.shell(CHECK_ANSIBLE))
                },
                _ => self.fail(),
            },
            PlaybookStep::AnsibleChecked => match reply {
                Reply::Text(_) => {
                    self.step = PlaybookStep::GuestDirMade;
                    PlaybookAction::Guest(self.shell(MAKE_ANSIBLE_DIR))
                },
                _ => {
                    self.step = PlaybookStep::AnsibleInstalled;
                    PlaybookAction::Guest(self.shell(INSTALL_ANSIBLE))
                },
            },
            PlaybookStep::AnsibleInstalled => match reply {
                Reply::Text(_) => {
                    self.step = PlaybookStep::GuestDirMade;
                    PlaybookAction::Guest(self.shell(MAKE_ANSIBLE_DIR))
                },
                _ => self.fail(),
            },
            PlaybookStep::GuestDirMade => match reply {
                Reply::Text(_) => {
                    self.step = PlaybookStep::Sent;
                    PlaybookAction::SendPlaybooks(
                        LimaCommand::ExtractTar {
                            name: self.instance.clone(),
                            remote_dir: owned(GUEST_ANSIBLE_DIR),
                        },
                    )
                },
                _ => self.fail(),
            },
            PlaybookStep::Sent => match reply {
                Reply::Done => {
                    self.step = PlaybookStep::Ran;
                    PlaybookAction::RunPlaybook(self.shell(RUN_PLAYBOOK))
                },
                _ => self.fail(),
            },
            PlaybookStep::Ran => {
                self.step = PlaybookStep::Finished;
                match reply {
                    Reply::Done => PlaybookAction::Finish(Outcome::Success),
                    _ => PlaybookAction::Finish(Outcome::ActionFailed),
                }
            },
            PlaybookStep::Finished => PlaybookAction::Finish(Outcome::Success),
        }
    }
}

} // verus!
