//! The command line of limavel.
use vstd::prelude::*;

verus! {

/// The parsed command line.
#[derive(Debug)]
pub struct Cli {
    pub command: Commands,
}

/// The subcommands. Each names the instance whose `<name>.yaml` it reads;
/// the name is `limavel` when none is given.
#[derive(Debug)]
pub enum Commands {
    /// Initialize a new configuration file.
    Init { name: String },
    /// Start the development VM, creating it if needed; `no_hosts` leaves
    /// `/etc/hosts` alone.
    Start { name: String, no_hosts: bool },
    /// Stop the development VM; `no_hosts` keeps its `/etc/hosts` entries.
    Stop { name: String, no_hosts: bool },
    /// Restart the development VM.
    Reboot { name: String },
    /// Re-provision the development VM.
    Provision { name: String },
    /// Open a shell in the development VM.
    Ssh { name: String },
    /// Show the VM instance status.
    Status { name: String },
    /// Apply the configured resources (memory, CPUs, disk) to the VM.
    Edit { name: String },
    /// Destroy the VM instance.
    Destroy { name: String },
    /// Write the bootstrap scripts and playbooks into the directory `path`.
    Publish { path: String },
}

/// The instance name used when the command line gives none.
pub fn default_instance_name() -> (name: String)
    ensures
        name@ == "limavel"@,
{
    let mut name = String::new();
    name.append("limavel");
    assert(name@ =~= "limavel"@);
    name
}

} // verus!
