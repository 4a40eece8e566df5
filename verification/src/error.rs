//! The errors of the library and the messages that are shown for them.
use vstd::prelude::*;
use crate::text::owned;

verus! {

/// Everything that can go wrong in limavel.
#[derive(Debug, PartialEq, Eq)]
pub enum LimavelError {
    /// The configuration file to create is already there.
    ConfigAlreadyExists(String),
    /// The configuration file to read is not there.
    ConfigNotFound(String),
    /// `limactl` is not installed.
    LimaNotFound,
    /// The named VM instance does not exist.
    InstanceNotFound(String),
    /// The named VM instance exists but does not run.
    InstanceNotRunning(String),
    /// A `limactl` invocation failed.
    LimactlExec(String),
    /// The SSH public key file is not there.
    SshKeyNotFound(String),
    /// Host directories to mount are missing; the text lists them.
    FoldersNotFound(String),
    /// `limactl list --json` has no record for the named instance.
    InstanceUnknown(String),
    /// The instance record gives no CPU count.
    CpusUnknown(String),
    /// The instance record gives no memory size.
    MemoryUnknown(String),
    /// The instance record gives no disk size.
    DiskUnknown(String),
    /// The guest's `lima0` interface reports no IPv4 address.
    GuestIpUnknown,
    /// A custom playbooks path is not a directory.
    PlaybooksNotADirectory(String),
    /// A custom playbooks directory has no `playbook.yml`.
    PlaybookMissing(String),
}

/// The message shown for `e`.
pub open spec fn error_message(e: LimavelError) -> Seq<char> {
    match e {
        LimavelError::ConfigAlreadyExists(f) => f@ + " already exists in current directory"@,
        LimavelError::ConfigNotFound(f) => f@
            + " not found in current directory. Run 'limavel init' first."@,
        LimavelError::LimaNotFound => "lima-vm (limactl) not found. Install it with: brew install lima"@,
        LimavelError::InstanceNotFound(n) => "VM instance '"@ + n@
            + "' does not exist. Run 'limavel start' first."@,
        LimavelError::InstanceNotRunning(n) => "VM instance '"@ + n@ + "' is not running"@,
        LimavelError::LimactlExec(m) => "Failed to execute limactl: "@ + m@,
        LimavelError::SshKeyNotFound(p) => "SSH key not found: "@ + p@,
        LimavelError::FoldersNotFound(l) => "The following host directories do not exist:\n"@ + l@,
        LimavelError::InstanceUnknown(n) => "Could not find instance '"@ + n@ + "'"@,
        LimavelError::CpusUnknown(n) => "Could not determine cpus for instance '"@ + n@ + "'"@,
        LimavelError::MemoryUnknown(n) => "Could not determine memory for instance '"@ + n@
            + "'"@,
        LimavelError::DiskUnknown(n) => "Could not determine disk size for instance '"@ + n@
            + "'"@,
        LimavelError::GuestIpUnknown => "Could not determine guest IP from lima0 interface"@,
        LimavelError::PlaybooksNotADirectory(p) => "Custom playbooks path '"@ + p@
            + "' does not exist or is not a directory."@,
        LimavelError::PlaybookMissing(p) => "Custom playbooks path '"@ + p@
            + "' does not contain a playbook.yml file."@,
    }
}

fn wrapped(before: &str, middle: &String, after: &str) -> (out: String)
    ensures
        out@ == before@ + middle@ + after@,
{
    let mut out = String::new();
    out.append(before);
    out.append(middle.as_str());
    out.append(after);
    out
}


impl LimavelError {
    /// The message shown for this error.
    pub fn message(&self) -> (m: String)
        ensures
            m@ == error_message(*self),
    {
        proof {
            reveal_strlit("");
        }
        match self {
            LimavelError::ConfigAlreadyExists(f) => wrapped(
                "",
                f,
                " already exists in current directory",
            ),
            LimavelError::ConfigNotFound(f) => wrapped(
                "",
                f,
                " not found in current directory. Run 'limavel init' first.",
            ),
            LimavelError::LimaNotFound => owned(
                "lima-vm (limactl) not found. Install it with: brew install lima",
            ),
            LimavelError::InstanceNotFound(n) => wrapped(
                "VM instance '",
                n,
                "' does not exist. Run 'limavel start' first.",
            ),
            LimavelError::InstanceNotRunning(n) => wrapped("VM instance '", n, "' is not running"),
            LimavelError::LimactlExec(m) => wrapped("Failed to execute limactl: ", m, ""),
            LimavelError::SshKeyNotFound(p) => wrapped("SSH key not found: ", p, ""),
            LimavelError::FoldersNotFound(l) => wrapped(
                "The following host directories do not exist:\n",
                l,
                "",
            ),
            LimavelError::InstanceUnknown(n) => wrapped("Could not find instance '", n, "'"),
            LimavelError::CpusUnknown(n) => wrapped(
                "Could not determine cpus for instance '",
                n,
                "'",
            ),
            LimavelError::MemoryUnknown(n) => wrapped(
                "Could not determine memory for instance '",
                n,
                "'",
            ),
            LimavelError::DiskUnknown(n) => wrapped(
                "Could not determine disk size for instance '",
                n,
                "'",
            ),
            LimavelError::GuestIpUnknown => owned(
                "Could not determine guest IP from lima0 interface",
            ),
            LimavelError::PlaybooksNotADirectory(p) => wrapped(
                "Custom playbooks path '",
                p,
                "' does not exist or is not a directory.",
            ),
            LimavelError::PlaybookMissing(p) => wrapped(
                "Custom playbooks path '",
                p,
                "' does not contain a playbook.yml file.",
            ),
        }
    }
}

} // verus!
