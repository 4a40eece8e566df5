//! What limavel asks of `limactl` and what it reads from the answers: the
//! argument lists of its invocations, and the instance records of
//! `limactl list`.
use vstd::prelude::*;
use crate::error::LimavelError;
use crate::flows::{RestartFlow, RestartStep};
use crate::text::{append_decimal, append_str, chars_of, decimal, lines, owned, split_lines, string_of, trim, trim_chars, trim_str, views};

verus! {

// ---------------------------------------------------------------------
// Invocations
// ---------------------------------------------------------------------

/// An invocation of `limactl`.
#[derive(Debug)]
pub enum LimaCommand {
    /// `limactl list --quiet`: the instance names, one per line.
    ListQuiet,
    /// `limactl list --json`: one JSON record per instance and line.
    ListJson,
    /// Creates instance `name` from the template file at `template_path`.
    Create { name: String, template_path: String },
    Start(String),
    Stop(String),
    /// Changes the resources of a stopped instance; the disk only when given.
    Edit { name: String, cpus: u32, memory_mib: u32, disk_gib: Option<u32> },
    Delete(String),
    /// Runs `command` with bash in the guest, from `/`.
    Shell { name: String, command: String },
    /// Unpacks a tar archive read from standard input into `remote_dir` in
    /// the guest.
    ExtractTar { name: String, remote_dir: String },
    /// Opens a login shell of the `limavel` user in the guest, from `/tmp`.
    Login(String),
}

/// The arguments given to `limactl` for `c`.
pub open spec fn command_args(c: LimaCommand) -> Seq<Seq<char>> {
    match c {
        LimaCommand::ListQuiet => seq!["list"@, "--quiet"@],
        LimaCommand::ListJson => seq!["list"@, "--json"@],
        LimaCommand::Create { name, template_path } => seq![
            "create"@,
            "--name"@,
            name@,
            "--tty=false"@,
            template_path@,
        ],
        LimaCommand::Start(name) => seq!["start"@, name@],
        LimaCommand::Stop(name) => seq!["stop"@, name@],
        LimaCommand::Edit { name, cpus, memory_mib, disk_gib } => {
            let head = seq![
                "edit"@,
                name@,
                "--cpus="@ + decimal(cpus as nat),
                "--memory="@ + decimal(memory_mib as nat) + "MiB"@,
            ];
            match disk_gib {
                Some(d) => head + seq!["--disk="@ + decimal(d as nat) + "GiB"@, "--tty=false"@],
                None => head + seq!["--tty=false"@],
            }
        },
        LimaCommand::Delete(name) => seq!["delete"@, name@],
        LimaCommand::Shell { name, command } => seq![
            "shell"@,
            "--workdir"@,
            "/"@,
            name@,
            "--"@,
            "bash"@,
            "-c"@,
            command@,
        ],
        LimaCommand::ExtractTar { name, remote_dir } => seq![
            "shell"@,
            "--workdir"@,
            "/"@,
            name@,
            "--"@,
            "sudo"@,
            "tar"@,
            "-xf"@,
            "-"@,
            "-C"@,
            remote_dir@,
        ],
        LimaCommand::Login(name) => seq![
            "shell"@,
            "--workdir"@,
            "/tmp"@,
            name@,
            "--"@,
            "sudo"@,
            "-iu"@,
            "limavel"@,
        ],
    }
}



fn flag_value(flag: &str, n: u32, unit: &str) -> (out: String)
    ensures
        out@ == flag@ + decimal(n as nat) + unit@,
{
    let mut v = chars_of(flag);
    append_decimal(&mut v, n as u64);
    append_str(&mut v, unit);
    assert(v@ =~= flag@ + decimal(n as nat) + unit@);
    string_of(&v)
}

fn push_lit(v: &mut Vec<String>, s: &str)
    ensures
        final(v)@.len() == old(v)@.len() + 1,
        forall|i: int| 0 <= i < old(v)@.len() ==> final(v)@[i] == old(v)@[i],
        final(v)@.last()@ == s@,
{
    v.push(owned(s));
}

/// What is reported when the invocation `c`, run with its output shown,
/// exits with an error.
pub open spec fn failure_message(c: LimaCommand) -> Seq<char> {
    match c {
        LimaCommand::Create { .. } => "Failed to create instance"@,
        LimaCommand::Start(_) => "Failed to start instance"@,
        LimaCommand::Stop(_) => "Failed to stop instance"@,
        LimaCommand::Edit { .. } => "Failed to edit instance"@,
        LimaCommand::Delete(_) => "Failed to delete instance"@,
        LimaCommand::ExtractTar { .. } => "Failed to copy files to guest via tar"@,
        LimaCommand::Login(_) => "SSH session exited with error"@,
        _ => "Interactive command failed"@,
    }
}

impl LimaCommand {
    /// The arguments given to `limactl` for this invocation.
    pub fn args(&self) -> (a: Vec<String>)
        ensures
            views(a@) == command_args(*self),
    {
        let mut a: Vec<String> = Vec::new();
        match self {
            LimaCommand::ListQuiet => {
                push_lit(&mut a, "list");
                push_lit(&mut a, "--quiet");
            },
            LimaCommand::ListJson => {
                push_lit(&mut a, "list");
                push_lit(&mut a, "--json");
            },
            LimaCommand::Create { name, template_path } => {
                push_lit(&mut a, "create");
                push_lit(&mut a, "--name");
                a.push(name.clone());
                push_lit(&mut a, "--tty=false");
                a.push(template_path.clone());
            },
            LimaCommand::Start(name) => {
                push_lit(&mut a, "start");
                a.push(name.clone());
            },
            LimaCommand::Stop(name) => {
                push_lit(&mut a, "stop");
                a.push(name.clone());
            },
            LimaCommand::Edit { name, cpus, memory_mib, disk_gib } => {
                push_lit(&mut a, "edit");
                a.push(name.clone());
                a.push(flag_value("--cpus=", *cpus, ""));
                a.push(flag_value("--memory=", *memory_mib, "MiB"));
                match disk_gib {
                    Some(d) => {
                        a.push(flag_value("--disk=", *d, "GiB"));
                    },
                    None => {},
                }
                push_lit(&mut a, "--tty=false");
                proof {
                    reveal_strlit("");
                }
            },
            LimaCommand::Delete(name) => {
                push_lit(&mut a, "delete");
                a.push(name.clone());
            },
            LimaCommand::Shell { name, command } => {
                push_lit(&mut a, "shell");
                push_lit(&mut a, "--workdir");
                push_lit(&mut a, "/");
                a.push(name.clone());
                push_lit(&mut a, "--");
                push_lit(&mut a, "bash");
                push_lit(&mut a, "-c");
                a.push(command.clone());
            },
            LimaCommand::ExtractTar { name, remote_dir } => {
                push_lit(&mut a, "shell");
                push_lit(&mut a, "--workdir");
                push_lit(&mut a, "/");
                a.push(name.clone());
                push_lit(&mut a, "--");
                push_lit(&mut a, "sudo");
                push_lit(&mut a, "tar");
                push_lit(&mut a, "-xf");
                push_lit(&mut a, "-");
                push_lit(&mut a, "-C");
                a.push(remote_dir.clone());
            },
            LimaCommand::Login(name) => {
                push_lit(&mut a, "shell");
                push_lit(&mut a, "--workdir");
                push_lit(&mut a, "/tmp");
                a.push(name.clone());
                push_lit(&mut a, "--");
                push_lit(&mut a, "sudo");
                push_lit(&mut a, "-iu");
                push_lit(&mut a, "limavel");
            },
        }
        assert(views(a@) =~= command_args(*self));
        a
    }

    /// What is reported when this invocation, run with its output shown,
    /// exits with an error.
    pub fn failure_message(&self) -> (m: String)
        ensures
            m@ == failure_message(*self),
    {
        match self {
            LimaCommand::Create { .. } => owned("Failed to create instance"),
            LimaCommand::Start(_) => owned("Failed to start instance"),
            LimaCommand::Stop(_) => owned("Failed to stop instance"),
            LimaCommand::Edit { .. } => owned("Failed to edit instance"),
            LimaCommand::Delete(_) => owned("Failed to delete instance"),
            LimaCommand::ExtractTar { .. } => owned("Failed to copy files to guest via tar"),
            LimaCommand::Login(_) => owned("SSH session exited with error"),
            _ => owned("Interactive command failed"),
        }
    }
}

// ---------------------------------------------------------------------
// Instance records
// ---------------------------------------------------------------------

/// The string that `serde_json` finds under `key` in the JSON object
/// written in `text`; `None` when `text` is not JSON, not an object, has
/// no such key, or holds no string there.
pub uninterp spec fn json_str_at(text: Seq<char>, key: Seq<char>) -> Option<Seq<char>>;

/// The unsigned integer that `serde_json` finds under `key` in the JSON
/// object written in `text`; `None` when `text` is not JSON, not an
/// object, has no such key, or holds no integer that fits in `u64` there.
pub uninterp spec fn json_u64_at(text: Seq<char>, key: Seq<char>) -> Option<u64>;

/// The view of an optional string.
pub open spec fn opt_view(o: Option<String>) -> Option<Seq<char>> {
    match o {
        Some(s) => Some(s@),
        None => None,
    }
}

/// `serde_json::from_str::<Value>`, then `Value::get` and `Value::as_str`:
/// the string under `key` in the JSON object written in `text`. The result
/// is named, as a function of the two texts.
#[verifier::external_body]
fn read_json_str(text: &str, key: &str) -> (r: Option<String>)
    ensures
        opt_view(r) == json_str_at(text@, key@),
{
    let v: serde_json::Value = serde_json::from_str(text).ok()?;
    v.get(key)?.as_str().map(|s| s.to_string())
}

/// `serde_json::from_str::<Value>`, then `Value::get` and `Value::as_u64`:
/// the unsigned integer under `key` in the JSON object written in `text`.
/// The result is named, as a function of the two texts.
#[verifier::external_body]
fn read_json_u64(text: &str, key: &str) -> (r: Option<u64>)
    ensures
        r == json_u64_at(text@, key@),
{
    let v: serde_json::Value = serde_json::from_str(text).ok()?;
    v.get(key)?.as_u64()
}

/// The index of the first name that is `name`.
pub open spec fn first_index_of(names: Seq<Option<Seq<char>>>, name: Seq<char>) -> Option<int>
    decreases names.len(),
{
    if names.len() == 0 {
        None
    } else if names[0] == Some(name) {
        Some(0)
    } else {
        match first_index_of(names.drop_first(), name) {
            Some(i) => Some(i + 1),
            None => None,
        }
    }
}

proof fn lemma_first_index(vs: Seq<Option<Seq<char>>>, name: Seq<char>, j: int)
    requires
        0 <= j <= vs.len(),
        forall|k: int| 0 <= k < j ==> vs[k] != Some(name),
        j == vs.len() || vs[j] == Some(name),
    ensures
        j < vs.len() ==> first_index_of(vs, name) == Some(j),
        j == vs.len() ==> first_index_of(vs, name) is None,
    decreases j,
{
    if j > 0 {
        assert forall|k: int| 0 <= k < j - 1 implies vs.drop_first()[k] != Some(name) by {
            assert(vs.drop_first()[k] == vs[k + 1]);
        }
        lemma_first_index(vs.drop_first(), name, j - 1);
        assert(vs[0] != Some(name));
    }
}

/// The first line of a `limactl list --json` answer whose record is named
/// `name`.
pub open spec fn instance_line(ls: Seq<Seq<char>>, name: Seq<char>) -> Option<Seq<char>> {
    match first_index_of(ls.map_values(|l: Seq<char>| json_str_at(l, "name"@)), name) {
        Some(i) => Some(ls[i]),
        None => None,
    }
}

/// The record of instance `name` in a `limactl list --json` answer.
pub open spec fn instance_record(listing: Seq<char>, name: Seq<char>) -> Option<Seq<char>> {
    instance_line(lines(listing), name)
}

/// The status that a record's `status` field gives, or `Unknown`.
pub open spec fn status_text(field: Option<Seq<char>>) -> Seq<char> {
    match field {
        Some(s) => s,
        None => "Unknown"@,
    }
}

/// The status of instance `name` in a `limactl list --json` answer:
/// `Unknown` when there is no record or the record gives none.
pub open spec fn instance_status_in(listing: Seq<char>, name: Seq<char>) -> Seq<char> {
    match instance_record(listing, name) {
        Some(l) => status_text(json_str_at(l, "status"@)),
        None => "Unknown"@,
    }
}

/// The quantity in a record, in the unit `divisor` makes of it, truncated to
/// `u32` as `as u32` does; or the error for a missing quantity.
pub open spec fn quantity(field: Option<u64>, divisor: u64, missing: LimavelError) -> Result<
    u32,
    LimavelError,
> {
    match field {
        Some(v) => Ok((v / divisor) as u32),
        None => Err(missing),
    }
}

/// The size of a mebibyte, in bytes.
pub const MIB: u64 = 1048576;

/// The size of a gibibyte, in bytes.
pub const GIB: u64 = 1073741824;

/// The lima client: the logic around limavel's `limactl` invocations.
pub struct LimaClient;

impl LimaClient {
    /// Whether a `limactl list --quiet` answer names instance `name`: some
    /// line is `name` once trimmed.
    pub fn instance_exists(listing: &str, name: &str) -> (r: bool)
        ensures
            r == exists|i: int| 0 <= i < lines(listing@).len() && trim(#[trigger] lines(listing@)[i]) == name@,
    {
        let cs = chars_of(listing);
        let ls = split_lines(&cs);
        let target = chars_of(name);
        let n = ls.len();
        for i in 0..n
            invariant
                n == lines(listing@).len(),
                n == ls@.len(),
                cs@ == listing@,
                target@ == name@,
                forall|k: int| 0 <= k < n ==> #[trigger] ls@[k]@ == lines(cs@)[k],
                forall|k: int| 0 <= k < i ==> trim(#[trigger] lines(listing@)[k]) != name@,
        {
            let t = trim_chars(&ls[i]);
            if crate::text::chars_eq(&t, &target) {
                assert(trim(lines(listing@)[i as int]) == name@);
                return true;
            }
        }
        false
    }

    /// The index of the first name that is `name`.
    pub fn first_with_name(names: &[Option<String>], name: &str) -> (r: Option<usize>)
        ensures
            match r {
                Some(i) => i < names@.len() && first_index_of(
                    names@.map_values(|o: Option<String>| opt_view(o)),
                    name@,
                ) == Some(i as int),
                None => first_index_of(names@.map_values(|o: Option<String>| opt_view(o)), name@)
                    is None,
            },
    {
        let ghost vs = names@.map_values(|o: Option<String>| opt_view(o));
        let n = names.len();
        for i in 0..n
            invariant
                n == names@.len(),
                vs == names@.map_values(|o: Option<String>| opt_view(o)),
                forall|k: int| 0 <= k < i ==> vs[k] != Some(name@),
        {
            let found = match &names[i] {
                Some(s) => crate::text::str_eq(s.as_str(), name),
                None => false,
            };
            if found {
                assert(vs[i as int] == Some(name@));
                proof {
                    lemma_first_index(vs, name@, i as int);
                }
                return Some(i);
            }
            assert(vs[i as int] != Some(name@));
        }
        proof {
            lemma_first_index(vs, name@, n as int);
        }
        None
    }

    /// The line of a `limactl list --json` answer that holds the record of
    /// instance `name`: the first line whose `name` field is `name`.
    pub fn find_instance_line(listing: &str, name: &str) -> (r: Option<String>)
        ensures
            opt_view(r) == instance_record(listing@, name@),
    {
        let cs = chars_of(listing);
        let ls = split_lines(&cs);
        let ghost all = lines(listing@);
        let n = ls.len();
        let mut names: Vec<Option<String>> = Vec::new();
        let mut texts: Vec<String> = Vec::new();
        for i in 0..n
            invariant
                n == all.len(),
                n == ls@.len(),
                all == lines(listing@),
                forall|k: int| 0 <= k < n ==> #[trigger] ls@[k]@ == all[k],
                names@.len() == i,
                texts@.len() == i,
                forall|k: int| 0 <= k < i ==> #[trigger] texts@[k]@ == all[k],
                forall|k: int| 0 <= k < i ==> opt_view(#[trigger] names@[k]) == json_str_at(all[k], "name"@),
        {
            let text = string_of(&ls[i]);
            let field = read_json_str(text.as_str(), "name");
            names.push(field);
            texts.push(text);
        }
        let ghost nv = names@.map_values(|o: Option<String>| opt_view(o));
        assert(nv =~= all.map_values(|l: Seq<char>| json_str_at(l, "name"@)));
        let slice = names.as_slice();
        assert(slice@ == names@);
        match LimaClient::first_with_name(slice, name) {
            Some(i) => {
                assert(instance_line(all, name@) == Some(all[i as int]));
                Some(texts[i].clone())
            },
            None => None,
        }
    }

    /// The status that a record's `status` field gives, or `Unknown`.
    pub fn status_or_unknown(field: Option<String>) -> (s: String)
        ensures
            s@ == status_text(opt_view(field)),
    {
        match field {
            Some(s) => s,
            None => owned("Unknown"),
        }
    }

    /// The status of instance `name` in a `limactl list --json` answer;
    /// `Unknown` when the answer has no record of it or the record gives no
    /// status.
    pub fn instance_status(listing: &str, name: &str) -> (s: String)
        ensures
            s@ == instance_status_in(listing@, name@),
    {
        match LimaClient::find_instance_line(listing, name) {
            Some(line) => LimaClient::status_or_unknown(read_json_str(line.as_str(), "status")),
            None => owned("Unknown"),
        }
    }

    /// The quantity in a record's field, divided by `divisor` and truncated
    /// to `u32`; `missing` when the field gives none.
    pub fn quantity_from_field(field: Option<u64>, divisor: u64, missing: LimavelError) -> (r:
        Result<u32, LimavelError>)
        requires
            divisor > 0,
        ensures
            r == quantity(field, divisor, missing),
    {
        match field {
            Some(v) => Ok((v / divisor) as u32),
            None => Err(missing),
        }
    }

    /// The CPU count of instance `name` in a `limactl list --json` answer.
    pub fn instance_cpus(listing: &str, name: &str) -> (r: Result<u32, LimavelError>)
        ensures
            match instance_record(listing@, name@) {
                None => r matches Err(LimavelError::InstanceUnknown(n)) && n@ == name@,
                Some(l) => match json_u64_at(l, "cpus"@) {
                    Some(v) => r == Ok::<u32, LimavelError>(v as u32),
                    None => r matches Err(LimavelError::CpusUnknown(n)) && n@ == name@,
                },
            },
    {
        match LimaClient::find_instance_line(listing, name) {
            None => Err(LimavelError::InstanceUnknown(owned(name))),
            Some(line) => LimaClient::quantity_from_field(
                read_json_u64(line.as_str(), "cpus"),
                1,
                LimavelError::CpusUnknown(owned(name)),
            ),
        }
    }

    /// The memory of instance `name`, in MiB, in a `limactl list --json`
    /// answer (which gives it in bytes).
    pub fn instance_memory_mib(listing: &str, name: &str) -> (r: Result<u32, LimavelError>)
        ensures
            match instance_record(listing@, name@) {
                None => r matches Err(LimavelError::InstanceUnknown(n)) && n@ == name@,
                Some(l) => match json_u64_at(l, "memory"@) {
                    Some(v) => r == Ok::<u32, LimavelError>((v / MIB) as u32),
                    None => r matches Err(LimavelError::MemoryUnknown(n)) && n@ == name@,
                },
            },
    {
        match LimaClient::find_instance_line(listing, name) {
            None => Err(LimavelError::InstanceUnknown(owned(name))),
            Some(line) => LimaClient::quantity_from_field(
                read_json_u64(line.as_str(), "memory"),
                MIB,
                LimavelError::MemoryUnknown(owned(name)),
            ),
        }
    }

    /// The disk size of instance `name`, in GiB, in a `limactl list --json`
    /// answer (which gives it in bytes).
    pub fn instance_disk_gib(listing: &str, name: &str) -> (r: Result<u32, LimavelError>)
        ensures
            match instance_record(listing@, name@) {
                None => r matches Err(LimavelError::InstanceUnknown(n)) && n@ == name@,
                Some(l) => match json_u64_at(l, "disk"@) {
                    Some(v) => r == Ok::<u32, LimavelError>((v / GIB) as u32),
                    None => r matches Err(LimavelError::DiskUnknown(n)) && n@ == name@,
                },
            },
    {
        match LimaClient::find_instance_line(listing, name) {
            None => Err(LimavelError::InstanceUnknown(owned(name))),
            Some(line) => LimaClient::quantity_from_field(
                read_json_u64(line.as_str(), "disk"),
                GIB,
                LimavelError::DiskUnknown(owned(name)),
            ),
        }
    }

    /// The shell command that prints the guest's IPv4 address on `lima0`.
    pub fn guest_ip_query(name: &str) -> (c: LimaCommand)
        ensures
            c matches LimaCommand::Shell { name: n, command } && n@ == name@ && command@
                == "ip -4 addr show lima0 | grep -oP 'inet \\K[0-9.]+'"@,
    {
        LimaCommand::Shell {
            name: owned(name),
            command: owned("ip -4 addr show lima0 | grep -oP 'inet \\K[0-9.]+'"),
        }
    }

    /// The guest's IP address from what `guest_ip_query` printed: the
    /// output trimmed, or an error when nothing is left.
    pub fn guest_ip(output: &str) -> (r: Result<String, LimavelError>)
        ensures
            trim(output@).len() == 0 ==> r == Err::<String, LimavelError>(
                LimavelError::GuestIpUnknown,
            ),
            trim(output@).len() > 0 ==> (r matches Ok(ip) && ip@ == trim(output@)),
    {
        let ip = trim_str(output);
        if ip.as_str().unicode_len() == 0 {
            Err(LimavelError::GuestIpUnknown)
        } else {
            Ok(ip)
        }
    }

    /// Succeeds when instance `name` exists and its status is `Running`.
    pub fn ensure_running(name: &str, exists: bool, status: &str) -> (r: Result<(), LimavelError>)
        ensures
            !exists ==> (r matches Err(LimavelError::InstanceNotFound(n)) && n@ == name@),
            exists && status@ != "Running"@ ==> (r matches Err(
                LimavelError::InstanceNotRunning(n),
            ) && n@ == name@),
            exists && status@ == "Running"@ ==> r is Ok,
    {
        if !exists {
            return Err(LimavelError::InstanceNotFound(owned(name)));
        }
        if !crate::text::str_eq(status, "Running") {
            return Err(LimavelError::InstanceNotRunning(owned(name)));
        }
        Ok(())
    }

    /// The restart of instance `name`: stop it, then start it, each with
    /// its output shown; when the stop fails the start is not run and the
    /// restart fails with the stop's error (see `RestartFlow::next`).
    pub fn restart(name: &str) -> (f: RestartFlow)
        ensures
            f.instance@ == name@,
            f.step == RestartStep::Begin,
    {
        RestartFlow { instance: owned(name), step: RestartStep::Begin }
    }
}

} // verus!
