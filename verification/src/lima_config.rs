//! The Lima instance template that limavel creates a VM from, derived from
//! the limavel configuration.
use vstd::prelude::*;
use crate::config::{tilde_outcome, LimavelConfig};
use crate::text::{append_decimal, append_str, chars_of, decimal, owned, replace_all, replace_chars, string_of};

verus! {

/// A VM image to boot.
#[derive(Debug)]
pub struct LimaImage {
    pub location: String,
    pub arch: String,
}

/// A host directory mounted into the guest.
#[derive(Debug)]
pub struct LimaMount {
    pub location: String,
    /// Where the guest sees it; the guest's default when absent.
    pub mount_point: Option<String>,
    pub writable: bool,
}

/// A network the guest joins.
#[derive(Debug)]
pub struct LimaNetwork {
    pub vz_nat: bool,
}

/// A guest port reachable on a host port.
#[derive(Debug)]
pub struct LimaPortForward {
    pub guest_port: u16,
    pub host_port: u16,
}

/// SSH settings of the instance.
#[derive(Debug)]
pub struct LimaSsh {
    pub load_dot_ssh_pub_keys: bool,
}

/// containerd settings of the instance.
#[derive(Debug)]
pub struct LimaContainerd {
    pub system: bool,
    pub user: bool,
}

/// A script that the instance runs when it is first booted.
#[derive(Debug)]
pub struct LimaProvision {
    pub mode: String,
    pub script: String,
}

/// A Lima instance template.
#[derive(Debug)]
pub struct LimaConfig {
    pub vm_type: String,
    pub os: String,
    pub arch: String,
    pub images: Vec<LimaImage>,
    pub cpus: u32,
    /// Memory with its unit, such as `4096MiB`.
    pub memory: String,
    /// Disk size with its unit, such as `50GiB`.
    pub disk: String,
    pub mount_type: String,
    pub mounts: Vec<LimaMount>,
    pub networks: Vec<LimaNetwork>,
    pub port_forwards: Vec<LimaPortForward>,
    pub ssh: LimaSsh,
    pub containerd: LimaContainerd,
    pub provision: Vec<LimaProvision>,
}

/// The placeholder in a bootstrap script that stands for the SSH key.
pub open spec fn key_placeholder() -> Seq<char> {
    "{ssh_pubkey}"@
}

/// The bootstrap script: `template` with each placeholder replaced by the
/// SSH public key.
pub open spec fn bootstrap_script(template: Seq<char>, ssh_pubkey: Seq<char>) -> Seq<char> {
    replace_all(template, key_placeholder(), ssh_pubkey)
}

/// The bootstrap script: `template` with every `{ssh_pubkey}` replaced by
/// the SSH public key.
pub fn generate_bootstrap_script(template: &str, ssh_pubkey: &str) -> (script: String)
    ensures
        script@ == bootstrap_script(template@, ssh_pubkey@),
{
    let t = chars_of(template);
    let pat = chars_of("{ssh_pubkey}");
    let rep = chars_of(ssh_pubkey);
    proof {
        reveal_strlit("{ssh_pubkey}");
    }
    let out = replace_chars(&t, &pat, &rep);
    string_of(&out)
}

/// The template `c` is the one that `config` gives, with `locations` as the
/// host paths of its folders (in order) and `script` as its bootstrap
/// script: a `vz` Linux VM with the configured image, architecture, CPUs,
/// memory and disk; each folder mounted writable at its guest path,
/// followed by a writable `/tmp/lima`; each configured port forwarded from
/// the host; one `vzNAT` network; the host's SSH keys loaded; containerd
/// off; and the script run in system mode.
pub open spec fn template_of(
    c: LimaConfig,
    config: LimavelConfig,
    locations: Seq<Seq<char>>,
    script: Seq<char>,
) -> bool {
    let folders = config.folders@;
    let ports = config.ports@;
    &&& c.vm_type@ == "vz"@
    &&& c.os@ == "Linux"@
    &&& c.arch@ == config.arch@
    &&& c.images@.len() == 1
    &&& c.images@[0].location@ == config.image@
    &&& c.images@[0].arch@ == config.arch@
    &&& c.cpus == config.cpus
    &&& c.memory@ == decimal(config.memory as nat) + "MiB"@
    &&& c.disk@ == decimal(config.disk as nat) + "GiB"@
    &&& c.mount_type@ == "virtiofs"@
    &&& c.mounts@.len() == folders.len() + 1
    &&& forall|i: int|
        0 <= i < folders.len() ==> {
            &&& (#[trigger] c.mounts@[i]).location@ == locations[i]
            &&& c.mounts@[i].mount_point matches Some(p) && p@ == folders[i].to@
            &&& c.mounts@[i].writable
        }
    &&& c.mounts@[folders.len() as int].location@ == "/tmp/lima"@
    &&& c.mounts@[folders.len() as int].mount_point is None
    &&& c.mounts@[folders.len() as int].writable
    &&& c.networks@.len() == 1
    &&& c.networks@[0].vz_nat
    &&& c.port_forwards@.len() == ports.len()
    &&& forall|i: int|
        0 <= i < ports.len() ==> (#[trigger] c.port_forwards@[i]).guest_port == ports[i].to
            && c.port_forwards@[i].host_port == ports[i].send
    &&& c.ssh.load_dot_ssh_pub_keys
    &&& !c.containerd.system
    &&& !c.containerd.user
    &&& c.provision@.len() == 1
    &&& c.provision@[0].mode@ == "system"@
    &&& c.provision@[0].script@ == script
}


/// A template that `config` gives mounts each folder at its own guest
/// path, from the host path found for it, writable; then `/tmp/lima`; and
/// forwards each configured host port to its own guest port. So two
/// folders with different guest paths are mounted at different places.
pub proof fn law_template_follows_folders(
    c: LimaConfig,
    config: LimavelConfig,
    locations: Seq<Seq<char>>,
    script: Seq<char>,
)
    requires
        template_of(c, config, locations, script),
    ensures
        c.mounts@.len() == config.folders@.len() + 1,
        forall|i: int|
            0 <= i < config.folders@.len() ==> ((#[trigger] c.mounts@[i]).mount_point matches Some(
                p,
            ) && p@ == config.folders@[i].to@) && c.mounts@[i].location@ == locations[i]
                && c.mounts@[i].writable,
        forall|i: int, j: int|
            0 <= i < config.folders@.len() && 0 <= j < config.folders@.len()
                && config.folders@[i].to@ != config.folders@[j].to@ ==> (#[trigger] c.mounts@[i]).mount_point
                != (#[trigger] c.mounts@[j]).mount_point,
        c.mounts@.last().location@ == "/tmp/lima"@,
        c.mounts@.last().mount_point is None,
        c.port_forwards@.len() == config.ports@.len(),
        forall|i: int|
            0 <= i < config.ports@.len() ==> (#[trigger] c.port_forwards@[i]).host_port
                == config.ports@[i].send && c.port_forwards@[i].guest_port == config.ports@[i].to,
        c.provision@.len() == 1 && c.provision@[0].script@ == script,
        c.cpus == config.cpus,
        c.memory@ == decimal(config.memory as nat) + "MiB"@,
        c.disk@ == decimal(config.disk as nat) + "GiB"@,
        c.images@.len() == 1 && c.images@[0].location@ == config.image@ && c.images@[0].arch@
            == config.arch@,
{
    assert forall|i: int, j: int|
        0 <= i < config.folders@.len() && 0 <= j < config.folders@.len()
            && config.folders@[i].to@ != config.folders@[j].to@ implies (#[trigger] c.mounts@[i]).mount_point
            != (#[trigger] c.mounts@[j]).mount_point by {
        assert(c.mounts@[i].mount_point matches Some(p) && p@ == config.folders@[i].to@);
        assert(c.mounts@[j].mount_point matches Some(p) && p@ == config.folders@[j].to@);
    }
}

fn with_unit(n: u32, unit: &str) -> (out: String)
    ensures
        out@ == decimal(n as nat) + unit@,
{
    let mut v: Vec<char> = Vec::new();
    append_decimal(&mut v, n as u64);
    append_str(&mut v, unit);
    assert(v@ =~= decimal(n as nat) + unit@);
    string_of(&v)
}

impl LimaConfig {
    /// The template for `config`, with `locations` as the host paths of its
    /// folders and `script` as its bootstrap script.
    pub fn assemble(config: &LimavelConfig, locations: &[String], script: String) -> (c: LimaConfig)
        requires
            locations@.len() == config.folders@.len(),
        ensures
            template_of(c, *config, locations@.map_values(|s: String| s@), script@),
    {
        let ghost locs = locations@.map_values(|s: String| s@);
        let n = config.folders.len();
        let mut mounts: Vec<LimaMount> = Vec::new();
        for i in 0..n
            invariant
                n == config.folders@.len(),
                n == locations@.len(),
                locs == locations@.map_values(|s: String| s@),
                mounts@.len() == i,
                forall|k: int|
                    0 <= k < i ==> {
                        &&& (#[trigger] mounts@[k]).location@ == locs[k]
                        &&& mounts@[k].mount_point matches Some(p) && p@
                            == config.folders@[k].to@
                        &&& mounts@[k].writable
                    },
        {
            mounts.push(
                LimaMount {
                    location: locations[i].clone(),
                    mount_point: Some(config.folders[i].to.clone()),
                    writable: true,
                },
            );
        }
        mounts.push(LimaMount { location: owned("/tmp/lima"), mount_point: None, writable: true });
        let m = config.ports.len();
        let mut port_forwards: Vec<LimaPortForward> = Vec::new();
        for i in 0..m
            invariant
                m == config.ports@.len(),
                port_forwards@.len() == i,
                forall|k: int|
                    0 <= k < i ==> (#[trigger] port_forwards@[k]).guest_port
                        == config.ports@[k].to && port_forwards@[k].host_port
                        == config.ports@[k].send,
        {
            let p = config.ports[i];
            port_forwards.push(LimaPortForward { guest_port: p.to, host_port: p.send });
        }
        let mut images: Vec<LimaImage> = Vec::new();
        images.push(LimaImage { location: config.image.clone(), arch: config.arch.clone() });
        let mut networks: Vec<LimaNetwork> = Vec::new();
        networks.push(LimaNetwork { vz_nat: true });
        let mut provision: Vec<LimaProvision> = Vec::new();
        provision.push(LimaProvision { mode: owned("system"), script });
        LimaConfig {
            vm_type: owned("vz"),
            os: owned("Linux"),
            arch: config.arch.clone(),
            images,
            cpus: config.cpus,
            memory: with_unit(config.memory, "MiB"),
            disk: with_unit(config.disk, "GiB"),
            mount_type: owned("virtiofs"),
            mounts,
            networks,
            port_forwards,
            ssh: LimaSsh { load_dot_ssh_pub_keys: true },
            containerd: LimaContainerd { system: false, user: false },
            provision,
        }
    }

    /// The template for `config`: each folder's host path has its leading
    /// `~` expanded, and the bootstrap script is `bootstrap_template` with
    /// the SSH public key filled in.
    pub fn from_config(config: &LimavelConfig, ssh_pubkey: &str, bootstrap_template: &str) -> (c:
        LimaConfig)
        ensures
            exists|locations: Seq<Seq<char>>|
                {
                    &&& locations.len() == config.folders@.len()
                    &&& forall|i: int|
                        0 <= i < locations.len() ==> tilde_outcome(
                            config.folders@[i].map@,
                            #[trigger] locations[i],
                        )
                    &&& template_of(
                        c,
                        *config,
                        locations,
                        bootstrap_script(bootstrap_template@, ssh_pubkey@),
                    )
                },
    {
        let locations = config.folder_locations();
        let script = generate_bootstrap_script(bootstrap_template, ssh_pubkey);
        let c = LimaConfig::assemble(config, locations.as_slice(), script);
        let ghost locs = locations@.map_values(|s: String| s@);
        assert forall|i: int| 0 <= i < locs.len() implies tilde_outcome(
            config.folders@[i].map@,
            #[trigger] locs[i],
        ) by {
            assert(locs[i] == locations@[i]@);
        }
        c
    }
}

} // verus!
