//! The decisions of limavel's commands.
use vstd::prelude::*;
use crate::text::{append_decimal, append_str, chars_of, decimal, string_of, trim, trim_chars};

verus! {

/// Whether an answer to a yes/no question is a yes: once trimmed, it is
/// `y` in either case.
pub fn confirmed(input: &str) -> (yes: bool)
    ensures
        yes == (trim(input@) == seq!['y'] || trim(input@) == seq!['Y']),
{
    let t = trim_chars(&chars_of(input));
    let yes = t.len() == 1 && (t[0] == 'y' || t[0] == 'Y');
    assert(yes ==> (t@ =~= seq!['y'] || t@ =~= seq!['Y']));
    yes
}

/// A change of a VM's resources.
#[derive(Debug)]
pub struct ResourceChange {
    pub cpus: u32,
    /// Memory in MiB.
    pub memory: u32,
    /// The new disk size in GiB, when the disk grows.
    pub disk: Option<u32>,
    /// What changes, such as `cpus: 2 -> 4, disk: 50GiB -> 60GiB`.
    pub summary: String,
}

/// `parts` joined by `sep`.
pub open spec fn join_with(parts: Seq<Seq<char>>, sep: Seq<char>) -> Seq<char>
    decreases parts.len(),
{
    if parts.len() == 0 {
        Seq::empty()
    } else if parts.len() == 1 {
        parts[0]
    } else {
        join_with(parts.drop_last(), sep) + sep + parts.last()
    }
}

/// The description of each resource that changes: the CPU count and the
/// memory when they differ, the disk when it grows.
pub open spec fn change_parts(
    cpus: u32,
    memory: u32,
    disk: u32,
    current_cpus: u32,
    current_memory: u32,
    current_disk: u32,
) -> Seq<Seq<char>> {
    let c = if cpus != current_cpus {
        seq!["cpus: "@ + decimal(current_cpus as nat) + " -> "@ + decimal(cpus as nat)]
    } else {
        Seq::empty()
    };
    let m = if memory != current_memory {
        seq![
            "memory: "@ + decimal(current_memory as nat) + "MiB -> "@ + decimal(memory as nat)
                + "MiB"@,
        ]
    } else {
        Seq::empty()
    };
    let d = if disk > current_disk {
        seq!["disk: "@ + decimal(current_disk as nat) + "GiB -> "@ + decimal(disk as nat) + "GiB"@]
    } else {
        Seq::empty()
    };
    c + m + d
}

/// The change that brings a VM with `current_*` resources to the configured
/// ones: none when the CPU count and memory agree and the disk does not
/// grow; otherwise the configured CPU count and memory, the configured disk
/// size only when it is larger (a disk never shrinks), and the list of what
/// changes.
pub fn plan_resource_changes(
    cpus: u32,
    memory: u32,
    disk: u32,
    current_cpus: u32,
    current_memory: u32,
    current_disk: u32,
) -> (r: Option<ResourceChange>)
    ensures
        (cpus == current_cpus && memory == current_memory && disk <= current_disk) <==> r is None,
        r matches Some(ch) ==> {
            &&& ch.cpus == cpus
            &&& ch.memory == memory
            &&& ch.disk == if disk > current_disk {
                Some(disk)
            } else {
                None
            }
            &&& ch.summary@ == join_with(
                change_parts(cpus, memory, disk, current_cpus, current_memory, current_disk),
                ", "@,
            )
        },
{
    let cpus_changed = cpus != current_cpus;
    let memory_changed = memory != current_memory;
    let disk_changed = disk > current_disk;
    if !(cpus_changed || memory_changed || disk_changed) {
        return None;
    }
    let ghost parts = change_parts(cpus, memory, disk, current_cpus, current_memory, current_disk);
    let mut text: Vec<char> = Vec::new();
    let mut count: usize = 0;
    let ghost done: Seq<Seq<char>> = Seq::empty();
    assert(text@ =~= join_with(done, ", "@));
    if cpus_changed {
        let ghost before = text@;
        append_str(&mut text, "cpus: ");
        append_decimal(&mut text, current_cpus as u64);
        append_str(&mut text, " -> ");
        append_decimal(&mut text, cpus as u64);
        proof {
            let p = "cpus: "@ + decimal(current_cpus as nat) + " -> "@ + decimal(cpus as nat);
            assert(text@ =~= before + p);
            lemma_join_push(done, p, ", "@);
            done = done.push(p);
        }
        count = count + 1;
    }
    assert(text@ == join_with(done, ", "@));
    assert(done.len() == count);
    if memory_changed {
        let ghost before = text@;
        if count > 0 {
            append_str(&mut text, ", ");
        }
        let ghost sep_part = text@;
        append_str(&mut text, "memory: ");
        append_decimal(&mut text, current_memory as u64);
        append_str(&mut text, "MiB -> ");
        append_decimal(&mut text, memory as u64);
        append_str(&mut text, "MiB");
        proof {
            let p = "memory: "@ + decimal(current_memory as nat) + "MiB -> "@ + decimal(
                memory as nat,
            ) + "MiB"@;
            assert(text@ =~= sep_part + p);
            lemma_join_push(done, p, ", "@);
            done = done.push(p);
        }
        count = count + 1;
    }
    assert(text@ == join_with(done, ", "@));
    assert(done.len() == count);
    if disk_changed {
        if count > 0 {
            append_str(&mut text, ", ");
        }
        let ghost sep_part = text@;
        append_str(&mut text, "disk: ");
        append_decimal(&mut text, current_disk as u64);
        append_str(&mut text, "GiB -> ");
        append_decimal(&mut text, disk as u64);
        append_str(&mut text, "GiB");
        proof {
            let p = "disk: "@ + decimal(current_disk as nat) + "GiB -> "@ + decimal(disk as nat)
                + "GiB"@;
            assert(text@ =~= sep_part + p);
            lemma_join_push(done, p, ", "@);
            done = done.push(p);
        }
    }
    assert(done =~= parts);
    Some(
        ResourceChange {
            cpus,
            memory,
            disk: if disk_changed {
                Some(disk)
            } else {
                None
            },
            summary: string_of(&text),
        },
    )
}

proof fn lemma_join_push(parts: Seq<Seq<char>>, p: Seq<char>, sep: Seq<char>)
    ensures
        join_with(parts.push(p), sep) == if parts.len() == 0 {
            p
        } else {
            join_with(parts, sep) + sep + p
        },
{
    assert(parts.push(p).drop_last() =~= parts);
}

/// The new disk size for an edit: the configured one when it is larger
/// than the current one; otherwise none, as a disk never shrinks.
pub fn grown_disk(disk: u32, current_disk: u32) -> (r: Option<u32>)
    ensures
        r == if disk > current_disk {
            Some(disk)
        } else {
            None::<u32>
        },
{
    if disk > current_disk {
        Some(disk)
    } else {
        None
    }
}

} // verus!
