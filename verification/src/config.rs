//! The limavel configuration (`<name>.yaml`): the VM's resources, the host
//! folders to mount, the sites and databases to provision.
use vstd::prelude::*;
use crate::error::LimavelError;
use crate::text::{append_str, chars_lt, chars_of, lex_lt, lemma_lex_irreflexive, lemma_lex_total, lemma_lex_transitive, string_of};

verus! {

/// A host folder mounted into the guest.
#[derive(Debug)]
pub struct FolderMap {
    /// The host path; a leading `~` stands for the home directory.
    pub map: String,
    /// The mount point in the guest.
    pub to: String,
}

/// A site served by the guest.
#[derive(Debug)]
pub struct SiteMap {
    /// The site's domain.
    pub map: String,
    /// The document root in the guest.
    pub to: String,
    /// The PHP version that serves the site.
    pub php: String,
}

/// The database server to install.
#[derive(Debug)]
pub struct DatabaseConfig {
    /// The kind of server (`type` in the file).
    pub db_type: String,
    /// Its version.
    pub version: String,
    /// The password of its administrative user.
    pub password: String,
}

/// A YAML value of `serde_yml`, carried through unread.
#[verifier::external_type_specification]
#[verifier::external_body]
#[allow(deprecated)]
pub struct ExYamlValue(serde_yml::Value);

/// Optional software to install.
#[derive(Debug)]
pub struct Features {
    pub ohmyzsh: bool,
    pub webdriver: bool,
    pub mailpit: bool,
    pub mongodb: bool,
    pub valkey: bool,
    /// The other keys of the section, with their values, handed on to the
    /// playbook as they are.
    #[allow(deprecated)]
    pub extra: Vec<(String, serde_yml::Value)>,
}

/// `a` holds the same features as `b`: the same flags, and the same extra
/// keys with the same values, in the same order.
pub open spec fn same_features(a: Features, b: Features) -> bool {
    &&& a.ohmyzsh == b.ohmyzsh
    &&& a.webdriver == b.webdriver
    &&& a.mailpit == b.mailpit
    &&& a.mongodb == b.mongodb
    &&& a.valkey == b.valkey
    &&& a.extra@.len() == b.extra@.len()
    &&& forall|i: int|
        0 <= i < a.extra@.len() ==> (#[trigger] a.extra@[i]).0@ == b.extra@[i].0@ && a.extra@[i].1
            == b.extra@[i].1
}

/// `Clone::clone` on a YAML value, which `serde_yml` derives: the copy is
/// the same value.
#[verifier::external_body]
#[allow(deprecated)]
fn clone_value(v: &serde_yml::Value) -> (c: serde_yml::Value)
    ensures
        c == *v,
{
    v.clone()
}

impl Features {
    /// A copy of these features.
    pub fn copy(&self) -> (c: Features)
        ensures
            same_features(c, *self),
    {
        let n = self.extra.len();
        let mut extra: Vec<(String, serde_yml::Value)> = Vec::new();
        for i in 0..n
            invariant
                n == self.extra@.len(),
                extra@.len() == i,
                forall|k: int|
                    0 <= k < i ==> (#[trigger] extra@[k]).0@ == self.extra@[k].0@ && extra@[k].1
                        == self.extra@[k].1,
        {
            let (key, value) = &self.extra[i];
            extra.push((key.clone(), clone_value(value)));
        }
        Features {
            ohmyzsh: self.ohmyzsh,
            webdriver: self.webdriver,
            mailpit: self.mailpit,
            mongodb: self.mongodb,
            valkey: self.valkey,
            extra,
        }
    }
}

/// A port of the host forwarded to a port of the guest.
#[derive(Debug, Clone, Copy)]
pub struct PortMap {
    /// The host port.
    pub send: u16,
    /// The guest port.
    pub to: u16,
}

/// The configuration of one development VM.
#[derive(Debug)]
pub struct LimavelConfig {
    /// The name of the Lima instance.
    pub name: String,
    /// Memory in MiB.
    pub memory: u32,
    pub cpus: u32,
    /// Disk size in GiB.
    pub disk: u32,
    /// The location of the VM image.
    pub image: String,
    pub arch: String,
    /// The path of the SSH public key to authorize in the guest.
    pub authorize: String,
    pub keys: Vec<String>,
    pub folders: Vec<FolderMap>,
    pub sites: Vec<SiteMap>,
    pub databases: Vec<String>,
    pub database: DatabaseConfig,
    pub features: Features,
    pub ports: Vec<PortMap>,
    /// The Node.js major version.
    pub nodejs: String,
    /// A custom bootstrap script to use in place of the embedded one.
    pub bootstrap: Option<String>,
    /// A custom playbooks directory to use in place of the embedded one.
    pub playbooks: Option<String>,
}

/// The disk size, in GiB, when the file gives none.
pub fn default_disk() -> (d: u32)
    ensures
        d == 50,
{
    50
}

/// The Node.js version when the file gives none.
pub fn default_nodejs() -> (v: String)
    ensures
        v@ == "24"@,
{
    let mut v = String::new();
    v.append("24");
    assert(v@ =~= "24"@);
    v
}

// ---------------------------------------------------------------------
// Tilde expansion
// ---------------------------------------------------------------------

/// `path` starts with a tilde that a home directory may replace: the tilde
/// stands alone or is followed by a path separator.
pub open spec fn tilde_prefixed(path: Seq<char>) -> bool {
    path.len() > 0 && path[0] == '~' && (path.len() == 1 || path[1] == '/' || path[1] == '\\')
}

/// What tilde expansion may give for `path`: the path itself when it does
/// not start with an expandable tilde; otherwise the path itself (no home
/// directory known) or some home directory followed by the path after the
/// tilde.
pub open spec fn tilde_outcome(path: Seq<char>, expanded: Seq<char>) -> bool {
    if tilde_prefixed(path) {
        expanded == path || exists|home: Seq<char>| expanded == home + path.drop_first()
    } else {
        expanded == path
    }
}

/// `shellexpand::tilde`: replaces a leading `~` (alone or before `/`) by
/// the home directory that `dirs::home_dir` reports, and leaves the input
/// as it is otherwise or when no home directory is known. The home
/// directory comes from the environment, so only its place in the result
/// is stated.
#[verifier::external_body]
fn expand_tilde(path: &str) -> (expanded: String)
    ensures
        tilde_outcome(path@, expanded@),
{
    shellexpand::tilde(path).to_string()
}

// ---------------------------------------------------------------------
// The configuration's own functions
// ---------------------------------------------------------------------

/// The views of the PHP versions of the sites.
pub open spec fn site_php(sites: Seq<SiteMap>, i: int) -> Seq<char> {
    sites[i].php@
}

/// `s` is sorted strictly ascending, so it holds no duplicate.
pub open spec fn strictly_sorted(s: Seq<String>) -> bool {
    forall|i: int, j: int| 0 <= i < j < s.len() ==> lex_lt(#[trigger] s[i]@, #[trigger] s[j]@)
}

/// The text of a folder that does not exist: `  - <map> (<expanded>)`.
pub open spec fn missing_folder_line(map: Seq<char>, expanded: Seq<char>) -> Seq<char> {
    "  - "@ + map + " ("@ + expanded + ")"@
}

/// The lines for the folders whose check found no directory, joined by
/// line feeds.
pub open spec fn missing_folders_text(folders: Seq<FolderMap>, checked: Seq<(String, bool)>) -> Seq<
    char,
>
    decreases folders.len(),
{
    if folders.len() == 0 {
        Seq::empty()
    } else {
        let before = missing_folders_text(folders.drop_last(), checked);
        let i = folders.len() - 1;
        if checked[i].1 {
            before
        } else if before.len() == 0 {
            missing_folder_line(folders[i].map@, checked[i].0@)
        } else {
            before + "\n"@ + missing_folder_line(folders[i].map@, checked[i].0@)
        }
    }
}

/// The number of folders whose check found no directory.
pub open spec fn missing_count(checked: Seq<(String, bool)>) -> nat
    decreases checked.len(),
{
    if checked.len() == 0 {
        0
    } else {
        missing_count(checked.drop_last()) + if checked.last().1 {
            0nat
        } else {
            1nat
        }
    }
}

/// `x` occurs in `s`.
pub open spec fn has_infix(s: Seq<char>, x: Seq<char>) -> bool {
    exists|a: Seq<char>, b: Seq<char>| s == a + x + b
}

/// No folder is missing exactly when every check found a directory.
pub proof fn law_missing_count(checked: Seq<(String, bool)>)
    ensures
        (missing_count(checked) == 0) <==> forall|i: int| 0 <= i < checked.len() ==> #[trigger] checked[i].1,
    decreases checked.len(),
{
    if checked.len() > 0 {
        let rest = checked.drop_last();
        law_missing_count(rest);
        if missing_count(checked) == 0 {
            assert forall|i: int| 0 <= i < checked.len() implies #[trigger] checked[i].1 by {
                if i < checked.len() - 1 {
                    assert(rest[i] == checked[i]);
                }
            }
        }
        if forall|i: int| 0 <= i < checked.len() ==> #[trigger] checked[i].1 {
            assert forall|i: int| 0 <= i < rest.len() implies #[trigger] rest[i].1 by {
                assert(rest[i] == checked[i]);
            }
            assert(checked[checked.len() - 1].1);
        }
    }
}

/// The text of the missing folders names each folder whose check found no
/// directory, with the path that was checked.
pub proof fn law_missing_folders_listed(folders: Seq<FolderMap>, checked: Seq<(String, bool)>, i: int)
    requires
        folders.len() <= checked.len(),
        0 <= i < folders.len(),
        !checked[i].1,
    ensures
        has_infix(
            missing_folders_text(folders, checked),
            missing_folder_line(folders[i].map@, checked[i].0@),
        ),
    decreases folders.len(),
{
    let n = folders.len();
    let before = missing_folders_text(folders.drop_last(), checked);
    let x = missing_folder_line(folders[i].map@, checked[i].0@);
    let t = missing_folders_text(folders, checked);
    let empty = Seq::<char>::empty();
    if i == n - 1 {
        if before.len() == 0 {
            assert(t =~= empty + x + empty);
        } else {
            assert(t =~= (before + "\n"@) + x + empty);
        }
    } else {
        assert(folders.drop_last()[i] == folders[i]);
        law_missing_folders_listed(folders.drop_last(), checked, i);
        let (a, b): (Seq<char>, Seq<char>) = choose|a: Seq<char>, b: Seq<char>| before == a + x + b;
        let line = missing_folder_line(folders[n - 1].map@, checked[n - 1].0@);
        if checked[n - 1].1 {
            assert(t == before);
        } else if before.len() == 0 {
            assert(x.len() > 0) by {
                reveal_strlit("  - ");
            }
            assert(false);
        } else {
            assert(t =~= a + x + (b + "\n"@ + line));
        }
    }
}

/// Some element of `v` has the view `x`.
pub open spec fn has_view(v: Seq<String>, x: Seq<char>) -> bool {
    exists|i: int| 0 <= i < v.len() && #[trigger] v[i]@ == x
}

/// Inserts `s` into the strictly sorted `out`, unless it is already there.
fn insert_sorted(out: &mut Vec<String>, s: &String)
    requires
        strictly_sorted(old(out)@),
    ensures
        strictly_sorted(final(out)@),
        forall|x: Seq<char>|
            #[trigger] has_view(final(out)@, x) <==> (has_view(old(out)@, x) || x == s@),
{
    let v = chars_of(s.as_str());
    let mut p: usize = 0;
    while p < out.len() && chars_lt(&chars_of(out[p].as_str()), &v)
        invariant
            p <= out@.len(),
            v@ == s@,
            forall|q: int| 0 <= q < p ==> lex_lt(#[trigger] out@[q]@, v@),
        decreases out@.len() - p,
    {
        p = p + 1;
    }
    let ghost old_out = out@;
    if p < out.len() && out[p] == *s {
        assert(old_out[p as int]@ == s@);
        assert(has_view(old_out, s@));
        return;
    }
    proof {
        if p < old_out.len() {
            lemma_lex_total(old_out[p as int]@, v@);
        }
    }
    out.insert(p, s.clone());
    proof {
        assert(out@ =~= old_out.take(p as int).push(*s) + old_out.skip(p as int));
        assert forall|i: int, j: int| 0 <= i < j < out@.len() implies lex_lt(
            #[trigger] out@[i]@,
            #[trigger] out@[j]@,
        ) by {
            if j < p {
                assert(out@[i] == old_out[i]);
                assert(out@[j] == old_out[j]);
            } else if j == p {
                assert(out@[i] == old_out[i]);
            } else if i < p {
                assert(out@[i] == old_out[i]);
                assert(out@[j] == old_out[j - 1]);
                assert(lex_lt(old_out[i]@, v@));
                if j - 1 > p {
                    assert(lex_lt(old_out[p as int]@, old_out[j - 1]@));
                    lemma_lex_transitive(v@, old_out[p as int]@, old_out[j - 1]@);
                }
                lemma_lex_transitive(old_out[i]@, v@, old_out[j - 1]@);
            } else if i == p {
                assert(out@[j] == old_out[j - 1]);
                if j - 1 > p {
                    assert(lex_lt(old_out[p as int]@, old_out[j - 1]@));
                    lemma_lex_transitive(v@, old_out[p as int]@, old_out[j - 1]@);
                }
            } else {
                assert(out@[i] == old_out[i - 1]);
                assert(out@[j] == old_out[j - 1]);
            }
        }
        assert forall|x: Seq<char>| #[trigger] has_view(out@, x) <==> (has_view(old_out, x)
            || x == s@) by {
            if has_view(out@, x) {
                let i = choose|i: int| 0 <= i < out@.len() && #[trigger] out@[i]@ == x;
                if i < p {
                    assert(out@[i] == old_out[i]);
                } else if i > p {
                    assert(out@[i] == old_out[i - 1]);
                }
            }
            if has_view(old_out, x) {
                let i = choose|i: int| 0 <= i < old_out.len() && #[trigger] old_out[i]@ == x;
                if i < p {
                    assert(out@[i] == old_out[i]);
                } else {
                    assert(out@[i + 1] == old_out[i]);
                }
            }
            if x == s@ {
                assert(out@[p as int]@ == x);
            }
        }
    }
}

impl LimavelConfig {
    /// The name of the configuration file of instance `name`: `<name>.yaml`.
    pub fn config_path(name: &str) -> (path: String)
        ensures
            path@ == name@ + ".yaml"@,
    {
        let mut p = String::new();
        p.append(name);
        p.append(".yaml");
        assert(p@ =~= name@ + ".yaml"@);
        p
    }

    /// `path` with a leading `~` replaced by the home directory.
    pub fn resolve_path(path: &str) -> (resolved: String)
        ensures
            tilde_outcome(path@, resolved@),
    {
        expand_tilde(path)
    }

    /// The host paths of the folders, in order, each with its leading `~`
    /// expanded.
    pub fn folder_locations(&self) -> (locations: Vec<String>)
        ensures
            locations@.len() == self.folders@.len(),
            forall|i: int|
                0 <= i < locations@.len() ==> tilde_outcome(
                    self.folders@[i].map@,
                    #[trigger] locations@[i]@,
                ),
    {
        let n = self.folders.len();
        let mut locations: Vec<String> = Vec::new();
        for i in 0..n
            invariant
                n == self.folders@.len(),
                locations@.len() == i,
                forall|k: int|
                    0 <= k < i ==> tilde_outcome(self.folders@[k].map@, #[trigger] locations@[k]@),
        {
            locations.push(LimavelConfig::resolve_path(self.folders[i].map.as_str()));
        }
        locations
    }

    /// The SSH public key from the content of its file: the content trimmed.
    pub fn ssh_pubkey_from(content: &str) -> (key: String)
        ensures
            key@ == crate::text::trim(content@),
    {
        crate::text::trim_str(content)
    }

    /// The name of the Lima instance.
    pub fn instance_name(&self) -> (n: &str)
        ensures
            n@ == self.name@,
    {
        self.name.as_str()
    }

    /// The PHP versions that the sites use, each once, in ascending order.
    pub fn php_versions(&self) -> (versions: Vec<String>)
        ensures
            strictly_sorted(versions@),
            forall|x: Seq<char>|
                #[trigger] has_view(versions@, x) <==> exists|j: int|
                    0 <= j < self.sites@.len() && site_php(self.sites@, j) == x,
    {
        let mut out: Vec<String> = Vec::new();
        let n = self.sites.len();
        for k in 0..n
            invariant
                n == self.sites@.len(),
                strictly_sorted(out@),
                forall|x: Seq<char>|
                    #[trigger] has_view(out@, x) <==> exists|j: int|
                        0 <= j < k && site_php(self.sites@, j) == x,
        {
            let ghost prev = out@;
            insert_sorted(&mut out, &self.sites[k].php);
            assert forall|x: Seq<char>| #[trigger] has_view(out@, x) <==> exists|j: int|
                0 <= j < k + 1 && site_php(self.sites@, j) == x by {
                if has_view(out@, x) {
                    if x != site_php(self.sites@, k as int) {
                        assert(has_view(prev, x));
                    }
                }
                if exists|j: int| 0 <= j < k + 1 && site_php(self.sites@, j) == x {
                    let j = choose|j: int| 0 <= j < k + 1 && site_php(self.sites@, j) == x;
                    if j < k {
                        assert(has_view(prev, x));
                    }
                }
            }
        }
        out
    }

    /// The domains of the sites, in order.
    pub fn site_domains(&self) -> (domains: Vec<String>)
        ensures
            domains@.len() == self.sites@.len(),
            forall|i: int| 0 <= i < domains@.len() ==> #[trigger] domains@[i]@ == self.sites@[i].map@,
    {
        let mut out: Vec<String> = Vec::new();
        let n = self.sites.len();
        for k in 0..n
            invariant
                n == self.sites@.len(),
                out@.len() == k,
                forall|i: int| 0 <= i < k ==> #[trigger] out@[i]@ == self.sites@[i].map@,
        {
            out.push(self.sites[k].map.clone());
        }
        out
    }

    /// Checks that every host folder exists. `checked` gives, for each
    /// folder in order, its expanded path and whether a directory is there;
    /// the error lists the missing ones, one per line.
    pub fn validate_folders(&self, checked: &[(String, bool)]) -> (r: Result<(), LimavelError>)
        requires
            checked@.len() == self.folders@.len(),
        ensures
            missing_count(checked@) == 0 ==> r is Ok,
            missing_count(checked@) > 0 ==> (r matches Err(LimavelError::FoldersNotFound(t))
                && t@ == missing_folders_text(self.folders@, checked@)),
            (r is Ok) <==> forall|i: int| 0 <= i < checked@.len() ==> #[trigger] checked@[i].1,
            r matches Err(LimavelError::FoldersNotFound(t)) ==> forall|i: int|
                0 <= i < checked@.len() && !checked@[i].1 ==> has_infix(
                    t@,
                    missing_folder_line(self.folders@[i].map@, #[trigger] checked@[i].0@),
                ),
    {
        proof {
            law_missing_count(checked@);
            assert forall|i: int|
                0 <= i < checked@.len() && !checked@[i].1 implies has_infix(
                missing_folders_text(self.folders@, checked@),
                missing_folder_line(self.folders@[i].map@, #[trigger] checked@[i].0@),
            ) by {
                law_missing_folders_listed(self.folders@, checked@, i);
            }
        }
        let mut text: Vec<char> = Vec::new();
        let mut missing: usize = 0;
        let n = self.folders.len();
        for k in 0..n
            invariant
                n == self.folders@.len(),
                n == checked@.len(),
                missing <= k,
                missing == missing_count(checked@.take(k as int)),
                text@ == missing_folders_text(self.folders@.take(k as int), checked@),
        {
            let ghost before = text@;
            proof {
                assert(self.folders@.take(k + 1).drop_last() =~= self.folders@.take(k as int));
                assert(checked@.take(k + 1).drop_last() =~= checked@.take(k as int));
                assert(checked@.take(k + 1).last() == checked@[k as int]);
                assert(self.folders@.take(k + 1)[k as int] == self.folders@[k as int]);
            }
            if !checked[k].1 {
                if text.len() > 0 {
                    append_str(&mut text, "\n");
                }
                append_str(&mut text, "  - ");
                append_str(&mut text, self.folders[k].map.as_str());
                append_str(&mut text, " (");
                append_str(&mut text, checked[k].0.as_str());
                append_str(&mut text, ")");
                missing = missing + 1;
                proof {
                    let line = missing_folder_line(self.folders@[k as int].map@, checked@[k as int].0@);
                    if before.len() == 0 {
                        assert(text@ =~= line);
                    } else {
                        assert(text@ =~= before + "\n"@ + line);
                    }
                }
            }
        }
        assert(self.folders@.take(n as int) =~= self.folders@);
        assert(checked@.take(n as int) =~= checked@);
        if missing == 0 {
            Ok(())
        } else {
            Err(LimavelError::FoldersNotFound(string_of(&text)))
        }
    }
}

} // verus!
