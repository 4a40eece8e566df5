//! The block of host entries that limavel keeps in `/etc/hosts` for each VM
//! instance: a begin marker, one `ip domain` line per site domain, and an
//! end marker. These functions compute the new file content from the old
//! one; reading and writing the file is left to the caller.
use vstd::prelude::*;
use crate::text::{append_chars, append_str, chars_eq, chars_of, lines, split_lines, string_of, trim, trim_chars, views};

verus! {

/// The path of the hosts file.
pub const HOSTS_FILE: &'static str = "/etc/hosts";

/// The line that opens the block of instance `name`.
pub open spec fn begin_marker(name: Seq<char>) -> Seq<char> {
    "# BEGIN limavel["@ + name + "]"@
}

/// The line that closes the block of instance `name`.
pub open spec fn end_marker(name: Seq<char>) -> Seq<char> {
    "# END limavel["@ + name + "]"@
}

/// One `ip domain` line, with its line feed, for each domain.
pub open spec fn host_entries(ip: Seq<char>, domains: Seq<Seq<char>>) -> Seq<char>
    decreases domains.len(),
{
    if domains.len() == 0 {
        Seq::empty()
    } else {
        host_entries(ip, domains.drop_last()) + ip + " "@ + domains.last() + "\n"@
    }
}

/// The block for instance `name` that maps each domain to `ip`; it ends
/// with the end marker and no line feed.
pub open spec fn hosts_block(name: Seq<char>, ip: Seq<char>, domains: Seq<Seq<char>>) -> Seq<
    char,
> {
    begin_marker(name) + "\n"@ + host_entries(ip, domains) + end_marker(name)
}

/// The lines of `ls` that lie outside every block delimited by lines that
/// trim to `begin` and `end`, each followed by a line feed; `inside` tells
/// whether a block is open before the first line. Marker lines are dropped
/// wherever they stand.
pub open spec fn kept_text(ls: Seq<Seq<char>>, begin: Seq<char>, end: Seq<char>, inside: bool) -> Seq<
    char,
>
    decreases ls.len(),
{
    if ls.len() == 0 {
        Seq::empty()
    } else {
        let l = ls[0];
        let rest = ls.drop_first();
        if trim(l) == begin {
            kept_text(rest, begin, end, true)
        } else if trim(l) == end {
            kept_text(rest, begin, end, false)
        } else if inside {
            kept_text(rest, begin, end, inside)
        } else {
            l + "\n"@ + kept_text(rest, begin, end, inside)
        }
    }
}

/// `content` with the block of instance `name` taken out.
pub open spec fn stripped(content: Seq<char>, name: Seq<char>) -> Seq<char> {
    kept_text(lines(content), begin_marker(name), end_marker(name), false)
}

/// `content` with the block of instance `name` replaced by one that maps
/// each domain to `ip`, placed at the end after a line feed.
pub open spec fn updated(
    content: Seq<char>,
    name: Seq<char>,
    ip: Seq<char>,
    domains: Seq<Seq<char>>,
) -> Seq<char> {
    let cleaned = stripped(content, name);
    let base = if cleaned.len() > 0 && cleaned.last() == '\n' {
        cleaned
    } else {
        cleaned + "\n"@
    };
    base + hosts_block(name, ip, domains) + "\n"@
}

fn concat3(a: &str, b: &str, c: &str) -> (out: String)
    ensures
        out@ == a@ + b@ + c@,
{
    let mut out = String::new();
    out.append(a);
    out.append(b);
    out.append(c);
    proof {
        reveal_strlit("");
    }
    assert(out@ =~= a@ + b@ + c@);
    out
}

/// The line that opens the block of instance `name`.
pub fn marker_begin(name: &str) -> (m: String)
    ensures
        m@ == begin_marker(name@),
{
    concat3("# BEGIN limavel[", name, "]")
}

/// The line that closes the block of instance `name`.
pub fn marker_end(name: &str) -> (m: String)
    ensures
        m@ == end_marker(name@),
{
    concat3("# END limavel[", name, "]")
}

/// The block of host entries for instance `name` that maps each domain to
/// `ip`.
pub fn build_hosts_block(name: &str, ip: &str, domains: &[String]) -> (block: String)
    ensures
        block@ == hosts_block(name@, ip@, views(domains@)),
{
    let mut out: Vec<char> = Vec::new();
    let b = marker_begin(name);
    append_str(&mut out, b.as_str());
    append_str(&mut out, "\n");
    let ghost head = out@;
    let ghost ds = views(domains@);
    let n = domains.len();
    for i in 0..n
        invariant
            n == domains@.len(),
            ds == views(domains@),
            out@ == head + host_entries(ip@, ds.take(i as int)),
    {
        let ghost before = out@;
        append_str(&mut out, ip);
        append_str(&mut out, " ");
        append_str(&mut out, domains[i].as_str());
        append_str(&mut out, "\n");
        proof {
            let t = ds.take(i + 1);
            assert(t.drop_last() =~= ds.take(i as int));
            assert(t.last() == domains@[i as int]@);
            assert(out@ =~= head + host_entries(ip@, t));
        }
    }
    assert(ds.take(n as int) =~= ds);
    let e = marker_end(name);
    append_str(&mut out, e.as_str());
    string_of(&out)
}

/// `content` with the block of instance `name` taken out: every line
/// outside the block, each followed by a line feed.
pub fn strip_block(content: &str, name: &str) -> (out: String)
    ensures
        out@ == stripped(content@, name@),
{
    let begin = marker_begin(name);
    let end = marker_end(name);
    let begin_cs = chars_of(begin.as_str());
    let end_cs = chars_of(end.as_str());
    let cs = chars_of(content);
    let ls = split_lines(&cs);
    let ghost all = lines(content@);
    let mut out: Vec<char> = Vec::new();
    let mut inside = false;
    let n = ls.len();
    assert(all.skip(0) =~= all);
    for i in 0..n
        invariant
            n == ls@.len(),
            all == lines(content@),
            all.len() == n,
            forall|k: int| 0 <= k < n ==> #[trigger] ls@[k]@ == all[k],
            begin_cs@ == begin_marker(name@),
            end_cs@ == end_marker(name@),
            kept_text(all, begin_cs@, end_cs@, false) == out@ + kept_text(
                all.skip(i as int),
                begin_cs@,
                end_cs@,
                inside,
            ),
    {
        let ghost rest = all.skip(i as int);
        let ghost prev = out@;
        proof {
            assert(rest[0] == all[i as int]);
            assert(rest.drop_first() =~= all.skip(i + 1));
        }
        let t = trim_chars(&ls[i]);
        if chars_eq(&t, &begin_cs) {
            inside = true;
        } else if chars_eq(&t, &end_cs) {
            inside = false;
        } else if !inside {
            append_chars(&mut out, &ls[i]);
            out.push('\n');
            proof {
                reveal_strlit("\n");
                assert(out@ + kept_text(all.skip(i + 1), begin_cs@, end_cs@, inside) =~= prev + (
                all[i as int] + "\n"@ + kept_text(rest.drop_first(), begin_cs@, end_cs@, inside)));
            }
        }
    }
    assert(all.skip(n as int) =~= Seq::<Seq<char>>::empty());
    assert(out@ =~= out@ + Seq::<char>::empty());
    string_of(&out)
}

/// The new content of the hosts file that maps each domain to `ip` for
/// instance `name`: the old block is taken out and a fresh one appended.
/// With no domains the file is left alone, and the result is `None`.
pub fn update(content: &str, name: &str, ip: &str, domains: &[String]) -> (r: Option<String>)
    ensures
        domains@.len() == 0 ==> r is None,
        domains@.len() > 0 ==> (r matches Some(s) && s@ == updated(
            content@,
            name@,
            ip@,
            views(domains@),
        )),
{
    if domains.len() == 0 {
        return None;
    }
    let cleaned = strip_block(content, name);
    let mut out = chars_of(cleaned.as_str());
    if !(out.len() > 0 && out[out.len() - 1] == '\n') {
        append_str(&mut out, "\n");
    }
    let block = build_hosts_block(name, ip, domains);
    append_str(&mut out, block.as_str());
    append_str(&mut out, "\n");
    Some(string_of(&out))
}

/// The new content of the hosts file without the block of instance `name`.
pub fn remove(content: &str, name: &str) -> (r: String)
    ensures
        r@ == stripped(content@, name@),
{
    strip_block(content, name)
}

} // verus!

verus! {

// ---------------------------------------------------------------------
// Laws of the hosts block
// ---------------------------------------------------------------------

/// Each line followed by a line feed.
pub open spec fn join_lines(ls: Seq<Seq<char>>) -> Seq<char>
    decreases ls.len(),
{
    if ls.len() == 0 {
        Seq::empty()
    } else {
        ls[0] + "\n"@ + join_lines(ls.drop_first())
    }
}

/// The lines of `ls` that `kept_text` keeps.
pub open spec fn kept_lines(
    ls: Seq<Seq<char>>,
    begin: Seq<char>,
    end: Seq<char>,
    inside: bool,
) -> Seq<Seq<char>>
    decreases ls.len(),
{
    if ls.len() == 0 {
        Seq::empty()
    } else {
        let l = ls[0];
        let rest = ls.drop_first();
        if trim(l) == begin {
            kept_lines(rest, begin, end, true)
        } else if trim(l) == end {
            kept_lines(rest, begin, end, false)
        } else if inside {
            kept_lines(rest, begin, end, inside)
        } else {
            seq![l] + kept_lines(rest, begin, end, inside)
        }
    }
}

/// The lines of `content` outside the block of instance `name`.
pub open spec fn outside_lines(content: Seq<char>, name: Seq<char>) -> Seq<Seq<char>> {
    kept_lines(lines(content), begin_marker(name), end_marker(name), false)
}

/// The entry line that maps `domain` to `ip`.
pub open spec fn entry_line(ip: Seq<char>, domain: Seq<char>) -> Seq<char> {
    ip + " "@ + domain
}

/// The lines of the block of instance `name`.
pub open spec fn block_lines(name: Seq<char>, ip: Seq<char>, domains: Seq<Seq<char>>) -> Seq<
    Seq<char>,
> {
    seq![begin_marker(name)] + domains.map_values(|d: Seq<char>| entry_line(ip, d)) + seq![
        end_marker(name),
    ]
}

/// `l` holds no line feed.
pub open spec fn no_lf(l: Seq<char>) -> bool {
    forall|k: int| 0 <= k < l.len() ==> l[k] != '\n'
}

/// `l` ends with a carriage return.
pub open spec fn ends_cr(l: Seq<char>) -> bool {
    l.len() > 0 && l.last() == '\r'
}

/// The conditions under which writing the block of instance `name` and
/// reading the file back line by line gives the written lines again: no
/// line break inside the name, the address or a domain, no domain ending
/// in a carriage return, and no entry line that reads as the end marker.
pub open spec fn block_is_readable(name: Seq<char>, ip: Seq<char>, domains: Seq<Seq<char>>) -> bool {
    &&& no_lf(name)
    &&& no_lf(ip)
    &&& forall|i: int| 0 <= i < domains.len() ==> no_lf(#[trigger] domains[i])
    &&& forall|i: int| 0 <= i < domains.len() ==> !ends_cr(#[trigger] domains[i])
    &&& forall|i: int|
        0 <= i < domains.len() ==> trim(entry_line(ip, #[trigger] domains[i])) != end_marker(name)
}

proof fn lemma_join_concat(a: Seq<Seq<char>>, b: Seq<Seq<char>>)
    ensures
        join_lines(a + b) == join_lines(a) + join_lines(b),
    decreases a.len(),
{
    if a.len() == 0 {
        assert(a + b =~= b);
        assert(join_lines(a) + join_lines(b) =~= join_lines(b));
    } else {
        assert((a + b).drop_first() =~= a.drop_first() + b);
        assert((a + b)[0] == a[0]);
        lemma_join_concat(a.drop_first(), b);
        assert(join_lines(a + b) =~= a[0] + "\n"@ + (join_lines(a.drop_first()) + join_lines(b)));
    }
}

proof fn lemma_join_single(x: Seq<char>)
    ensures
        join_lines(seq![x]) == x + "\n"@,
{
    assert(seq![x].drop_first() =~= Seq::<Seq<char>>::empty());
    assert(seq![x][0] == x);
    assert(join_lines(Seq::<Seq<char>>::empty()) == Seq::<char>::empty());
    assert(x + "\n"@ + Seq::<char>::empty() =~= x + "\n"@);
}

proof fn lemma_host_entries_join(ip: Seq<char>, ds: Seq<Seq<char>>)
    ensures
        host_entries(ip, ds) == join_lines(ds.map_values(|d: Seq<char>| entry_line(ip, d))),
    decreases ds.len(),
{
    let f = |d: Seq<char>| entry_line(ip, d);
    if ds.len() == 0 {
        assert(ds.map_values(f) =~= Seq::<Seq<char>>::empty());
    } else {
        lemma_host_entries_join(ip, ds.drop_last());
        assert(ds.map_values(f) =~= ds.drop_last().map_values(f) + seq![entry_line(ip, ds.last())]);
        lemma_join_concat(ds.drop_last().map_values(f), seq![entry_line(ip, ds.last())]);
        lemma_join_single(entry_line(ip, ds.last()));
        assert(host_entries(ip, ds) =~= join_lines(ds.drop_last().map_values(f)) + (entry_line(
            ip,
            ds.last(),
        ) + "\n"@));
    }
}

proof fn lemma_kept_text_join(ls: Seq<Seq<char>>, b: Seq<char>, e: Seq<char>, inside: bool)
    ensures
        kept_text(ls, b, e, inside) == join_lines(kept_lines(ls, b, e, inside)),
    decreases ls.len(),
{
    if ls.len() > 0 {
        let l = ls[0];
        let rest = ls.drop_first();
        if trim(l) == b {
            lemma_kept_text_join(rest, b, e, true);
        } else if trim(l) == e {
            lemma_kept_text_join(rest, b, e, false);
        } else if inside {
            lemma_kept_text_join(rest, b, e, inside);
        } else {
            lemma_kept_text_join(rest, b, e, inside);
            let k = kept_lines(rest, b, e, inside);
            lemma_join_concat(seq![l], k);
            lemma_join_single(l);
            assert(kept_text(ls, b, e, inside) =~= join_lines(seq![l]) + join_lines(k));
        }
    }
}

proof fn lemma_lines_no_lf(s: Seq<char>)
    ensures
        forall|i: int| 0 <= i < lines(s).len() ==> no_lf(#[trigger] lines(s)[i]),
    decreases s.len(),
{
    if s.len() > 0 {
        let e = crate::text::line_end(s);
        crate::text::lemma_line_end_bounds(s);
        if e < s.len() {
            lemma_lines_no_lf(s.skip(e + 1));
            let first = crate::text::strip_cr(s.take(e));
            assert(no_lf(first)) by {
                assert forall|k: int| 0 <= k < first.len() implies first[k] != '\n' by {
                    assert(first[k] == s[k]);
                }
            }
            let rest = lines(s.skip(e + 1));
            assert(lines(s) == seq![first] + rest);
            assert forall|i: int| 0 <= i < lines(s).len() implies no_lf(#[trigger] lines(s)[i]) by {
                if i > 0 {
                    assert(lines(s)[i] == rest[i - 1]);
                }
            }
        } else {
            assert(lines(s) == seq![s]);
            assert(no_lf(s));
        }
    }
}

proof fn lemma_lines_of_join(ks: Seq<Seq<char>>)
    requires
        forall|i: int| 0 <= i < ks.len() ==> no_lf(#[trigger] ks[i]),
    ensures
        lines(join_lines(ks)) == ks.map_values(|k: Seq<char>| crate::text::strip_cr(k)),
    decreases ks.len(),
{
    let f = |k: Seq<char>| crate::text::strip_cr(k);
    reveal_strlit("\n");
    if ks.len() == 0 {
        assert(ks.map_values(f) =~= Seq::<Seq<char>>::empty());
    } else {
        let k0 = ks[0];
        let rest = ks.drop_first();
        let s = join_lines(ks);
        assert(no_lf(k0));
        assert(s =~= k0 + seq!['\n'] + join_lines(rest));
        crate::text::lemma_line_end_at(s, k0.len() as int);
        assert(s.take(k0.len() as int) =~= k0);
        assert(s.skip(k0.len() as int + 1) =~= join_lines(rest));
        assert forall|i: int| 0 <= i < rest.len() implies no_lf(#[trigger] rest[i]) by {
            assert(rest[i] == ks[i + 1]);
        }
        lemma_lines_of_join(rest);
        assert(ks.map_values(f) =~= seq![f(k0)] + rest.map_values(f));
    }
}

proof fn lemma_kept_all(ks: Seq<Seq<char>>, b: Seq<char>, e: Seq<char>)
    requires
        forall|i: int| 0 <= i < ks.len() ==> trim(#[trigger] ks[i]) != b && trim(ks[i]) != e,
    ensures
        kept_lines(ks, b, e, false) == ks,
    decreases ks.len(),
{
    if ks.len() > 0 {
        let rest = ks.drop_first();
        assert(trim(ks[0]) != b && trim(ks[0]) != e);
        assert forall|i: int| 0 <= i < rest.len() implies trim(#[trigger] rest[i]) != b && trim(
            rest[i],
        ) != e by {
            assert(rest[i] == ks[i + 1]);
        }
        lemma_kept_all(rest, b, e);
        assert(ks =~= seq![ks[0]] + rest);
    }
}

proof fn lemma_kept_props(ls: Seq<Seq<char>>, b: Seq<char>, e: Seq<char>, inside: bool)
    requires
        forall|i: int| 0 <= i < ls.len() ==> no_lf(#[trigger] ls[i]),
    ensures
        forall|i: int|
            0 <= i < kept_lines(ls, b, e, inside).len() ==> no_lf(
                #[trigger] kept_lines(ls, b, e, inside)[i],
            ) && trim(kept_lines(ls, b, e, inside)[i]) != b && trim(
                kept_lines(ls, b, e, inside)[i],
            ) != e,
    decreases ls.len(),
{
    if ls.len() > 0 {
        let l = ls[0];
        let rest = ls.drop_first();
        assert forall|i: int| 0 <= i < rest.len() implies no_lf(#[trigger] rest[i]) by {
            assert(rest[i] == ls[i + 1]);
        }
        assert(no_lf(l));
        lemma_kept_props(rest, b, e, true);
        lemma_kept_props(rest, b, e, false);
        if trim(l) == b {
            assert(kept_lines(ls, b, e, inside) == kept_lines(rest, b, e, true));
        } else if trim(l) == e {
            assert(kept_lines(ls, b, e, inside) == kept_lines(rest, b, e, false));
        } else if inside {
            assert(kept_lines(ls, b, e, inside) == kept_lines(rest, b, e, true));
        } else {
            let k = kept_lines(rest, b, e, inside);
            assert(kept_lines(ls, b, e, inside) == seq![l] + k);
            assert forall|i: int|
                0 <= i < kept_lines(ls, b, e, inside).len() implies no_lf(
                #[trigger] kept_lines(ls, b, e, inside)[i],
            ) && trim(kept_lines(ls, b, e, inside)[i]) != b && trim(
                kept_lines(ls, b, e, inside)[i],
            ) != e by {
                if i > 0 {
                    assert(kept_lines(ls, b, e, inside)[i] == k[i - 1]);
                }
            }
        }
    }
}

proof fn lemma_kept_prefix(a: Seq<Seq<char>>, c: Seq<Seq<char>>, b: Seq<char>, e: Seq<char>)
    requires
        forall|i: int| 0 <= i < a.len() ==> trim(#[trigger] a[i]) != b && trim(a[i]) != e,
    ensures
        kept_lines(a + c, b, e, false) == a + kept_lines(c, b, e, false),
    decreases a.len(),
{
    if a.len() == 0 {
        assert(a + c =~= c);
        assert(a + kept_lines(c, b, e, false) =~= kept_lines(c, b, e, false));
    } else {
        let rest = a.drop_first();
        assert((a + c)[0] == a[0]);
        assert((a + c).drop_first() =~= rest + c);
        assert(trim(a[0]) != b && trim(a[0]) != e);
        assert forall|i: int| 0 <= i < rest.len() implies trim(#[trigger] rest[i]) != b && trim(
            rest[i],
        ) != e by {
            assert(rest[i] == a[i + 1]);
        }
        lemma_kept_prefix(rest, c, b, e);
        assert(a + kept_lines(c, b, e, false) =~= seq![a[0]] + (rest + kept_lines(c, b, e, false)));
    }
}

proof fn lemma_kept_inside(es: Seq<Seq<char>>, tail: Seq<Seq<char>>, b: Seq<char>, e: Seq<char>)
    requires
        forall|i: int| 0 <= i < es.len() ==> trim(#[trigger] es[i]) != e,
    ensures
        kept_lines(es + tail, b, e, true) == kept_lines(tail, b, e, true),
    decreases es.len(),
{
    if es.len() == 0 {
        assert(es + tail =~= tail);
    } else {
        let rest = es.drop_first();
        assert((es + tail)[0] == es[0]);
        assert((es + tail).drop_first() =~= rest + tail);
        assert(trim(es[0]) != e);
        assert forall|i: int| 0 <= i < rest.len() implies trim(#[trigger] rest[i]) != e by {
            assert(rest[i] == es[i + 1]);
        }
        lemma_kept_inside(rest, tail, b, e);
    }
}

proof fn lemma_trim_fixed(s: Seq<char>)
    requires
        s.len() > 0,
        !crate::text::is_ws(s[0]),
        !crate::text::is_ws(s.last()),
    ensures
        trim(s) == s,
{
    assert(crate::text::trim_start(s) == s);
}

proof fn lemma_markers(name: Seq<char>)
    requires
        no_lf(name),
    ensures
        trim(begin_marker(name)) == begin_marker(name),
        trim(end_marker(name)) == end_marker(name),
        no_lf(begin_marker(name)),
        no_lf(end_marker(name)),
        !ends_cr(begin_marker(name)),
        !ends_cr(end_marker(name)),
        begin_marker(name) != end_marker(name),
{
    reveal_strlit("# BEGIN limavel[");
    reveal_strlit("# END limavel[");
    reveal_strlit("]");
    let b = begin_marker(name);
    let e = end_marker(name);
    assert(b[0] == '#');
    assert(b.last() == ']');
    assert(e[0] == '#');
    assert(e.last() == ']');
    lemma_trim_fixed(b);
    lemma_trim_fixed(e);
    assert(b[2] == 'B');
    assert(e[2] == 'E');
}

/// The lines of the block read back as written.
proof fn lemma_block_lines(name: Seq<char>, ip: Seq<char>, ds: Seq<Seq<char>>)
    requires
        block_is_readable(name, ip, ds),
    ensures
        hosts_block(name, ip, ds) + "\n"@ == join_lines(block_lines(name, ip, ds)),
        forall|i: int|
            0 <= i < block_lines(name, ip, ds).len() ==> no_lf(
                #[trigger] block_lines(name, ip, ds)[i],
            ) && !ends_cr(block_lines(name, ip, ds)[i]),
        kept_lines(block_lines(name, ip, ds), begin_marker(name), end_marker(name), false)
            == Seq::<Seq<char>>::empty(),
{
    let f = |d: Seq<char>| entry_line(ip, d);
    let es = ds.map_values(f);
    let b = begin_marker(name);
    let e = end_marker(name);
    let bl = block_lines(name, ip, ds);
    lemma_markers(name);
    reveal_strlit(" ");
    // the text
    lemma_host_entries_join(ip, ds);
    lemma_join_concat(seq![b], es + seq![e]);
    lemma_join_concat(es, seq![e]);
    lemma_join_single(b);
    lemma_join_single(e);
    assert(bl =~= seq![b] + (es + seq![e]));
    assert(hosts_block(name, ip, ds) + "\n"@ =~= join_lines(seq![b]) + (join_lines(es)
        + join_lines(seq![e])));
    // the lines
    assert forall|i: int| 0 <= i < bl.len() implies no_lf(#[trigger] bl[i]) && !ends_cr(bl[i]) by {
        if 0 < i < bl.len() - 1 {
            let d = ds[i - 1];
            assert(bl[i] == entry_line(ip, d));
            assert(no_lf(d));
            assert(!ends_cr(d));
            let l = entry_line(ip, d);
            assert forall|k: int| 0 <= k < l.len() implies l[k] != '\n' by {
                if k < ip.len() {
                    assert(l[k] == ip[k]);
                } else if k > ip.len() {
                    assert(l[k] == d[k - ip.len() - 1]);
                }
            }
            if d.len() > 0 {
                assert(l.last() == d.last());
            } else {
                assert(l.last() == ' ');
            }
        }
    }
    // nothing of the block is kept
    assert(bl[0] == b);
    assert(bl.drop_first() =~= es + seq![e]);
    assert forall|i: int| 0 <= i < es.len() implies trim(#[trigger] es[i]) != e by {
        assert(es[i] == entry_line(ip, ds[i]));
    }
    lemma_kept_inside(es, seq![e], b, e);
    assert(seq![e].drop_first() =~= Seq::<Seq<char>>::empty());
    assert(seq![e][0] == e);
    assert(kept_lines(seq![e], b, e, true) == kept_lines(Seq::<Seq<char>>::empty(), b, e, false));
    assert(kept_lines(bl, b, e, false) == kept_lines(bl.drop_first(), b, e, true));
}

/// Taking the block of an instance out twice leaves what taking it out
/// once left, provided that no line outside the block ends with a carriage
/// return (such a line loses it when the result is read again).
pub proof fn law_remove_idempotent(content: Seq<char>, name: Seq<char>)
    requires
        forall|i: int|
            0 <= i < outside_lines(content, name).len() ==> !ends_cr(
                #[trigger] outside_lines(content, name)[i],
            ),
    ensures
        stripped(stripped(content, name), name) == stripped(content, name),
{
    let b = begin_marker(name);
    let e = end_marker(name);
    let ls = lines(content);
    let k = outside_lines(content, name);
    lemma_lines_no_lf(content);
    lemma_kept_props(ls, b, e, false);
    lemma_kept_text_join(ls, b, e, false);
    lemma_lines_of_join(k);
    assert(k.map_values(|l: Seq<char>| crate::text::strip_cr(l)) =~= k);
    lemma_kept_text_join(k, b, e, false);
    lemma_kept_all(k, b, e);
}

/// Writing the block of an instance and then taking it out gives back the
/// file without the block: an update is undone by a removal. This holds
/// when the file keeps at least one line outside the block (else the
/// update leaves an empty line behind), when no such line ends with a
/// carriage return, and when the block reads back as written.
pub proof fn law_update_then_remove(
    content: Seq<char>,
    name: Seq<char>,
    ip: Seq<char>,
    domains: Seq<Seq<char>>,
)
    requires
        outside_lines(content, name).len() > 0,
        forall|i: int|
            0 <= i < outside_lines(content, name).len() ==> !ends_cr(
                #[trigger] outside_lines(content, name)[i],
            ),
        block_is_readable(name, ip, domains),
    ensures
        stripped(updated(content, name, ip, domains), name) == stripped(content, name),
        lines(updated(content, name, ip, domains)) == outside_lines(content, name) + block_lines(
            name,
            ip,
            domains,
        ),
{
    let b = begin_marker(name);
    let e = end_marker(name);
    let ls = lines(content);
    let k = outside_lines(content, name);
    let bl = block_lines(name, ip, domains);
    reveal_strlit("\n");
    lemma_lines_no_lf(content);
    lemma_kept_props(ls, b, e, false);
    lemma_kept_text_join(ls, b, e, false);
    let s = stripped(content, name);
    assert(s == join_lines(k));
    assert(s.len() > 0 && s.last() == '\n') by {
        assert(join_lines(k) =~= k[0] + seq!['\n'] + join_lines(k.drop_first()));
        lemma_join_concat(k.drop_last(), seq![k.last()]);
        assert(k =~= k.drop_last() + seq![k.last()]);
        lemma_join_single(k.last());
    }
    lemma_block_lines(name, ip, domains);
    lemma_join_concat(k, bl);
    let u = updated(content, name, ip, domains);
    assert(u =~= join_lines(k + bl));
    assert forall|i: int| 0 <= i < (k + bl).len() implies no_lf(#[trigger] (k + bl)[i]) by {
        if i >= k.len() {
            assert((k + bl)[i] == bl[i - k.len()]);
        }
    }
    lemma_lines_of_join(k + bl);
    assert forall|i: int| 0 <= i < (k + bl).len() implies !ends_cr(#[trigger] (k + bl)[i]) by {
        if i >= k.len() {
            assert((k + bl)[i] == bl[i - k.len()]);
        }
    }
    assert((k + bl).map_values(|l: Seq<char>| crate::text::strip_cr(l)) =~= k + bl);
    lemma_kept_text_join(k + bl, b, e, false);
    lemma_kept_prefix(k, bl, b, e);
    assert(k + Seq::<Seq<char>>::empty() =~= k);
}

/// When nothing lies outside the block, an update leaves an empty line
/// followed by the block, and taking the block out leaves that empty line.
proof fn lemma_update_alone(content: Seq<char>, name: Seq<char>, ip: Seq<char>, domains: Seq<Seq<char>>)
    requires
        outside_lines(content, name).len() == 0,
        block_is_readable(name, ip, domains),
    ensures
        updated(content, name, ip, domains) == "\n"@ + hosts_block(name, ip, domains) + "\n"@,
        stripped(updated(content, name, ip, domains), name) == "\n"@,
{
    let b = begin_marker(name);
    let e = end_marker(name);
    let ls = lines(content);
    let k = outside_lines(content, name);
    let bl = block_lines(name, ip, domains);
    let empty = Seq::<char>::empty();
    reveal_strlit("\n");
    lemma_kept_text_join(ls, b, e, false);
    assert(k =~= Seq::<Seq<char>>::empty());
    assert(stripped(content, name) =~= empty);
    let u = updated(content, name, ip, domains);
    assert(u =~= "\n"@ + hosts_block(name, ip, domains) + "\n"@);
    lemma_block_lines(name, ip, domains);
    lemma_markers(name);
    lemma_join_single(empty);
    lemma_join_concat(seq![empty], bl);
    assert(u =~= join_lines(seq![empty] + bl));
    let all = seq![empty] + bl;
    assert forall|i: int| 0 <= i < all.len() implies no_lf(#[trigger] all[i]) && !ends_cr(all[i]) by {
        if i > 0 {
            assert(all[i] == bl[i - 1]);
        }
    }
    lemma_lines_of_join(all);
    assert(all.map_values(|l: Seq<char>| crate::text::strip_cr(l)) =~= all);
    assert(trim(empty) =~= empty);
    assert(b.len() > 0 && e.len() > 0) by {
        reveal_strlit("# BEGIN limavel[");
        reveal_strlit("# END limavel[");
    }
    lemma_kept_prefix(seq![empty], bl, b, e);
    lemma_kept_text_join(all, b, e, false);
    assert(seq![empty] + Seq::<Seq<char>>::empty() =~= seq![empty]);
}

/// Updating the block twice with the same entries gives what updating it
/// once gave, provided that no line outside the block ends with a carriage
/// return and the block reads back as written.
pub proof fn law_update_idempotent(
    content: Seq<char>,
    name: Seq<char>,
    ip: Seq<char>,
    domains: Seq<Seq<char>>,
)
    requires
        forall|i: int|
            0 <= i < outside_lines(content, name).len() ==> !ends_cr(
                #[trigger] outside_lines(content, name)[i],
            ),
        block_is_readable(name, ip, domains),
    ensures
        updated(updated(content, name, ip, domains), name, ip, domains) == updated(
            content,
            name,
            ip,
            domains,
        ),
{
    if outside_lines(content, name).len() > 0 {
        law_update_then_remove(content, name, ip, domains);
    } else {
        lemma_update_alone(content, name, ip, domains);
        reveal_strlit("\n");
    }
}

/// What taking the block of an instance out leaves holds no line that reads
/// as a marker of that block, and is empty or ends with a line feed. With
/// no carriage return at the end of a kept line, its lines are the lines of
/// the file outside the block.
pub proof fn law_strip_leaves_no_block(content: Seq<char>, name: Seq<char>)
    requires
        forall|i: int|
            0 <= i < outside_lines(content, name).len() ==> !ends_cr(
                #[trigger] outside_lines(content, name)[i],
            ),
    ensures
        lines(stripped(content, name)) == outside_lines(content, name),
        forall|i: int|
            0 <= i < lines(stripped(content, name)).len() ==> trim(
                #[trigger] lines(stripped(content, name))[i],
            ) != begin_marker(name) && trim(lines(stripped(content, name))[i]) != end_marker(name),
        stripped(content, name).len() == 0 || stripped(content, name).last() == '\n',
{
    let b = begin_marker(name);
    let e = end_marker(name);
    let ls = lines(content);
    let k = outside_lines(content, name);
    reveal_strlit("\n");
    lemma_lines_no_lf(content);
    lemma_kept_props(ls, b, e, false);
    lemma_kept_text_join(ls, b, e, false);
    lemma_lines_of_join(k);
    assert(k.map_values(|l: Seq<char>| crate::text::strip_cr(l)) =~= k);
    if k.len() > 0 {
        lemma_join_concat(k.drop_last(), seq![k.last()]);
        assert(k =~= k.drop_last() + seq![k.last()]);
        lemma_join_single(k.last());
    }
}

} // verus!
