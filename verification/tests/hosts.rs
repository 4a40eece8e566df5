use limavel::hosts::{build_hosts_block, marker_begin, marker_end, remove, strip_block, update};

fn domains(ds: &[&str]) -> Vec<String> {
    ds.iter().map(|d| d.to_string()).collect()
}

#[test]
fn markers_name_the_instance() {
    assert_eq!(marker_begin("dev"), "# BEGIN limavel[dev]");
    assert_eq!(marker_end("dev"), "# END limavel[dev]");
}

#[test]
fn block_maps_each_domain_to_the_ip() {
    let block = build_hosts_block("dev", "192.168.5.15", &domains(&["a.test", "b.test"]));
    assert_eq!(
        block,
        "# BEGIN limavel[dev]\n192.168.5.15 a.test\n192.168.5.15 b.test\n# END limavel[dev]"
    );
}

#[test]
fn block_without_domains_has_only_markers() {
    assert_eq!(build_hosts_block("x", "1.2.3.4", &[]), "# BEGIN limavel[x]\n# END limavel[x]");
}

#[test]
fn strip_takes_out_only_the_named_block() {
    let content = "127.0.0.1 localhost\n# BEGIN limavel[dev]\n10.0.0.2 a.test\n# END limavel[dev]\n# BEGIN limavel[other]\n10.0.0.3 b.test\n# END limavel[other]\n::1 localhost";
    assert_eq!(
        strip_block(content, "dev"),
        "127.0.0.1 localhost\n# BEGIN limavel[other]\n10.0.0.3 b.test\n# END limavel[other]\n::1 localhost\n"
    );
}

#[test]
fn strip_matches_markers_after_trimming_and_drops_carriage_returns() {
    let content = "a\r\n  # BEGIN limavel[dev]  \r\nx\n\t# END limavel[dev]\nb";
    assert_eq!(strip_block(content, "dev"), "a\nb\n");
}

#[test]
fn strip_of_empty_content_is_empty() {
    assert_eq!(strip_block("", "dev"), "");
    assert_eq!(remove("", "dev"), "");
}

#[test]
fn update_appends_a_fresh_block() {
    let content = "127.0.0.1 localhost\n# BEGIN limavel[dev]\n10.0.0.2 old.test\n# END limavel[dev]\n";
    let out = update(content, "dev", "10.0.0.9", &domains(&["new.test"])).unwrap();
    assert_eq!(
        out,
        "127.0.0.1 localhost\n# BEGIN limavel[dev]\n10.0.0.9 new.test\n# END limavel[dev]\n"
    );
}

#[test]
fn update_without_domains_changes_nothing() {
    assert_eq!(update("127.0.0.1 localhost\n", "dev", "10.0.0.9", &[]), None);
}

#[test]
fn update_of_empty_file_starts_with_a_line_feed() {
    let out = update("", "dev", "1.1.1.1", &domains(&["a.test"])).unwrap();
    assert_eq!(out, "\n# BEGIN limavel[dev]\n1.1.1.1 a.test\n# END limavel[dev]\n");
}

#[test]
fn remove_after_update_restores_the_file() {
    let content = "127.0.0.1 localhost\n::1 localhost\n";
    let updated = update(content, "dev", "10.0.0.9", &domains(&["a.test", "b.test"])).unwrap();
    assert_eq!(remove(&updated, "dev"), content);
}

#[test]
fn update_twice_is_update_once() {
    let content = "127.0.0.1 localhost\n";
    let ds = domains(&["a.test"]);
    let once = update(content, "dev", "10.0.0.9", &ds).unwrap();
    let twice = update(&once, "dev", "10.0.0.9", &ds).unwrap();
    assert_eq!(once, twice);
}

#[test]
fn remove_twice_is_remove_once() {
    let content = "a\n# BEGIN limavel[dev]\nx\n# END limavel[dev]\nb";
    let once = remove(content, "dev");
    assert_eq!(remove(&once, "dev"), once);
}

#[test]
fn update_twice_of_a_file_with_only_the_block() {
    let ds = domains(&["a.test", "b.test"]);
    for content in ["", "# BEGIN limavel[dev]\n10.0.0.2 old.test\n# END limavel[dev]\n"] {
        let once = update(content, "dev", "10.0.0.9", &ds).unwrap();
        assert_eq!(once, "\n# BEGIN limavel[dev]\n10.0.0.9 a.test\n10.0.0.9 b.test\n# END limavel[dev]\n");
        let twice = update(&once, "dev", "10.0.0.9", &ds).unwrap();
        assert_eq!(once, twice);
        assert_eq!(remove(&once, "dev"), "\n");
    }
}

#[test]
fn strip_leaves_no_marker_and_ends_with_a_line_feed() {
    let content = "a\n# BEGIN limavel[dev]\nx\n# END limavel[dev]\nb";
    let s = strip_block(content, "dev");
    assert_eq!(s, "a\nb\n");
    assert!(s.lines().all(|l| l.trim() != "# BEGIN limavel[dev]" && l.trim() != "# END limavel[dev]"));
    assert_eq!(strip_block(&s, "dev"), s);
}
