use tree_inspect::scan::{classify, inspect, Entry};

fn s(text: &str) -> String {
    text.to_string()
}

fn file(path: &str, links: u64) -> Entry {
    Entry::File { path: s(path), links }
}

fn link(path: &str, target: &str, resolved: Option<&str>) -> Entry {
    Entry::Symlink { path: s(path), target: s(target), resolved: resolved.map(s) }
}

#[test]
fn test_inspect_good() {
    let root = "/data/valid";
    let entries = vec![
        Entry::Directory,
        file("/data/valid/a", 1),
        Entry::Directory,
        file("/data/valid/sub/b", 1),
    ];
    assert_eq!(inspect(root, &entries), None);
}

#[test]
fn test_inspect_pointing_outside() {
    let root = "/w/data/pointing_outside";
    let entries = vec![link("/w/data/pointing_outside/outside", "../../src", Some("/w/src"))];
    assert_eq!(
        inspect(root, &entries),
        Some(vec!["outside is pointing outside, to `../../src`".to_string()])
    );
}

#[test]
fn test_inspect_hardlink() {
    let root = "/data/hardlink";
    let entries = vec![file("/data/hardlink/file", 2), file("/data/hardlink/hardlink", 2)];
    let mut found = inspect(root, &entries).unwrap();
    found.sort();
    assert_eq!(
        found,
        vec![
            "file has more (2) than one hard link".to_string(),
            "hardlink has more (2) than one hard link".to_string()
        ]
    );
}

#[test]
fn test_inspect_broken_softlink() {
    let root = "/data/broken_softlink";
    let entries = vec![link("/data/broken_softlink/link", "file", None)];
    assert_eq!(
        inspect(root, &entries),
        Some(vec!["link is broken, pointing to `file`".to_string()])
    );
}

#[test]
fn cyclic_links_are_reported_as_broken() {
    let root = "/data/loop";
    let entries = vec![
        link("/data/loop/link0", "link1", None),
        link("/data/loop/link1", "link0", None),
    ];
    assert_eq!(
        inspect(root, &entries),
        Some(vec![
            "link0 is broken, pointing to `link1`".to_string(),
            "link1 is broken, pointing to `link0`".to_string()
        ])
    );
}

#[test]
fn absolute_link_outside_the_tree() {
    let root = "/data/absolute_softlink";
    let entries = vec![link("/data/absolute_softlink/link", "/etc/hosts", Some("/etc/hosts"))];
    assert_eq!(
        inspect(root, &entries),
        Some(vec!["link is pointing outside, to `/etc/hosts`".to_string()])
    );
}

#[test]
fn links_inside_the_tree_are_accepted() {
    let root = "/data/t";
    let entries = vec![
        link("/data/t/a", "/data/t/sub/f", Some("/data/t/sub/f")),
        link("/data/t/sub/up", "..", Some("/data/t")),
        link("/data/t/b", "sub", Some("/data/t/sub")),
        Entry::Directory,
        file("/data/t/sub/f", 1),
    ];
    assert_eq!(inspect(root, &entries), None);
}

#[test]
fn sibling_with_common_text_prefix_is_outside() {
    let root = "/data/t";
    let entries = vec![link("/data/t/l", "../t2/f", Some("/data/t2/f"))];
    assert_eq!(
        inspect(root, &entries),
        Some(vec!["l is pointing outside, to `../t2/f`".to_string()])
    );
}

#[test]
fn many_issues_in_visiting_order() {
    let root = "/data/many_issues";
    let entries = vec![
        Entry::Directory,
        link("/data/many_issues/absolute", "/usr", Some("/usr")),
        file("/data/many_issues/fine", 1),
        link("/data/many_issues/broken", "missing", None),
        Entry::Directory,
        file("/data/many_issues/dir/shared", 3),
        link("/data/many_issues/dir/ok", "shared", Some("/data/many_issues/dir/shared")),
    ];
    assert_eq!(
        inspect(root, &entries),
        Some(vec![
            "absolute is pointing outside, to `/usr`".to_string(),
            "broken is broken, pointing to `missing`".to_string(),
            "dir/shared has more (3) than one hard link".to_string()
        ])
    );
}

#[test]
fn scanning_twice_gives_the_same_result() {
    let root = "/r";
    let entries = vec![file("/r/x", 0), link("/r/y", "z", None), Entry::Other { path: s("/r/fifo") }];
    let first = inspect(root, &entries);
    let second = inspect(root, &entries);
    assert_eq!(first, second);
    assert_eq!(first.unwrap().len(), 3);
}

#[test]
fn no_entries_give_absence() {
    assert_eq!(inspect("/r", &vec![]), None);
    assert_eq!(inspect("/r", &vec![Entry::Directory, Entry::Unreadable]), None);
}

#[test]
fn zero_link_count_is_reported() {
    let entries = vec![file("/r/x", 0)];
    assert_eq!(inspect("/r", &entries), Some(vec!["x has more (0) than one hard link".to_string()]));
}

#[test]
fn largest_link_count_is_written_in_full() {
    let entries = vec![file("/r/x", u64::MAX)];
    assert_eq!(
        inspect("/r", &entries),
        Some(vec!["x has more (18446744073709551615) than one hard link".to_string()])
    );
}

#[test]
fn unknown_entry_kind_is_reported() {
    let e = Entry::Other { path: s("/r/dev/null0") };
    assert_eq!(classify("/r", &e), Some("unknown file type: dev/null0".to_string()));
}

#[test]
fn unreadable_entries_are_skipped() {
    assert_eq!(classify("/r", &Entry::Unreadable), None);
    assert_eq!(classify("/r", &Entry::Directory), None);
}

#[test]
fn root_at_file_system_root() {
    let entries = vec![link("/a/l", "/b", Some("/b")), file("/a/f", 2)];
    assert_eq!(
        inspect("/", &entries),
        Some(vec!["a/f has more (2) than one hard link".to_string()])
    );
}
