use indigo_docs::scan::{scan_dir_recursive, scan_hq_directory, EntryKind, FileTreeNode, RawEntry, MAX_SCAN_DEPTH};

fn file(parent: &str, name: &str) -> RawEntry {
    RawEntry {
        name: name.to_string(),
        path: format!("{}/{}", parent, name),
        kind: EntryKind::File,
        modified: Some(7),
        title: Some(format!("Title of {}", name)),
        listing: None,
    }
}

fn dir(parent: &str, name: &str, entries: Vec<RawEntry>) -> RawEntry {
    RawEntry {
        name: name.to_string(),
        path: format!("{}/{}", parent, name),
        kind: EntryKind::Directory,
        modified: Some(3),
        title: None,
        listing: Some(entries),
    }
}

fn names(n: &FileTreeNode) -> Vec<String> {
    n.children.iter().map(|c| c.name.clone()).collect()
}

fn sample() -> RawEntry {
    dir(
        "/hq",
        "docs",
        vec![
            file("/hq/docs", "zeta.md"),
            file("/hq/docs", "notes.txt"),
            dir("/hq/docs", "b", vec![file("/hq/docs/b", "one.md")]),
            file("/hq/docs", "Alpha.md"),
            dir("/hq/docs", "a", vec![file("/hq/docs/a", "two.md"), file("/hq/docs/a", "three.md")]),
            dir("/hq/docs", "empty", vec![file("/hq/docs/empty", "img.png")]),
            dir("/hq/docs", ".git", vec![file("/hq/docs/.git", "x.md")]),
            dir("/hq/docs", "node_modules", vec![file("/hq/docs/node_modules", "y.md")]),
            file("/hq/docs", ".hidden.md"),
        ],
    )
}

#[test]
fn scan_orders_directories_first_then_names() {
    let n = scan_dir_recursive(&sample(), 0, MAX_SCAN_DEPTH).unwrap();
    assert_eq!(names(&n), vec!["a", "b", "Alpha.md", "zeta.md"]);
    assert_eq!(names(&n.children[0]), vec!["three.md", "two.md"]);
}

#[test]
fn scan_counts_and_prunes() {
    let n = scan_dir_recursive(&sample(), 0, MAX_SCAN_DEPTH).unwrap();
    assert_eq!(n.file_count, 5);
    assert_eq!(n.children[0].file_count, 2);
    assert_eq!(n.children[1].file_count, 1);
    assert_eq!(n.children[2].file_count, 0);
    assert!(n.is_directory);
    assert_eq!(n.name, "docs");
    assert_eq!(n.path, "/hq/docs");
    assert_eq!(n.modified, Some(3));
    assert_eq!(n.title, None);
}

#[test]
fn scan_excludes_hidden_and_denied_entries() {
    let n = scan_dir_recursive(&sample(), 0, MAX_SCAN_DEPTH).unwrap();
    for c in &n.children {
        assert!(c.name != ".git" && c.name != "node_modules" && c.name != ".hidden.md");
    }
}

#[test]
fn scan_depths_and_file_nodes() {
    let n = scan_dir_recursive(&sample(), 2, MAX_SCAN_DEPTH).unwrap();
    assert_eq!(n.depth, 2);
    for c in &n.children {
        assert_eq!(c.depth, 3);
    }
    let f = &n.children[2];
    assert!(!f.is_directory);
    assert_eq!(f.path, "/hq/docs/Alpha.md");
    assert_eq!(f.title, Some("Title of Alpha.md".to_string()));
    assert_eq!(f.modified, Some(7));
    assert!(f.children.is_empty());
}

#[test]
fn scan_past_depth_bound_or_unreadable_is_none() {
    assert!(scan_dir_recursive(&sample(), MAX_SCAN_DEPTH + 1, MAX_SCAN_DEPTH).is_none());
    let mut unreadable = sample();
    unreadable.listing = None;
    assert!(scan_dir_recursive(&unreadable, 0, MAX_SCAN_DEPTH).is_none());
}

/// A directory that contains itself through a link, unrolled deeper than the bound.
fn cycle(depth: u32) -> RawEntry {
    let mut entries = vec![file("/hq/a", "note.md")];
    if depth < 40 {
        entries.push(dir("/hq", "a", Vec::new()));
        let last = entries.len() - 1;
        entries[last] = cycle(depth + 1);
    }
    dir("/hq", "a", entries)
}

#[test]
fn scan_truncates_link_cycle_at_depth_bound() {
    let n = scan_dir_recursive(&cycle(0), 0, MAX_SCAN_DEPTH).unwrap();
    let mut cur = &n;
    let mut levels = 0;
    while let Some(c) = cur.children.iter().find(|c| c.is_directory) {
        assert_eq!(c.depth, cur.depth + 1);
        cur = c;
        levels += 1;
    }
    assert_eq!(levels, 15);
    assert_eq!(cur.depth, 15);
    assert_eq!(n.file_count, 16);
}

#[test]
fn scan_twice_gives_same_tree() {
    let a = scan_dir_recursive(&sample(), 0, MAX_SCAN_DEPTH).unwrap();
    let b = scan_dir_recursive(&sample(), 0, MAX_SCAN_DEPTH).unwrap();
    assert_eq!(names(&a), names(&b));
    assert_eq!(a.file_count, b.file_count);
    for (x, y) in a.children.iter().zip(b.children.iter()) {
        assert_eq!(x.path, y.path);
        assert_eq!(x.file_count, y.file_count);
    }
}

#[test]
fn scan_hq_rejects_non_directory() {
    let r = scan_hq_directory("/nope", false, &Vec::new());
    assert_eq!(r.err(), Some("HQ path is not a directory: /nope".to_string()));
}

#[test]
fn scan_hq_omits_scopes_without_markdown() {
    let roots = vec![
        dir("/hq", "images", vec![file("/hq/images", "a.png")]),
        dir("/hq", "hollow", vec![dir("/hq/hollow", "sub", Vec::new())]),
        sample(),
    ];
    let r = scan_hq_directory("/hq", true, &roots).unwrap();
    assert_eq!(r.len(), 1);
    assert_eq!(r[0].name, "docs");
    assert_eq!(r[0].depth, 0);
}

#[test]
fn scan_hq_keeps_wildcard_roots_in_order() {
    let roots = vec![
        dir("/hq/teams/alpha", "knowledge", vec![file("/hq/teams/alpha/knowledge", "a.md")]),
        dir("/hq/teams/beta", "knowledge", vec![file("/hq/teams/beta/knowledge", "b.md")]),
    ];
    let r = scan_hq_directory("/hq", true, &roots).unwrap();
    assert_eq!(r.len(), 2);
    assert_eq!(r[0].path, "/hq/teams/alpha/knowledge");
    assert_eq!(r[1].path, "/hq/teams/beta/knowledge");
}

#[test]
fn scan_skips_unreadable_entries_without_effect() {
    let broken = RawEntry {
        name: "broken.md".to_string(),
        path: "/hq/d/broken.md".to_string(),
        kind: EntryKind::Other,
        modified: None,
        title: None,
        listing: None,
    };
    let mut locked = dir("/hq/d", "locked", Vec::new());
    locked.listing = None;
    let root = dir("/hq", "d", vec![broken, locked, file("/hq/d", "ok.md")]);
    let n = scan_dir_recursive(&root, 0, MAX_SCAN_DEPTH).unwrap();
    assert_eq!(names(&n), vec!["ok.md"]);
    assert_eq!(n.file_count, 1);
}

#[test]
fn scan_counts_sum_bottom_up_through_levels() {
    let root = dir(
        "/hq",
        "k",
        vec![
            dir("/hq/k", "x", vec![dir("/hq/k/x", "y", vec![file("/hq/k/x/y", "a.md"), file("/hq/k/x/y", "b.md")]), file("/hq/k/x", "c.md")]),
            file("/hq/k", "d.md"),
        ],
    );
    let n = scan_dir_recursive(&root, 0, MAX_SCAN_DEPTH).unwrap();
    assert_eq!(n.file_count, 4);
    assert_eq!(n.children[0].file_count, 3);
    assert_eq!(n.children[0].children[0].file_count, 2);
    assert_eq!(n.children[0].children[0].title, None);
    assert_eq!(names(&n.children[0]), vec!["y", "c.md"]);
}
