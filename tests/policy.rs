use indigo_docs::metadata::{file_metadata, reading_time_minutes};
use indigo_docs::exclude::{path_has_excluded_component, should_exclude};
use indigo_docs::repo::extract_repo_name_from_path;
use indigo_docs::scope::{find_wildcard, wildcard_matches, ListedEntry};

#[test]
fn exclusion_denylist_and_dotfiles() {
    for n in ["node_modules", ".git", "dist", ".next", ".turbo", ".vercel", "target", ".DS_Store", "thumbs.db", ".hidden", "."] {
        assert!(should_exclude(n), "{}", n);
    }
    for n in ["docs", "", "targets", "Dist", "notes.md", "a.git"] {
        assert!(!should_exclude(n), "{}", n);
    }
}

#[test]
fn excluded_component_anywhere_in_path() {
    assert!(path_has_excluded_component(b"/hq/.git/HEAD"));
    assert!(path_has_excluded_component(b"/hq/docs/node_modules/x.md"));
    assert!(path_has_excluded_component(b"/hq/docs/.draft.md"));
    assert!(!path_has_excluded_component(b"/hq/docs/a.md"));
    assert!(!path_has_excluded_component(b"/hq/./docs/../a.md"));
    assert!(!path_has_excluded_component(b""));
}

fn seg(v: &[&str]) -> Vec<String> {
    v.iter().map(|s| s.to_string()).collect()
}

#[test]
fn wildcard_position() {
    assert_eq!(find_wildcard(&seg(&["teams", "*", "knowledge"])), Some(1));
    assert_eq!(find_wildcard(&seg(&["knowledge", "public"])), None);
    assert_eq!(find_wildcard(&seg(&["*", "x", "*"])), Some(0));
    assert_eq!(find_wildcard(&seg(&["**", "x"])), None);
}

#[test]
fn wildcard_expansion_skips_hidden_and_files() {
    let e = |n: &str, d: bool, l: bool| ListedEntry { name: n.to_string(), is_dir: d, is_symlink: l };
    let entries = vec![
        e("alpha", true, false),
        e(".hidden", true, false),
        e("readme.md", false, false),
        e("beta", false, true),
        e("node_modules", true, false),
    ];
    assert_eq!(wildcard_matches(&entries), vec![0, 3]);
}

#[test]
fn repo_name_from_resolved_path() {
    assert_eq!(
        extract_repo_name_from_path("/Users/me/repos/public/knowledge-ralph/docs/a.md"),
        Some("knowledge-ralph".to_string())
    );
    assert_eq!(extract_repo_name_from_path("/x/repos/private/core"), Some("core".to_string()));
    assert_eq!(extract_repo_name_from_path("/x/repos/public/"), None);
    assert_eq!(extract_repo_name_from_path("/x/repos/public"), None);
    assert_eq!(extract_repo_name_from_path("/x/docs/a.md"), None);
    assert_eq!(extract_repo_name_from_path("/repos/public//repos/private/b/c"), Some("b".to_string()));
}

#[test]
fn reading_time_and_repo_in_metadata() {
    assert_eq!(reading_time_minutes(0), 1);
    assert_eq!(reading_time_minutes(199), 1);
    assert_eq!(reading_time_minutes(450), 2);
    let m = file_metadata(450, 10, Some(5), "/hq/a.md".to_string(), Some("/r/repos/public/kb/a.md".to_string()));
    assert_eq!(m.reading_time_minutes, 2);
    assert_eq!(m.source_repo_name, Some("kb".to_string()));
    let m = file_metadata(3, 10, None, "/hq/a.md".to_string(), None);
    assert_eq!(m.source_repo_name, None);
    assert_eq!(m.reading_time_minutes, 1);
}
