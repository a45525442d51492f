use indigo_docs::title::{extract_md_title, line_title};

fn lines(v: &[&str]) -> Vec<String> {
    v.iter().map(|s| s.to_string()).collect()
}

#[test]
fn heading_line_is_trimmed() {
    assert_eq!(line_title("  #   Hello World \t"), Some("Hello World".to_string()));
    assert_eq!(line_title("# x"), Some("x".to_string()));
    assert_eq!(line_title("#   "), None);
    assert_eq!(line_title("## Sub"), None);
    assert_eq!(line_title("#NoSpace"), None);
    assert_eq!(line_title(""), None);
}

#[test]
fn first_heading_wins() {
    let l = lines(&["---", "tags: x", "", "# First", "# Second"]);
    assert_eq!(extract_md_title(&l), Some("First".to_string()));
    assert_eq!(extract_md_title(&lines(&["no", "heading"])), None);
}

#[test]
fn heading_past_fifty_lines_is_ignored() {
    let mut l: Vec<String> = (0..50).map(|i| format!("line {}", i)).collect();
    l.push("# Late".to_string());
    assert_eq!(extract_md_title(&l), None);
    l.remove(0);
    assert_eq!(extract_md_title(&l), Some("Late".to_string()));
}
