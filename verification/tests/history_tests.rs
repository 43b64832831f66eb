use luminousity::history::{
    history_text, is_recordable_path, parse_history, record_recent_file, HISTORY_LIMIT,
};

fn strings(v: &[&str]) -> Vec<String> {
    v.iter().map(|s| s.to_string()).collect()
}

#[test]
fn recording_puts_file_first() {
    let h = record_recent_file(strings(&["/a", "/b", "/c"]), "/b".to_string());
    assert_eq!(h, strings(&["/b", "/a", "/c"]));
    let h = record_recent_file(Vec::new(), "/x".to_string());
    assert_eq!(h, strings(&["/x"]));
}

#[test]
fn recording_keeps_twenty() {
    let old: Vec<String> = (0..25).map(|i| format!("/f{i}")).collect();
    let h = record_recent_file(old.clone(), "/new".to_string());
    assert_eq!(h.len(), HISTORY_LIMIT);
    assert_eq!(h[0], "/new");
    assert_eq!(&h[1..], &old[..19]);
}

#[test]
fn recording_twice_is_recording_once() {
    let once = record_recent_file(strings(&["/a", "/b", "/a"]), "/c".to_string());
    let twice = record_recent_file(once.clone(), "/c".to_string());
    assert_eq!(once, twice);
    assert_eq!(once, strings(&["/c", "/a", "/b", "/a"]));
}

#[test]
fn parse_history_text() {
    assert_eq!(parse_history(Some("[\"/a\",\"/b\"]".to_string())), strings(&["/a", "/b"]));
    assert_eq!(parse_history(Some("not json".to_string())), Vec::<String>::new());
    assert_eq!(parse_history(Some("{\"a\":1}".to_string())), Vec::<String>::new());
    assert_eq!(parse_history(None), Vec::<String>::new());
}

#[test]
fn history_text_reads_back() {
    let h = strings(&["/a b", "/c\"d"]);
    let text = history_text(&h).unwrap();
    assert_eq!(text, "[\"/a b\",\"/c\\\"d\"]");
    assert_eq!(parse_history(Some(text)), h);
}

#[test]
fn recording_keeps_entries_distinct() {
    let mut h: Vec<String> = Vec::new();
    for p in ["/a", "/b", "/a", "/c", "/b", "/b"] {
        h = record_recent_file(h, p.to_string());
        let mut seen = std::collections::HashSet::new();
        assert!(h.iter().all(|x| seen.insert(x.clone())));
        assert_eq!(h[0], p);
    }
    assert_eq!(h, strings(&["/b", "/c", "/a"]));
}

#[test]
fn empty_path_is_not_recorded() {
    assert!(!is_recordable_path(""));
    assert!(is_recordable_path("a.txt"));
}
