use ipet::disk_scanner::{
    dir_node, file_node, other_node, scan_step, summary_node, DirSummary, DiskNode,
    DiskScanRequest, EntryKind, ScanStep,
};

fn file(name: &str, size: u64) -> DiskNode {
    file_node(name.to_string(), format!("/r/{name}"), size)
}

#[test]
fn scan_options_default_and_clamp() {
    let o = DiskScanRequest { path: "/".to_string(), max_depth: None, max_children: None }.options();
    assert_eq!((o.max_depth, o.max_children), (4, 12));
    let o = DiskScanRequest { path: "/".to_string(), max_depth: Some(0), max_children: Some(1000) }.options();
    assert_eq!((o.max_depth, o.max_children), (1, 64));
    let o = DiskScanRequest { path: "/".to_string(), max_depth: Some(99), max_children: Some(0) }.options();
    assert_eq!((o.max_depth, o.max_children), (12, 1));
}

#[test]
fn scan_steps_follow_entry_kind_and_depth() {
    let o = DiskScanRequest { path: "/".to_string(), max_depth: Some(2), max_children: None }.options();
    assert_eq!(scan_step(true, false, 5, &o), ScanStep::File);
    assert_eq!(scan_step(false, false, 0, &o), ScanStep::Other);
    assert_eq!(scan_step(false, true, 1, &o), ScanStep::Descend);
    assert_eq!(scan_step(false, true, 2, &o), ScanStep::Summarize);
}

#[test]
fn directory_totals_and_largest_children_first() {
    let children = vec![
        (file("a", 10), false),
        (file("b", 30), false),
        (file("c", 20), false),
        (file("d", 30), false),
    ];
    let (node, truncated) = dir_node("r".to_string(), "/r".to_string(), children, 12);
    assert!(node.is_dir);
    assert_eq!(node.size_bytes, 90);
    assert_eq!(node.file_count, 4);
    assert_eq!(node.dir_count, 1);
    let names: Vec<&str> = node.children.iter().map(|c| c.name.as_str()).collect();
    assert_eq!(names, vec!["b", "d", "c", "a"], "equal sizes keep their order");
    assert!(!truncated);
}

#[test]
fn children_beyond_the_cap_are_dropped_and_marked() {
    let children = vec![(file("a", 1), false), (file("b", 3), false), (file("c", 2), false)];
    let (node, truncated) = dir_node("r".to_string(), "/r".to_string(), children, 2);
    let names: Vec<&str> = node.children.iter().map(|c| c.name.as_str()).collect();
    assert_eq!(names, vec!["b", "c"]);
    assert_eq!(node.size_bytes, 6, "totals count every child");
    assert!(truncated);

    let (sub, _) = summary_node("s".to_string(), "/r/s".to_string(), &DirSummary { size_bytes: 5, file_count: 2, dir_count: 1 });
    let (node, truncated) = dir_node("r".to_string(), "/r".to_string(), vec![(sub, true)], 12);
    assert!(truncated, "a summarized child marks the scan truncated");
    assert_eq!((node.size_bytes, node.file_count, node.dir_count), (5, 2, 2));
}

#[test]
fn summaries_count_files_dirs_and_saturate() {
    let mut s = DirSummary::new();
    s.add_entry(EntryKind::Dir, 0);
    s.add_entry(EntryKind::File, 7);
    s.add_entry(EntryKind::Other, 100);
    s.add_entry(EntryKind::File, u64::MAX);
    assert_eq!((s.size_bytes, s.file_count, s.dir_count), (u64::MAX, 2, 1));
    let (node, truncated) = summary_node("x".to_string(), "/x".to_string(), &s);
    assert!(truncated && node.is_dir && node.children.is_empty());
    let o = other_node("l".to_string(), "/l".to_string());
    assert_eq!((o.size_bytes, o.file_count, o.is_dir), (0, 0, false));
}
