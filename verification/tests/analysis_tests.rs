use filebyte::analysis::{analyze, file_type_stats, find_duplicates};
use filebyte::fstree::FsEntry;
use filebyte::types::FileInfo;

fn file_at(name: &str, path: &str, len: u64) -> FsEntry {
    FsEntry {
        name: name.to_string(),
        path: path.to_string(),
        is_dir: false,
        is_file: true,
        len,
        readonly: false,
        created: None,
        modified: None,
        head: Vec::new(),
        children: Vec::new(),
    }
}

fn dir_of(name: &str, children: Vec<FsEntry>) -> FsEntry {
    FsEntry {
        name: name.to_string(),
        path: format!("/{}", name),
        is_dir: true,
        is_file: false,
        len: 0,
        readonly: false,
        created: None,
        modified: None,
        head: Vec::new(),
        children,
    }
}

fn record(name: &str, size: u64, file_type: &str, permissions: &str, is_directory: bool) -> FileInfo {
    FileInfo {
        name: name.to_string(),
        path: format!("/{}", name),
        size,
        size_human: String::new(),
        file_type: file_type.to_string(),
        created: None,
        modified: None,
        permissions: permissions.to_string(),
        is_directory,
    }
}

#[test]
fn duplicate_groups_by_exact_size() {
    let root = dir_of(
        "root",
        vec![
            file_at("a", "/a", 10),
            file_at("b", "/b", 10),
            file_at("c", "/c", 20),
            dir_of(
                "sub",
                vec![file_at("d", "/sub/d", 30), file_at("e", "/sub/e", 30), file_at("f", "/sub/f", 30)],
            ),
        ],
    );
    let groups = find_duplicates(&root);
    assert_eq!(groups.len(), 2);
    let g10 = groups.iter().find(|g| g.size == 10).unwrap();
    assert_eq!(g10.paths, vec!["/a", "/b"]);
    let g30 = groups.iter().find(|g| g.size == 30).unwrap();
    assert_eq!(g30.paths, vec!["/sub/d", "/sub/e", "/sub/f"]);
    assert!(groups.iter().all(|g| g.size != 20));
}

#[test]
fn no_duplicates_in_distinct_sizes() {
    let root = dir_of("root", vec![file_at("a", "/a", 1), file_at("b", "/b", 2)]);
    assert!(find_duplicates(&root).is_empty());
}

#[test]
fn analyze_counts_items_and_extremes() {
    let files = vec![
        record("docs", 0, "directory", "rwx", true),
        record("big.bin", 5000, "unknown", "rwx", false),
        record("small.txt", 3, "unknown", "rwx", false),
        record("empty.txt", 0, "unknown", "rwx", false),
    ];
    let r = analyze(&files, 0);
    assert_eq!(r.total_items, 4);
    assert_eq!(r.total_dirs, 1);
    assert_eq!(r.total_files, 3);
    assert_eq!(r.largest, Some(1));
    assert_eq!(r.smallest, Some(2));
    // Buckets: two empties (the directory and empty.txt), one tiny, one small.
    assert_eq!(r.size_counts, vec![2, 1, 1, 0, 0, 0]);
}

#[test]
fn analyze_excludes_empty_files_from_smallest() {
    let files = vec![
        record("docs", 0, "directory", "rwx", true),
        record("empty.txt", 0, "unknown", "rwx", false),
    ];
    let r = analyze(&files, 0);
    assert_eq!(r.smallest, None);
    assert_eq!(r.largest, Some(1));
}

#[test]
fn analyze_age_buckets_from_modification_times() {
    let mut fresh = record("fresh.txt", 1, "unknown", "rwx", false);
    fresh.modified = Some("1970-01-02 00:00:00 UTC".to_string());
    let mut old = record("old.txt", 1, "unknown", "rwx", false);
    old.modified = Some("1970-01-01 00:00:00 UTC".to_string());
    let mut unreadable = record("odd.txt", 1, "unknown", "rwx", false);
    unreadable.modified = Some("not a timestamp".to_string());
    let undated = record("undated.txt", 1, "unknown", "rwx", false);
    // Evaluation one hour after the fresh file's modification: the fresh file
    // is a day old at most, the old one lands in the second bucket.
    let now: u64 = 86400 + 3600;
    let r = analyze(&vec![fresh, old, unreadable, undated], now);
    assert_eq!(r.age_counts, vec![1, 1, 0, 0, 0]);
    // Twenty days after its modification a file lands in the month bucket.
    let r = analyze(
        &vec![
            {
                let mut f = record("fresh.txt", 1, "unknown", "rwx", false);
                f.modified = Some("1970-01-02 00:00:00 UTC".to_string());
                f
            },
        ],
        86400 * 21,
    );
    assert_eq!(r.age_counts, vec![0, 0, 1, 0, 0]);
}

#[test]
fn analyze_permission_summary() {
    let files = vec![
        record("a", 1, "unknown", "r--", false),
        record("b", 1, "unknown", "rw-", false),
        record("c", 1, "unknown", "rwx", false),
        record("d", 1, "unknown", "---", false),
    ];
    let r = analyze(&files, 0);
    assert_eq!(r.readable, 3);
    assert_eq!(r.writable, 2);
    assert_eq!(r.read_only, 1);
    assert_eq!(r.read_write, 1);
}

#[test]
fn type_stats_count_regular_files_per_type() {
    let files = vec![
        record("docs", 0, "directory", "rwx", true),
        record("a.png", 10, "image/png", "rwx", false),
        record("b.png", 20, "image/png", "rwx", false),
        record("c.jpg", 30, "image/jpeg", "rwx", false),
        record("d.bin", 40, "unknown", "rwx", false),
    ];
    let (pairs, total) = file_type_stats(&files);
    assert_eq!(total, 4);
    assert_eq!(pairs.len(), 2);
    let png = pairs.iter().find(|p| p.0 == "image/png").unwrap();
    assert_eq!(png.1, 2);
    let jpg = pairs.iter().find(|p| p.0 == "image/jpeg").unwrap();
    assert_eq!(jpg.1, 1);
    assert!(pairs.iter().all(|p| p.0 != "unknown"));
}

#[test]
fn type_stats_of_empty_set() {
    let (pairs, total) = file_type_stats(&Vec::new());
    assert!(pairs.is_empty());
    assert_eq!(total, 0);
}
