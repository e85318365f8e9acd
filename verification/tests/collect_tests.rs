use filebyte::collect::{collect_files, collect_files_recursive};
use filebyte::fstree::{get_file_size, FsEntry};
use filebyte::sort::sort_records;
use filebyte::types::{FileInfo, SortBy};

fn file(name: &str, len: u64) -> FsEntry {
    FsEntry {
        name: name.to_string(),
        path: format!("/root/{}", name),
        is_dir: false,
        is_file: true,
        len,
        readonly: false,
        created: None,
        modified: None,
        head: Vec::new(),
        children: Vec::new(),
    }
}

fn dir(name: &str, children: Vec<FsEntry>) -> FsEntry {
    FsEntry {
        name: name.to_string(),
        path: format!("/root/{}", name),
        is_dir: true,
        is_file: false,
        len: 0,
        readonly: false,
        created: None,
        modified: None,
        head: Vec::new(),
        children,
    }
}

fn sample_root() -> FsEntry {
    dir(
        "root",
        vec![
            file("alpha.txt", 10),
            file("beta.log", 20),
            dir("subdir", vec![file("gamma.txt", 30), file("delta.log", 5)]),
        ],
    )
}

fn names(records: &[FileInfo]) -> Vec<String> {
    records.iter().map(|r| r.name.clone()).collect()
}

#[test]
fn shallow_collect_returns_every_direct_entry() {
    let root = sample_root();
    let files = collect_files(&root, None, None, None);
    assert_eq!(files.len(), 3);
    // Default order: directories first, then names ascending.
    assert_eq!(names(&files), vec!["subdir", "alpha.txt", "beta.log"]);
}

#[test]
fn deep_collect_returns_all_descendants_too() {
    let root = sample_root();
    let files = collect_files_recursive(&root, None, None, None);
    assert_eq!(files.len(), 5);
    assert_eq!(names(&files), vec!["subdir", "alpha.txt", "beta.log", "delta.log", "gamma.txt"]);
}

#[test]
fn directory_sizes_are_recursive_totals() {
    let root = sample_root();
    assert_eq!(get_file_size(&root), 65);
    let files = collect_files(&root, None, None, None);
    let sub = files.iter().find(|r| r.name == "subdir").unwrap();
    assert_eq!(sub.size, 35);
    assert_eq!(sub.size_human, "35 B");
    assert_eq!(sub.file_type, "directory");
    assert!(sub.is_directory);
    let alpha = files.iter().find(|r| r.name == "alpha.txt").unwrap();
    assert_eq!(alpha.size, 10);
    assert_eq!(alpha.file_type, "unknown");
    assert!(!alpha.is_directory);
    assert_eq!(alpha.permissions, "rwx");
}

#[test]
fn size_sort_descends_after_directory_prefix() {
    let root = sample_root();
    let files = collect_files_recursive(&root, None, None, Some(SortBy::Size));
    assert!(files[0].is_directory);
    let file_sizes: Vec<u64> = files.iter().filter(|r| !r.is_directory).map(|r| r.size).collect();
    assert_eq!(file_sizes, vec![30, 20, 10, 5]);
}

#[test]
fn substring_search_selects_matching_names() {
    let root = sample_root();
    let pattern = String::from("log");
    let files = collect_files_recursive(&root, Some(&pattern), None, None);
    assert_eq!(names(&files), vec!["beta.log", "delta.log"]);
}

#[test]
fn regex_search_selects_matching_names() {
    let root = sample_root();
    let pattern = String::from("^al.*");
    let files = collect_files(&root, Some(&pattern), None, None);
    assert_eq!(names(&files), vec!["alpha.txt"]);
}

#[test]
fn invalid_regex_search_matches_nothing() {
    let root = sample_root();
    let pattern = String::from("[");
    let files = collect_files(&root, Some(&pattern), None, None);
    assert!(files.is_empty());
}

#[test]
fn exclusion_is_absolute_and_prunes_descent() {
    let root = sample_root();
    let exclude = String::from("log$");
    let files = collect_files_recursive(&root, None, Some(&exclude), None);
    assert_eq!(names(&files), vec!["subdir", "alpha.txt", "gamma.txt"]);
    // Excluding the subdirectory hides everything beneath it.
    let exclude_dir = String::from("^subdir$");
    let files = collect_files_recursive(&root, None, Some(&exclude_dir), None);
    assert_eq!(names(&files), vec!["alpha.txt", "beta.log"]);
}

#[test]
fn invalid_exclusion_excludes_nothing() {
    let root = sample_root();
    let exclude = String::from("[");
    let files = collect_files(&root, None, Some(&exclude), None);
    assert_eq!(files.len(), 3);
}

#[test]
fn date_sort_is_descending_with_missing_dates_last() {
    let mut entries = sample_root();
    entries.children[0].modified = Some(86400); // alpha.txt: 1970-01-02
    entries.children[1].modified = Some(172800); // beta.log: 1970-01-03
    let files = collect_files(&entries, None, None, Some(SortBy::Date));
    // subdir has no date and sorts last among the descending dates; it is a
    // directory, so it still partitions first.
    assert_eq!(names(&files), vec!["subdir", "beta.log", "alpha.txt"]);
}

#[test]
fn sorting_twice_changes_nothing() {
    let root = sample_root();
    let mut files = collect_files_recursive(&root, None, None, Some(SortBy::Size));
    let before = names(&files);
    sort_records(&mut files, Some(SortBy::Size));
    assert_eq!(names(&files), before);
    assert!(files[0].is_directory);
}

#[test]
fn timestamps_are_rendered_in_utc() {
    let mut root = sample_root();
    root.children[0].modified = Some(86400);
    root.children[0].created = Some(0);
    let files = collect_files(&root, None, None, None);
    let alpha = files.iter().find(|r| r.name == "alpha.txt").unwrap();
    assert_eq!(alpha.modified.as_deref(), Some("1970-01-02 00:00:00 UTC"));
    assert_eq!(alpha.created.as_deref(), Some("1970-01-01 00:00:00 UTC"));
    let beta = files.iter().find(|r| r.name == "beta.log").unwrap();
    assert_eq!(beta.modified, None);
}

#[test]
fn content_signatures_classify_file_types() {
    let mut jpeg = file("photo.jpg", 4);
    jpeg.head = vec![0xFF, 0xD8, 0xFF, 0xAA];
    let mut png = file("image.png", 8);
    png.head = vec![0x89, 0x50, 0x4E, 0x47, 0x0D, 0x0A, 0x1A, 0x0A];
    let root = dir("root", vec![jpeg, png]);
    let files = collect_files(&root, None, None, None);
    let photo = files.iter().find(|r| r.name == "photo.jpg").unwrap();
    assert_eq!(photo.file_type, "image/jpeg");
    let image = files.iter().find(|r| r.name == "image.png").unwrap();
    assert_eq!(image.file_type, "image/png");
}

#[test]
fn readonly_entries_get_readonly_permissions() {
    let mut root = sample_root();
    root.children[0].readonly = true;
    let files = collect_files(&root, None, None, None);
    let alpha = files.iter().find(|r| r.name == "alpha.txt").unwrap();
    assert_eq!(alpha.permissions, "r-x");
    // A read-only parent makes its children non-deletable.
    let mut ro_root = sample_root();
    ro_root.readonly = true;
    let files = collect_files(&ro_root, None, None, None);
    let alpha = files.iter().find(|r| r.name == "alpha.txt").unwrap();
    assert_eq!(alpha.permissions, "rw-");
}

#[test]
fn empty_directory_collects_nothing() {
    let root = dir("root", Vec::new());
    assert_eq!(collect_files(&root, None, None, None).len(), 0);
    assert_eq!(collect_files_recursive(&root, None, None, None).len(), 0);
    assert_eq!(get_file_size(&root), 0);
}

#[test]
fn name_sort_is_byte_order() {
    let root = dir("root", vec![file("alpha", 1), file("Zeta", 2), file("beta", 3)]);
    let files = collect_files(&root, None, None, Some(SortBy::Name));
    // Code-point order: uppercase letters sort before lowercase ones.
    assert_eq!(names(&files), vec!["Zeta", "alpha", "beta"]);
}

#[test]
fn collecting_on_a_file_yields_nothing() {
    let lone = file("lone.txt", 7);
    assert!(collect_files(&lone, None, None, None).is_empty());
    assert_eq!(get_file_size(&lone), 7);
}
