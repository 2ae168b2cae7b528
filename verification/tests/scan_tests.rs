use std::io::Write;

use switch_index::fsops::RawEntry;
use switch_index::listing::rescan_report;
use switch_index::switch::{apply_listing, is_excluded_name, is_hidden_name, SwitchService};

fn make_file(dir: &std::path::Path, name: &str, contents: &[u8]) -> tempfile::NamedTempFile {
    let mut f = tempfile::Builder::new()
        .prefix(name)
        .rand_bytes(0)
        .disable_cleanup(true)
        .tempfile_in(dir)
        .expect("create file");
    f.write_all(contents).expect("write file");
    f.flush().expect("flush file");
    f
}

fn make_dir(dir: &std::path::Path, name: &str) -> tempfile::TempDir {
    tempfile::Builder::new()
        .prefix(name)
        .rand_bytes(0)
        .disable_cleanup(true)
        .tempdir_in(dir)
        .expect("create dir")
}

#[test]
fn scan_yields_only_visible_files() {
    let root = tempfile::tempdir().expect("root");
    let _a = make_file(root.path(), "a.txt", b"hello");
    let _hidden = make_file(root.path(), ".hidden", b"x");
    let demos = make_dir(root.path(), "demos");
    let _b = make_file(demos.path(), "b.txt", b"bb");

    let service = SwitchService::new(root.path().to_str().unwrap()).expect("index");
    let files = service.list_files();
    assert_eq!(files.len(), 1);
    assert_eq!(files[0].name.as_str(), "a.txt");
    assert_eq!(files[0].rel_path.as_str(), "a.txt");
    assert_eq!(files[0].size, 5);
}

#[test]
fn scan_records_nested_files_with_relative_paths() {
    let root = tempfile::tempdir().expect("root");
    let sub = make_dir(root.path(), "games");
    let _c = make_file(sub.path(), "c.bin", b"abcdef");

    let service = SwitchService::new(root.path().to_str().unwrap()).expect("index");
    let files = service.list_files();
    assert_eq!(files.len(), 1);
    assert_eq!(files[0].name.as_str(), "c.bin");
    assert_eq!(files[0].rel_path.as_str(), "games/c.bin");
    assert_eq!(files[0].size, 6);
}

#[test]
fn scan_prunes_hidden_and_excluded_subtrees_at_any_depth() {
    let root = tempfile::tempdir().expect("root");
    let games = make_dir(root.path(), "games");
    let _kept = make_file(games.path(), "kept.bin", b"k");
    let nested_demos = make_dir(games.path(), "demos");
    let _dropped = make_file(nested_demos.path(), "dropped.bin", b"d");
    let hidden_dir = make_dir(games.path(), ".cache");
    let _also_dropped = make_file(hidden_dir.path(), "also-dropped.bin", b"d");

    let service = SwitchService::new(root.path().to_str().unwrap()).expect("index");
    let files = service.list_files();
    assert_eq!(files.len(), 1);
    assert_eq!(files[0].rel_path.as_str(), "games/kept.bin");
}

#[test]
fn new_fails_on_unreadable_root() {
    let root = tempfile::tempdir().expect("root");
    let missing = root.path().join("nothing-here");
    assert!(SwitchService::new(missing.to_str().unwrap()).is_none());
}

#[test]
fn resolve_file_finds_indexed_entries() {
    let root = tempfile::tempdir().expect("root");
    let _a = make_file(root.path(), "a.txt", b"hello");

    let service = SwitchService::new(root.path().to_str().unwrap()).expect("index");
    let resolved = service.resolve_file("a.txt").expect("resolved");
    let expected = format!("{}/a.txt", root.path().to_str().unwrap());
    assert_eq!(resolved, expected);
}

#[test]
fn resolve_file_rejects_traversal() {
    let root = tempfile::tempdir().expect("root");
    let _a = make_file(root.path(), "a.txt", b"hello");

    let service = SwitchService::new(root.path().to_str().unwrap()).expect("index");
    assert!(service.resolve_file("../../etc/passwd").is_none());
    assert!(service.resolve_file("/etc/passwd").is_none());
    assert!(service.resolve_file("..").is_none());
    assert!(service.resolve_file("").is_none());
}

#[test]
fn resolve_file_rejects_directories_and_absences() {
    let root = tempfile::tempdir().expect("root");
    let _sub = make_dir(root.path(), "games");

    let service = SwitchService::new(root.path().to_str().unwrap()).expect("index");
    assert!(service.resolve_file("games").is_none());
    assert!(service.resolve_file("missing.txt").is_none());
}

#[test]
fn rescan_reports_exact_counts() {
    let root = tempfile::tempdir().expect("root");
    let _a = make_file(root.path(), "a.txt", b"hello");

    let service = SwitchService::new(root.path().to_str().unwrap()).expect("index");
    assert_eq!(service.list_files().len(), 1);

    let _c = make_file(root.path(), "c.txt", b"new");
    let report = rescan_report(&service);
    assert_eq!(report.before, 1);
    assert_eq!(report.after, 2);
    assert_eq!(service.list_files().len(), 2);
}

#[test]
fn name_filters_match_scan_policy() {
    assert!(is_hidden_name(".hidden"));
    assert!(!is_hidden_name("visible"));
    assert!(!is_hidden_name(""));
    assert!(is_excluded_name("demos"));
    assert!(!is_excluded_name("demo"));
    assert!(!is_excluded_name("demos2"));
}

#[test]
fn apply_listing_filters_one_directory() {
    let entries = vec![
        RawEntry {
            ok: true,
            name: "a.txt".to_string(),
            is_file: true,
            is_dir: false,
            size: 5,
        },
        RawEntry {
            ok: true,
            name: ".hidden".to_string(),
            is_file: true,
            is_dir: false,
            size: 1,
        },
        RawEntry {
            ok: true,
            name: "demos".to_string(),
            is_file: false,
            is_dir: true,
            size: 0,
        },
        RawEntry {
            ok: true,
            name: "games".to_string(),
            is_file: false,
            is_dir: true,
            size: 0,
        },
        RawEntry {
            ok: false,
            name: String::new(),
            is_file: false,
            is_dir: false,
            size: 0,
        },
    ];
    let rel = String::new();
    let mut files = Vec::new();
    let mut pending = Vec::new();
    apply_listing(&rel, &entries, &mut files, &mut pending);

    assert_eq!(files.len(), 1);
    assert_eq!(files[0].name.as_str(), "a.txt");
    assert_eq!(files[0].rel_path.as_str(), "a.txt");
    assert_eq!(pending.len(), 1);
    assert_eq!(pending[0].as_str(), "games");
}

#[test]
fn apply_listing_keeps_files_named_like_the_pruned_directory() {
    let entries = vec![RawEntry {
        ok: true,
        name: "demos".to_string(),
        is_file: true,
        is_dir: false,
        size: 3,
    }];
    let rel = "games".to_string();
    let mut files = Vec::new();
    let mut pending = Vec::new();
    apply_listing(&rel, &entries, &mut files, &mut pending);

    assert_eq!(files.len(), 1);
    assert_eq!(files[0].rel_path.as_str(), "games/demos");
    assert!(pending.is_empty());
}
