use std::io::Write;
use std::path::Path;
use std::time::{SystemTime, UNIX_EPOCH};

use mdfiles::date::{get_date, parse_date, Date};
use mdfiles::error::SearchError;
use mdfiles::search::{
    configure, entry_line, entry_matches, epoch_timestamp, exit_code, local_date_of, match_date, matching_lines,
    EpochOffset, FileEntry, SearchConfig, MAX_EPOCH_SECS,
};
use tempfile::{Builder, NamedTempFile, TempDir};

fn make_file(dir: &Path, name: &str) -> NamedTempFile {
    Builder::new().prefix(name).rand_bytes(0).tempfile_in(dir).unwrap()
}

fn make_dir(dir: &Path, name: &str) -> TempDir {
    Builder::new().prefix(name).rand_bytes(0).tempdir_in(dir).unwrap()
}

fn offset_of(t: SystemTime) -> EpochOffset {
    match t.duration_since(UNIX_EPOCH) {
        Ok(d) => EpochOffset { before_epoch: false, secs: d.as_secs(), nanos: d.subsec_nanos() },
        Err(e) => {
            let d = e.duration();
            EpochOffset { before_epoch: true, secs: d.as_secs(), nanos: d.subsec_nanos() }
        }
    }
}

fn entries_under(root: &Path) -> Vec<FileEntry> {
    walkdir::WalkDir::new(root)
        .into_iter()
        .filter_map(|e| e.ok())
        .filter(|e| e.file_type().is_file())
        .map(|e| FileEntry {
            path: e.path().to_str().map(String::from),
            modified: e
                .metadata()
                .ok()
                .and_then(|m| m.modified().ok())
                .and_then(|t| local_date_of(offset_of(t))),
        })
        .collect()
}

fn config(date: Date, suffix: &str, root: &Path) -> SearchConfig {
    SearchConfig {
        date,
        suffix: suffix.to_string(),
        root: root.to_str().unwrap().to_string(),
    }
}

fn find(root: &Path, suffix: &str, date: Date) -> Vec<String> {
    matching_lines(&entries_under(root), &config(date, suffix, root))
}

fn today() -> Date {
    get_date(None).unwrap()
}

fn entry(path: &str, modified: Option<Date>) -> FileEntry {
    FileEntry { path: Some(path.to_string()), modified }
}

#[test]
fn test_find_files_returns_ok() {
    let temp_dir = TempDir::new().unwrap();
    let result = find(temp_dir.path(), ".txt", today());
    assert!(result.is_empty() || !result.is_empty());
}

#[test]
fn test_find_files_with_today_date() {
    let temp_dir = TempDir::new().unwrap();
    let mut file = make_file(temp_dir.path(), "test.txt");
    file.write_all(b"test content").unwrap();
    file.flush().unwrap();

    let result = find(temp_dir.path(), ".txt", today());
    assert!(result.iter().any(|p| p.contains("test.txt")));
}

#[test]
fn test_find_files_empty_directory() {
    let temp_dir = TempDir::new().unwrap();
    let result = find(temp_dir.path(), ".txt", today());
    assert_eq!(result.len(), 0);
}

#[test]
fn test_find_files_nonexistent_date() {
    let temp_dir = TempDir::new().unwrap();
    let _file = make_file(temp_dir.path(), "test.txt");

    let old_date = Date { year: 2020, month: 1, day: 1 };
    let result = find(temp_dir.path(), ".txt", old_date);
    assert_eq!(result.len(), 0);
}

#[test]
fn test_find_files_with_suffix_filter() {
    let temp_dir = TempDir::new().unwrap();
    let _go = make_file(temp_dir.path(), "test.go");
    let _txt = make_file(temp_dir.path(), "test.txt");
    let _rs = make_file(temp_dir.path(), "test.rs");

    let result = find(temp_dir.path(), ".go", today());
    assert_eq!(result.len(), 1);
    assert!(result[0].ends_with(".go)"));

    let result = find(temp_dir.path(), ".txt", today());
    assert_eq!(result.len(), 1);
    assert!(result[0].ends_with(".txt)"));

    let result = find(temp_dir.path(), ".rs", today());
    assert_eq!(result.len(), 1);
    assert!(result[0].ends_with(".rs)"));
}

#[test]
fn test_find_files_no_matching_suffix() {
    let temp_dir = TempDir::new().unwrap();
    let _file = make_file(temp_dir.path(), "test.txt");
    let result = find(temp_dir.path(), ".go", today());
    assert_eq!(result.len(), 0);
}

#[test]
fn test_find_files_with_custom_root() {
    let temp_dir = TempDir::new().unwrap();
    let subdir = make_dir(temp_dir.path(), "subdir");
    let _root_file = make_file(temp_dir.path(), "root.txt");
    let _sub_file = make_file(subdir.path(), "sub.txt");

    let result = find(temp_dir.path(), ".txt", today());
    assert_eq!(result.len(), 2);

    let result = find(subdir.path(), ".txt", today());
    assert_eq!(result.len(), 1);
    assert!(result[0].contains("sub.txt"));
}

#[test]
fn test_find_files_nested_directories() {
    let temp_dir = TempDir::new().unwrap();
    let level1 = make_dir(temp_dir.path(), "level1");
    let level2 = make_dir(level1.path(), "level2");
    let _f0 = make_file(temp_dir.path(), "file0.go");
    let _f1 = make_file(level1.path(), "file1.go");
    let _f2 = make_file(level2.path(), "file2.go");

    let result = find(temp_dir.path(), ".go", today());
    assert_eq!(result.len(), 3);

    let result = find(level1.path(), ".go", today());
    assert_eq!(result.len(), 2);
    let result = find(level2.path(), ".go", today());
    assert_eq!(result.len(), 1);
    assert!(result[0].contains("file2.go"));
}

#[test]
fn listing_keeps_exactly_the_suffix_matches_in_order() {
    let day = Date { year: 2025, month: 12, day: 25 };
    let entries = vec![
        entry("root/a.go", Some(day)),
        entry("root/b.txt", Some(day)),
        entry("root/c.rs", Some(day)),
        entry("root/sub/d.go", Some(day)),
    ];
    let c = SearchConfig { date: day, suffix: ".go".to_string(), root: "root".to_string() };
    assert_eq!(
        matching_lines(&entries, &c),
        vec!["- [a.go](root/a.go)".to_string(), "- [d.go](root/sub/d.go)".to_string()]
    );
}

#[test]
fn listing_keeps_only_the_target_date() {
    let day = Date { year: 2025, month: 12, day: 25 };
    let other = Date { year: 2020, month: 1, day: 1 };
    let entries = vec![
        entry("./x.go", Some(day)),
        entry("./y.go", Some(other)),
        entry("./z.go", None),
        FileEntry { path: None, modified: Some(day) },
    ];
    let c = SearchConfig { date: day, suffix: ".go".to_string(), root: ".".to_string() };
    assert_eq!(matching_lines(&entries, &c), vec!["- [x.go](./x.go)".to_string()]);
    assert!(entry_matches(&entries[0], &c));
    assert!(!entry_matches(&entries[1], &c));
    assert!(!entry_matches(&entries[2], &c));
    assert!(!entry_matches(&entries[3], &c));
    assert_eq!(entry_line(&entries[0], &c), Some("- [x.go](./x.go)".to_string()));
    assert_eq!(entry_line(&entries[1], &c), None);
}

#[test]
fn listing_of_no_entries_is_empty() {
    let c = SearchConfig { date: today(), suffix: ".go".to_string(), root: ".".to_string() };
    assert!(matching_lines(&Vec::new(), &c).is_empty());
}

#[test]
fn date_match_needs_a_known_equal_date() {
    let day = Date { year: 2024, month: 2, day: 29 };
    assert!(match_date(Some(day), day));
    assert!(!match_date(Some(Date { year: 2024, month: 3, day: 1 }), day));
    assert!(!match_date(None, day));
}

#[test]
fn epoch_timestamps_of_moments() {
    assert_eq!(
        epoch_timestamp(EpochOffset { before_epoch: false, secs: 1_700_000_000, nanos: 7 }),
        Some((1_700_000_000, 7))
    );
    assert_eq!(
        epoch_timestamp(EpochOffset { before_epoch: true, secs: 10, nanos: 0 }),
        Some((-10, 0))
    );
    assert_eq!(
        epoch_timestamp(EpochOffset { before_epoch: true, secs: 10, nanos: 250_000_000 }),
        Some((-11, 750_000_000))
    );
    assert_eq!(
        epoch_timestamp(EpochOffset { before_epoch: true, secs: MAX_EPOCH_SECS, nanos: 1 }),
        Some((-(MAX_EPOCH_SECS as i64) - 1, 999_999_999))
    );
    assert_eq!(
        epoch_timestamp(EpochOffset { before_epoch: false, secs: MAX_EPOCH_SECS + 1, nanos: 0 }),
        None
    );
    assert_eq!(
        epoch_timestamp(EpochOffset { before_epoch: true, secs: 0, nanos: 1_000_000_000 }),
        None
    );
}

#[test]
fn local_dates_of_moments() {
    let d = local_date_of(EpochOffset { before_epoch: false, secs: 1_700_000_000, nanos: 0 })
        .unwrap();
    assert_eq!((d.year, d.month), (2023, 11));
    assert!(d.day == 14 || d.day == 15);

    let d = local_date_of(EpochOffset { before_epoch: true, secs: 86_400 * 400, nanos: 5 })
        .unwrap();
    assert_eq!(d.year, 1968);
    assert!(d.month == 11 || d.month == 12);

    assert_eq!(
        local_date_of(EpochOffset { before_epoch: false, secs: MAX_EPOCH_SECS + 1, nanos: 0 }),
        None
    );
    assert_eq!(
        local_date_of(EpochOffset { before_epoch: false, secs: 0, nanos: 1_000_000_000 }),
        None
    );
    assert!(
        local_date_of(EpochOffset { before_epoch: true, secs: MAX_EPOCH_SECS, nanos: 999_999_999 })
            .is_some()
    );
}

#[test]
fn local_date_of_now_is_today() {
    let before = today();
    let now = local_date_of(offset_of(SystemTime::now())).unwrap();
    let after = today();
    assert!(now == before || now == after);
}

#[test]
fn test_long_flag_with_valid_date() {
    let outcome = configure(Some("2025-12-25"), ".go", ".", true);
    assert_eq!(exit_code(&outcome), 0);
    let c = outcome.unwrap();
    assert_eq!(c.date, parse_date("2025-12-25").unwrap());
    assert_eq!(c.suffix, ".go");
    assert_eq!(c.root, ".");
}

#[test]
fn test_no_args_finds_go_files() {
    let outcome = configure(None, ".go", ".", true);
    assert_eq!(exit_code(&outcome), 0);
    assert_eq!(outcome.unwrap().date, today());
}

#[test]
fn cli_test_invalid_date_format() {
    let outcome = configure(Some("25-12-2025"), ".go", ".", true);
    assert_eq!(exit_code(&outcome), 1);
    assert!(outcome.unwrap_err().message().contains("Invalid date format"));
}

#[test]
fn cli_test_invalid_date_value() {
    let outcome = configure(Some("2025-13-45"), ".go", ".", true);
    assert_eq!(exit_code(&outcome), 1);
    assert!(outcome.unwrap_err().message().contains("Invalid date format"));
}

#[test]
fn cli_test_malformed_date() {
    let outcome = configure(Some("not-a-date"), ".go", ".", true);
    assert_eq!(exit_code(&outcome), 1);
    assert!(outcome.unwrap_err().message().contains("Invalid date format"));
}

#[test]
fn test_nonexistent_root_directory() {
    let root = "/nonexistent/path/that/does/not/exist";
    let outcome = configure(None, ".go", root, false);
    assert_eq!(exit_code(&outcome), 1);
    let e = outcome.unwrap_err();
    assert!(matches!(&e, SearchError::RootNotFound(r) if r == root));
    assert!(e.message().contains("does not exist"));
    assert_eq!(
        e.message(),
        "root directory '/nonexistent/path/that/does/not/exist' does not exist"
    );
}

#[test]
fn date_is_checked_before_the_root() {
    let outcome = configure(Some("2025-02-30"), ".go", "/missing", false);
    assert!(matches!(outcome, Err(SearchError::InvalidDateFormat)));
}
