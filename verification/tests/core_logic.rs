use napm::commands::install::{run as install_run, InstallState, StepOutcome};
use napm::commands::remove::{removal_flags, run as remove_run, RemoveState};
use napm::freshness::{needs_extraction, CacheState};
use napm::owners::{find_owners, match_file_lines, PackageListing};
use napm::record::{parse_desc_fields, parse_package_record, split_dir_name};
use napm::unpack::{plan_entry, EntryAction, EntryKind};

#[test]
fn missing_cache_is_stale() {
    let cache = CacheState { exists: false, mtime: 0 };
    assert!(needs_extraction(&cache, 0));
}

#[test]
fn newer_archive_is_stale() {
    let cache = CacheState { exists: true, mtime: 100 };
    assert!(needs_extraction(&cache, 101));
}

#[test]
fn unchanged_archive_is_fresh() {
    let cache = CacheState { exists: true, mtime: 100 };
    assert!(!needs_extraction(&cache, 100));
    assert!(!needs_extraction(&cache, 99));
}

#[test]
fn refresh_twice_extracts_once() {
    // The archive is older than the moment of extraction, so a second
    // conditional refresh finds the cache fresh and leaves it alone.
    let before = CacheState { exists: false, mtime: 0 };
    let archive_mtime = 500;
    assert!(needs_extraction(&before, archive_mtime));
    let after_first = CacheState { exists: true, mtime: 800 };
    assert!(!needs_extraction(&after_first, archive_mtime));
}

#[test]
fn extraction_plan_mirrors_archive() {
    let entries = [
        ("pkgA-1.0/", EntryKind::Directory),
        ("pkgA-1.0/desc", EntryKind::RegularFile),
        ("pkgA-1.0/files", EntryKind::RegularFile),
    ];
    let acts: Vec<EntryAction> = entries.iter().map(|(p, k)| plan_entry(p, k)).collect();
    assert!(matches!(acts[0], EntryAction::MakeDir));
    assert!(matches!(acts[1], EntryAction::WriteFile));
    assert!(matches!(acts[2], EntryAction::WriteFile));
}

#[test]
fn extraction_plan_skips_root_markers_and_specials() {
    assert!(matches!(plan_entry("", &EntryKind::RegularFile), EntryAction::Skip));
    assert!(matches!(plan_entry(".", &EntryKind::Directory), EntryAction::Skip));
    assert!(matches!(plan_entry("pkg/link", &EntryKind::Other), EntryAction::Skip));
}

#[test]
fn desc_fields_are_parsed() {
    let content = "%NAME%\nbash\n\n%VERSION%\n5.2.21-1\n\n%UNKNOWN%\nignored\n";
    let (name, version, desc) = parse_desc_fields(content);
    assert_eq!(name, "bash");
    assert_eq!(version, "5.2.21-1");
    assert_eq!(desc, "");
}

#[test]
fn multi_line_desc_joins_with_spaces() {
    let content = "%DESC%\nthe first line\nthe second line\n";
    let (_, _, desc) = parse_desc_fields(content);
    assert_eq!(desc, "the first line the second line");
}

#[test]
fn desc_lines_are_trimmed_and_blank_lines_skipped() {
    let content = "  %NAME%  \n   gnu bash   \n\n%DESC%\n  a shell \n\n  still the shell  \n";
    let (name, _, desc) = parse_desc_fields(content);
    assert_eq!(name, "gnu bash");
    // The blank line does not close the DESC field.
    assert_eq!(desc, "a shell still the shell");
}

#[test]
fn later_name_value_replaces_earlier() {
    let content = "%NAME%\nfirst\nsecond\n";
    let (name, _, _) = parse_desc_fields(content);
    assert_eq!(name, "second");
}

#[test]
fn dir_name_splits_at_last_hyphen() {
    let (name, version) = split_dir_name("bash-5.2.21");
    assert_eq!(name, "bash");
    assert_eq!(version, "5.2.21");
    let (name, version) = split_dir_name("bash-5.2.21-1");
    assert_eq!(name, "bash-5.2.21");
    assert_eq!(version, "1");
}

#[test]
fn dir_name_without_hyphen_is_all_name() {
    let (name, version) = split_dir_name("bash");
    assert_eq!(name, "bash");
    assert_eq!(version, "");
}

#[test]
fn record_falls_back_to_dir_name() {
    let pkg = parse_package_record("core", "zlib-1.3-2", None);
    assert_eq!(pkg.name, "zlib-1.3");
    assert_eq!(pkg.version, "2");
    assert_eq!(pkg.db_name, "core");
    assert_eq!(pkg.desc, "");
}

#[test]
fn record_prefers_description_file() {
    let pkg = parse_package_record(
        "extra",
        "zlib-1.3-2",
        Some("%NAME%\nzlib\n%VERSION%\n1.3-2\n%DESC%\na compression library\n"),
    );
    assert_eq!(pkg.name, "zlib");
    assert_eq!(pkg.version, "1.3-2");
    assert_eq!(pkg.db_name, "extra");
    assert_eq!(pkg.desc, "a compression library");
}

#[test]
fn suffix_match_returns_each_matching_path_once() {
    let files = "%FILES%\n/usr/bin/foo\n/usr/share/foo/foo\n/usr/bin/foobar\n";
    let hits = match_file_lines(files, "foo");
    assert_eq!(hits, vec!["/usr/bin/foo".to_string(), "/usr/share/foo/foo".to_string()]);
}

#[test]
fn suffix_match_needs_a_whole_segment() {
    let files = "foo\nusr/bin/afoo\nusr/bin/foo.bak\n";
    let hits = match_file_lines(files, "foo");
    assert!(hits.is_empty());
}

#[test]
fn find_owners_walks_every_listing() {
    let listings = vec![
        PackageListing {
            db_name: "core".to_string(),
            dir_name: "bash-5.2.21-1".to_string(),
            desc: Some("%NAME%\nbash\n%VERSION%\n5.2.21-1\n".to_string()),
            files: Some("%FILES%\nusr/bin/bash\nusr/share/man/bash.1\n".to_string()),
        },
        PackageListing {
            db_name: "extra".to_string(),
            dir_name: "bash-completion-2.11-1".to_string(),
            desc: None,
            files: None,
        },
        PackageListing {
            db_name: "extra".to_string(),
            dir_name: "dash-0.5.12-1".to_string(),
            desc: None,
            files: Some("usr/bin/dash\nusr/bin/bash\n".to_string()),
        },
    ];
    let hits = find_owners(&listings, "bash");
    assert_eq!(hits.len(), 2);
    assert_eq!(hits[0].pkg.name, "bash");
    assert_eq!(hits[0].pkg.db_name, "core");
    assert_eq!(hits[0].path, "usr/bin/bash");
    assert_eq!(hits[1].pkg.name, "dash-0.5.12");
    assert_eq!(hits[1].pkg.version, "1");
    assert_eq!(hits[1].pkg.db_name, "extra");
    assert_eq!(hits[1].path, "usr/bin/bash");
}

#[test]
fn install_steps_in_order() {
    let n = 2;
    let s = InstallState::Sync;
    let s = install_run(s, StepOutcome::Succeeded, n);
    assert!(matches!(s, InstallState::InitTrans));
    let s = install_run(s, StepOutcome::Succeeded, n);
    assert!(matches!(s, InstallState::Resolve { next: 0 }));
    let s = install_run(s, StepOutcome::Succeeded, n);
    assert!(matches!(s, InstallState::Resolve { next: 1 }));
    let s = install_run(s, StepOutcome::Succeeded, n);
    assert!(matches!(s, InstallState::Prepare));
    let s = install_run(s, StepOutcome::Succeeded, n);
    assert!(matches!(s, InstallState::Commit));
    let s = install_run(s, StepOutcome::Succeeded, n);
    assert!(matches!(s, InstallState::Done));
}

#[test]
fn install_stops_on_a_failed_step() {
    let s = install_run(InstallState::Resolve { next: 0 }, StepOutcome::Failed, 3);
    assert!(matches!(s, InstallState::Failed));
    let s = install_run(s, StepOutcome::Succeeded, 3);
    assert!(matches!(s, InstallState::Failed));
}

#[test]
fn removal_flags_follow_depth() {
    let deep = removal_flags(true);
    assert!(deep.recurse && deep.cascade && deep.no_save);
    let plain = removal_flags(false);
    assert!(!plain.recurse && !plain.cascade && !plain.no_save);
}

#[test]
fn remove_steps_in_order() {
    let n = 1;
    let s = RemoveState::InitTrans;
    let s = remove_run(s, StepOutcome::Succeeded, n);
    assert!(matches!(s, RemoveState::Resolve { next: 0 }));
    let s = remove_run(s, StepOutcome::Succeeded, n);
    assert!(matches!(s, RemoveState::Prepare));
    let s = remove_run(s, StepOutcome::Succeeded, n);
    assert!(matches!(s, RemoveState::Commit));
    let s = remove_run(s, StepOutcome::Succeeded, n);
    assert!(matches!(s, RemoveState::Done));
}

#[test]
fn remove_stops_on_a_failed_step() {
    let s = remove_run(RemoveState::Commit, StepOutcome::Failed, 1);
    assert!(matches!(s, RemoveState::Failed));
}
