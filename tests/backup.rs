use backup_engine::collision::{find_available_name, parse_policy, resolve, CollisionPolicy, Resolution};
use backup_engine::engine::{
    count_files_multi, effective_target, plan_entry, plan_single_file, summary_message,
    validate_sources, BackupTally, EntryAction, EntryKind, RequestError, WalkEntry,
};
use backup_engine::matcher::{build_glob_set, is_blacklisted};
use backup_engine::text::{decimal_text, join, rename_candidate};

fn pats(v: &[&str]) -> Vec<String> {
    v.iter().map(|s| s.to_string()).collect()
}

fn file(p: &str) -> WalkEntry {
    WalkEntry { relative_path: p.to_string(), kind: EntryKind::File }
}

fn dir(p: &str) -> WalkEntry {
    WalkEntry { relative_path: p.to_string(), kind: EntryKind::Dir }
}

#[test]
fn empty_blacklist_excludes_nothing() {
    let m = build_glob_set(&Vec::new());
    assert!(!is_blacklisted("a.txt", &m));
    assert!(!is_blacklisted("node_modules/x.js", &m));
    assert!(!is_blacklisted("", &m));
}

#[test]
fn node_modules_excluded_at_any_depth() {
    let m = build_glob_set(&pats(&["node_modules"]));
    assert!(is_blacklisted("node_modules", &m));
    assert!(is_blacklisted("node_modules/pkg/index.js", &m));
    assert!(is_blacklisted("web/app/node_modules/pkg/index.js", &m));
    assert!(!is_blacklisted("web/app/node_modules_old/index.js", &m));
    assert!(!is_blacklisted("src/main.rs", &m));
}

#[test]
fn suffix_glob_excludes_by_extension() {
    let m = build_glob_set(&pats(&["*.log"]));
    assert!(is_blacklisted("debug.log", &m));
    assert!(is_blacklisted("logs/deep/run.log", &m));
    assert!(!is_blacklisted("logs/readme.md", &m));
}

#[test]
fn full_path_glob_matches_whole_path() {
    let m = build_glob_set(&pats(&["src/**/*.tmp"]));
    assert!(is_blacklisted("src/a/b/c.tmp", &m));
    assert!(!is_blacklisted("docs/c.tmp", &m));
}

#[test]
fn invalid_glob_is_taken_as_a_name() {
    // An unclosed class is not a glob; it then fails under the wildcard too and is dropped.
    let m = build_glob_set(&pats(&["[oops", "build"]));
    assert!(is_blacklisted("build/out.o", &m));
    assert!(!is_blacklisted("a.txt", &m));
}

#[test]
fn scenario_blacklisted_directory_is_left_out() {
    let m = build_glob_set(&pats(&["build"]));
    let entries = vec![dir(""), file("a.txt"), dir("build"), file("build/out.o")];
    assert_eq!(count_files_multi(&entries, &m), 1);
    let root = "/backup";
    let p = plan_entry(&m, root, &entries[1]);
    assert_eq!(p.action, EntryAction::CopyFile);
    assert_eq!(p.destination, "/backup/a.txt");
    assert_eq!(plan_entry(&m, root, &entries[2]).action, EntryAction::Excluded);
    assert_eq!(plan_entry(&m, root, &entries[3]).action, EntryAction::Excluded);
}

#[test]
fn scenario_single_file_source() {
    let m = build_glob_set(&Vec::new());
    let p = plan_single_file(&m, "/target", "notes.txt");
    assert_eq!(p.action, EntryAction::CopyFile);
    assert_eq!(p.destination, "/target/notes.txt");
    assert_eq!(resolve(false, CollisionPolicy::Overwrite), Resolution::Write);
    let entries = vec![file("notes.txt")];
    let mut t = BackupTally::new(count_files_multi(&entries, &m), CollisionPolicy::Overwrite, &m);
    let ev = t.settle_entry(&m, &entries[0], false, None).unwrap();
    assert_eq!(ev.current_file, "notes.txt");
    assert_eq!((ev.copied_count, ev.skipped_count, ev.total_count), (1, 0, 1));
    let r = t.finish();
    assert!(r.success);
    assert_eq!((r.copied_count, r.skipped_count), (1, 0));
    assert_eq!(r.message, "Successfully copied 1 files");
}

#[test]
fn scenario_two_sources_keep_their_names() {
    assert_eq!(effective_target("/t", "dirA", true), "/t/dirA");
    assert_eq!(effective_target("/t", "dirB", true), "/t/dirB");
    assert_eq!(effective_target("/t", "dirA", false), "/t");
    assert_eq!(effective_target("/t", "", true), "/t");
    let m = build_glob_set(&pats(&["*.o"]));
    let entries = vec![dir(""), file("x.txt"), file("y.o"), dir(""), file("z.txt"), file("w/v.txt")];
    assert_eq!(count_files_multi(&entries, &m), 3);
}

#[test]
fn scenario_overwrite_replaces_existing() {
    assert_eq!(parse_policy("overwrite"), CollisionPolicy::Overwrite);
    assert_eq!(resolve(true, CollisionPolicy::Overwrite), Resolution::Write);
}

#[test]
fn scenario_missing_source_is_refused() {
    let r = validate_sources(&pats(&["/nope"]), &vec![false]);
    assert_eq!(r, Err(RequestError::MissingSource("/nope".to_string())));
    assert_eq!(r.unwrap_err().message(), "Source path does not exist: /nope");
    let r = validate_sources(&pats(&["/a", "/b", "/c"]), &vec![true, false, false]);
    assert_eq!(r, Err(RequestError::MissingSource("/b".to_string())));
    assert_eq!(validate_sources(&pats(&["/a"]), &vec![true]), Ok(()));
}

#[test]
fn empty_source_list_is_refused() {
    let r = validate_sources(&Vec::new(), &Vec::new());
    assert_eq!(r, Err(RequestError::NoSources));
    assert_eq!(RequestError::NoSources.message(), "No source paths provided");
    assert_eq!(
        RequestError::TargetNotCreated("denied".to_string()).message(),
        "Failed to create target directory: denied"
    );
}

#[test]
fn policy_names() {
    assert_eq!(parse_policy("skip"), CollisionPolicy::Skip);
    assert_eq!(parse_policy("rename"), CollisionPolicy::Rename);
    assert_eq!(parse_policy("Skip"), CollisionPolicy::Overwrite);
    assert_eq!(parse_policy(""), CollisionPolicy::Overwrite);
    assert_eq!(resolve(true, CollisionPolicy::Skip), Resolution::Skip);
    assert_eq!(resolve(true, CollisionPolicy::Rename), Resolution::Rename);
    assert_eq!(resolve(false, CollisionPolicy::Skip), Resolution::Write);
    assert_eq!(resolve(false, CollisionPolicy::Rename), Resolution::Write);
}

#[test]
fn skip_rerun_counts_every_file_as_skipped() {
    let m = build_glob_set(&Vec::new());
    let entries = vec![file("a.txt"), file("b/c.txt")];
    let mut t = BackupTally::new(count_files_multi(&entries, &m), CollisionPolicy::Skip, &m);
    for e in &entries {
        assert_eq!(resolve(true, CollisionPolicy::Skip), Resolution::Skip);
        assert!(t.settle_entry(&m, e, true, None).is_none());
    }
    let r = t.finish();
    assert_eq!((r.copied_count, r.skipped_count), (0, 2));
    assert_eq!(r.copied_count + r.skipped_count, t.total);
    assert_eq!(r.message, "Copied 0 files, skipped 2");
}

#[test]
fn rename_candidates() {
    assert_eq!(rename_candidate("/t/report.csv", 1), "/t/report_1.csv");
    assert_eq!(rename_candidate("/t/a.tar.gz", 12), "/t/a.tar_12.gz");
    assert_eq!(rename_candidate("/t/.profile", 2), "/t/.profile_2");
    assert_eq!(rename_candidate("Makefile", 3), "Makefile_3");
    assert_eq!(rename_candidate("/t.d/x", 10000), "/t.d/x_10000");
}

#[test]
fn rename_never_overwrites_first_copy() {
    let taken = vec!["/t/name.ext".to_string()];
    let r = find_available_name("/t/name.ext", |s: &str| taken.iter().any(|t| t == s));
    assert_eq!(r, "/t/name_1.ext");
    let taken = vec!["/t/name.ext".to_string(), "/t/name_1.ext".to_string()];
    let r = find_available_name("/t/name.ext", |s: &str| taken.iter().any(|t| t == s));
    assert_eq!(r, "/t/name_2.ext");
    assert_eq!(find_available_name("/t/free.txt", |_s: &str| false), "/t/free.txt");
}

#[test]
fn rename_falls_back_after_limit() {
    assert_eq!(find_available_name("/t/full.txt", |_s: &str| true), "/t/full.txt");
}

#[test]
fn decimal_and_join() {
    assert_eq!(decimal_text(0), "0");
    assert_eq!(decimal_text(7), "7");
    assert_eq!(decimal_text(10), "10");
    assert_eq!(decimal_text(18446744073709551615), "18446744073709551615");
    assert_eq!(join("/t", "a/b"), "/t/a/b");
    assert_eq!(join("/t/", "a"), "/t/a");
    assert_eq!(join("", "a"), "a");
    assert_eq!(join("/t", "/abs"), "/abs");
    assert_eq!(join("/t", ""), "/t/");
}

#[test]
fn summary_messages() {
    assert_eq!(summary_message(3, 0, 0), "Successfully copied 3 files");
    assert_eq!(summary_message(3, 2, 0), "Copied 3 files, skipped 2");
    assert_eq!(summary_message(3, 2, 1), "Copied 3 files with 1 errors");
}

#[test]
fn errors_fail_the_run() {
    let m = build_glob_set(&Vec::new());
    let mut t = BackupTally::new(2, CollisionPolicy::Overwrite, &m);
    t.settle_entry(&m, &file("a"), false, None);
    t.record_error("Failed to copy \"b\": denied".to_string());
    let r = t.finish();
    assert!(!r.success);
    assert_eq!(r.message, "Copied 1 files with 1 errors");
}

#[test]
fn component_check_ignores_dot_segments() {
    let m = build_glob_set(&pats(&["."]));
    assert!(!is_blacklisted("a/./b", &m));
}

#[test]
fn settle_entry_follows_policy_and_blacklist() {
    let m = build_glob_set(&pats(&["build"]));
    let mut t = BackupTally::new(3, CollisionPolicy::Skip, &m);
    assert!(t.settle_entry(&m, &dir(""), false, None).is_none());
    assert!(t.settle_entry(&m, &file("build/out.o"), false, None).is_none());
    assert_eq!((t.copied, t.skipped), (0, 0));
    assert!(t.settle_entry(&m, &file("a.txt"), true, None).is_none());
    assert_eq!((t.copied, t.skipped), (0, 1));
    let ev = t.settle_entry(&m, &file("b/c.txt"), false, None).unwrap();
    assert_eq!(ev.current_file, "b/c.txt");
    assert_eq!((ev.copied_count, ev.skipped_count, ev.total_count), (1, 1, 3));
    assert!(t.settle_entry(&m, &file("d.txt"), false, Some("Failed to copy".to_string())).is_none());
    assert_eq!((t.copied, t.skipped), (1, 1));
    assert_eq!(t.errors, vec!["Failed to copy".to_string()]);
    let r = t.finish();
    assert!(!r.success);
    assert_eq!(r.message, "Copied 1 files with 1 errors");
}

#[test]
fn rename_policy_copies_over_existing_destination() {
    let m = build_glob_set(&Vec::new());
    let mut t = BackupTally::new(1, CollisionPolicy::Rename, &m);
    assert_eq!(resolve(true, CollisionPolicy::Rename), Resolution::Rename);
    let ev = t.settle_entry(&m, &file("report.csv"), true, None).unwrap();
    assert_eq!((ev.copied_count, ev.skipped_count), (1, 0));
}

#[test]
fn plain_and_glob_patterns_together() {
    let m = build_glob_set(&pats(&["*.log", "build"]));
    assert!(is_blacklisted("logs/app.log", &m));
    assert!(is_blacklisted("build/out.o", &m));
    assert!(!is_blacklisted("a.txt", &m));
    assert!(!is_blacklisted("app.log.txt", &m));
    let t = build_glob_set(&pats(&["*.txt"]));
    assert_eq!(count_files_multi(&vec![file("notes.txt")], &t), 0);
    assert_eq!(count_files_multi(&vec![file("notes.txt")], &build_glob_set(&Vec::new())), 1);
}
