use sf_afmt::args::Mode;
use sf_afmt::report::{exit_status, needs_write, output_block, status_of, FileStatus, RunSummary};
use sf_afmt::selection::{is_apex_file, is_excluded, normalize_path, select_files, str_lt};

fn strings(v: &[&str]) -> Vec<String> {
    v.iter().map(|s| s.to_string()).collect()
}

#[test]
fn apex_extensions_are_selected() {
    assert!(is_apex_file("a/B.cls"));
    assert!(is_apex_file("T.trigger"));
    assert!(is_apex_file("x.apex"));
    assert!(is_apex_file("x.apexc"));
    assert!(!is_apex_file("x.java"));
    assert!(!is_apex_file("cls"));
}

#[test]
fn default_exclusions_match_whole_components() {
    assert!(is_excluded(".git/a.cls"));
    assert!(is_excluded("p/.sfdx/x/a.cls"));
    assert!(is_excluded("p/node_modules/a.cls"));
    assert!(!is_excluded("p/my.git/a.cls"));
    assert!(!is_excluded("p/node_modules_x/a.cls"));
}

#[test]
fn string_order_is_the_order_of_str() {
    for (a, b) in [("a", "b"), ("a", "ab"), ("", "a"), ("b", "a"), ("a", "a"), ("Z", "a"), ("é", "z")] {
        assert_eq!(str_lt(a, b), a < b, "{} < {}", a, b);
    }
}

#[test]
fn selection_is_sorted_deduplicated_and_filtered() {
    let named = strings(&["z.cls", "b/notes.txt", "node_modules/n.cls", "a/x.cls"]);
    let found = strings(&["a/x.cls", "a/y.trigger", "a/readme.md", ".git/hooks/h.cls", "a/w.apex"]);
    let r = select_files(named, found);
    assert_eq!(r, strings(&["a/w.apex", "a/x.cls", "a/y.trigger", "b/notes.txt", "z.cls"]));
}

#[test]
fn leading_dot_segments_are_removed() {
    assert_eq!(normalize_path("./a.cls"), "a.cls");
    assert_eq!(normalize_path("././d/a.cls"), "d/a.cls");
    assert_eq!(normalize_path("../a.cls"), "../a.cls");
    assert_eq!(normalize_path("."), ".");
}

#[test]
fn statuses_and_counts_of_a_run() {
    assert_eq!(status_of(Mode::Write, Some(true), true), FileStatus::Written);
    assert_eq!(status_of(Mode::Write, Some(true), false), FileStatus::Failed);
    assert_eq!(status_of(Mode::Check, Some(true), false), FileStatus::Changed);
    assert_eq!(status_of(Mode::Std, Some(false), false), FileStatus::Unchanged);
    assert_eq!(status_of(Mode::Std, None, false), FileStatus::Failed);
    assert!(needs_write(Mode::Write, true));
    assert!(!needs_write(Mode::Write, false));
    assert!(!needs_write(Mode::Check, true));
    let s = RunSummary::of(&vec![
        FileStatus::Written,
        FileStatus::Unchanged,
        FileStatus::Failed,
        FileStatus::Changed,
        FileStatus::Unchanged,
    ]);
    assert_eq!(s.to_string(), "selected: 5, changed: 2, written: 1, unchanged: 2, failed: 1");
    assert_eq!(exit_status(Mode::Write, &s), 1);
}

#[test]
fn exit_status_follows_the_mode() {
    let clean = RunSummary { selected: 2, changed: 0, written: 0, unchanged: 2, failed: 0 };
    let changed = RunSummary { selected: 2, changed: 1, written: 1, unchanged: 1, failed: 0 };
    let empty = RunSummary { selected: 0, changed: 0, written: 0, unchanged: 0, failed: 0 };
    assert_eq!(exit_status(Mode::Check, &clean), 0);
    assert_eq!(exit_status(Mode::Check, &changed), 1);
    assert_eq!(exit_status(Mode::Write, &changed), 0);
    assert_eq!(exit_status(Mode::Std, &changed), 0);
    assert_eq!(exit_status(Mode::Check, &empty), 1);
}

#[test]
fn several_sources_are_delimited() {
    assert_eq!(output_block("a.cls", "class A {}\n", false), "class A {}\n");
    assert_eq!(output_block("a.cls", "class A {}\n", true), "==> a.cls <==\nclass A {}\n");
}
