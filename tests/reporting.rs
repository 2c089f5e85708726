use logscan::order::compare_paths;
use logscan::report::{exit_status, highlight_match, needs_long_line_notice, EXIT_CLEAN, EXIT_VIOLATIONS};
use logscan::scan::ScanResult;
use logscan::tally::{count_by_file, positions_in_file};
use std::cmp::Ordering;

fn scan_tree(files: &[(&str, &str)]) -> ScanResult {
    let mut r = ScanResult::new();
    for (path, text) in files {
        if r.count_candidate(path) {
            r.add_file(path, text);
        }
    }
    r
}

fn five_lines_with_debug() -> &'static str {
    "fn main() {\n    let x = 1;\n\n    // debug\n    log::debug(\"x\");\n}\n"
}

#[test]
fn one_violation_outside_allowed_module() {
    let r = scan_tree(&[
        ("a.rs", five_lines_with_debug()),
        ("src/utils/logging.rs", "log::trace(\"y\");\n"),
    ]);
    assert_eq!(r.files_scanned, 2);
    assert_eq!(r.total_violations(), 1);
    assert_eq!(r.violations[0].file, "a.rs");
    assert_eq!(r.violations[0].line_number, 5);
    assert_eq!(r.exit_status(), 1);
}

#[test]
fn no_files_is_clean() {
    let r = scan_tree(&[]);
    assert_eq!(r.files_scanned, 0);
    assert_eq!(r.total_violations(), 0);
    assert_eq!(r.exit_status(), 0);
    assert!(r.tally().is_empty());
}

#[test]
fn files_without_calls_are_clean() {
    let r = scan_tree(&[("a.rs", "fn main() {}\n"), ("b.rs", "")]);
    assert_eq!(r.files_scanned, 2);
    assert_eq!(r.exit_status(), EXIT_CLEAN);
}

#[test]
fn scanning_twice_gives_the_same_result() {
    let files = [
        ("z.rs", "log::info\nlog::warn\n"),
        ("a.rs", five_lines_with_debug()),
        ("src/utils/logging/mod.rs", "log::info"),
    ];
    let a = scan_tree(&files);
    let b = scan_tree(&files);
    assert_eq!(a.total_violations(), b.total_violations());
    for (x, y) in a.violations.iter().zip(b.violations.iter()) {
        assert_eq!(x.file, y.file);
        assert_eq!(x.line_number, y.line_number);
        assert_eq!((x.column_start, x.column_end), (y.column_start, y.column_end));
        assert_eq!(x.line_text, y.line_text);
    }
    assert_eq!(a.exit_status(), b.exit_status());
}

#[test]
fn tally_is_sorted_and_sums_to_total() {
    let r = scan_tree(&[
        ("src/z.rs", "log::info\nlog::warn\n"),
        ("src/a.rs", "log::debug"),
        ("src/m.rs", "nothing"),
        ("src/a/b.rs", "log::trace log::trace log::trace"),
    ]);
    let t = r.tally();
    let files: Vec<&str> = t.iter().map(|x| x.file.as_str()).collect();
    assert_eq!(files, vec!["src/a/b.rs", "src/a.rs", "src/z.rs"]);
    let counts: Vec<usize> = t.iter().map(|x| x.count).collect();
    assert_eq!(counts, vec![3, 1, 2]);
    assert_eq!(counts.iter().sum::<usize>(), r.total_violations());
    assert_eq!(count_by_file(&r.violations).len(), 3);
}

#[test]
fn positions_of_one_file() {
    let r = scan_tree(&[("x.rs", "log::info"), ("y.rs", "log::warn"), ("x.rs", "log::debug")]);
    assert_eq!(positions_in_file(&r.violations, "x.rs"), vec![0, 2]);
    assert_eq!(positions_in_file(&r.violations, "y.rs"), vec![1]);
    assert!(positions_in_file(&r.violations, "w.rs").is_empty());
}

#[test]
fn exit_status_values() {
    assert_eq!(exit_status(0), EXIT_CLEAN);
    assert_eq!(exit_status(1), EXIT_VIOLATIONS);
    assert_eq!(exit_status(7), 1);
}

#[test]
fn highlight_keeps_text_around_match() {
    colored::control::set_override(true);
    let h = highlight_match("    log::warn(\"x\");", 4, 13);
    assert_eq!(h, "    \u{1b}[1;31mlog::warn\u{1b}[0m(\"x\");");
    assert_ne!(h, "    log::warn(\"x\");");
    colored::control::set_override(false);
    assert_eq!(highlight_match("    log::warn(\"x\");", 4, 13), "    log::warn(\"x\");");
    colored::control::unset_override();
}

#[test]
fn long_line_notice_threshold() {
    assert!(!needs_long_line_notice(&"x".repeat(200)));
    assert!(needs_long_line_notice(&"x".repeat(201)));
    assert!(!needs_long_line_notice(""));
}

#[test]
fn byte_order_of_paths() {
    assert_eq!(compare_paths(b"a", b"b"), Ordering::Less);
    assert_eq!(compare_paths(b"ab", b"a"), Ordering::Greater);
    assert_eq!(compare_paths(b"a-b", b"a/b"), Ordering::Greater);
    assert_eq!(compare_paths(b"src/a.rs", b"src/a/b.rs"), Ordering::Greater);
    assert_eq!(compare_paths(b"src/a/b.rs", b"src/ab.rs"), Ordering::Less);
    assert_eq!(compare_paths(b"", b""), Ordering::Equal);
    assert_eq!(compare_paths(b"", b"a"), Ordering::Less);
}
