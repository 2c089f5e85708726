use logscan::path_filter::{is_allowed_path, is_excluded_dir, is_scan_candidate};
use logscan::position::{calc_col_in_line, locate};
use logscan::scanner::{scan_text, violations_from_matches, violations_in_text, Violation};

fn scan(path: &str, text: &str) -> Vec<Violation> {
    scan_text(path, text)
}

#[test]
fn allowed_path_matches_segment_anywhere() {
    assert!(is_allowed_path("src/utils/logging.rs"));
    assert!(is_allowed_path("/home/me/proj/src/utils/logging.rs"));
    assert!(is_allowed_path("./src/utils/logging/mod.rs"));
    assert!(!is_allowed_path("src/utils/log.rs"));
    assert!(!is_allowed_path("src/utils/loggin"));
    assert!(!is_allowed_path(""));
}

#[test]
fn excluded_directories() {
    assert!(is_excluded_dir("target"));
    assert!(is_excluded_dir(".git"));
    assert!(is_excluded_dir("node_modules"));
    assert!(!is_excluded_dir("targets"));
    assert!(!is_excluded_dir("src"));
    assert!(!is_excluded_dir(""));
}

#[test]
fn scan_candidates_by_extension() {
    assert!(is_scan_candidate("main.rs"));
    assert!(is_scan_candidate("..rs"));
    assert!(!is_scan_candidate(".rs"));
    assert!(!is_scan_candidate("main.rsx"));
    assert!(!is_scan_candidate("main.txt"));
    assert!(!is_scan_candidate("rs"));
}

#[test]
fn exempt_file_gives_no_violation() {
    let text = "log::info!(\"a\");\nlog::warn!(\"b\");\nlog::trace!(\"c\");\n";
    assert!(scan("src/utils/logging.rs", text).is_empty());
    assert!(scan("/abs/src/utils/logging/mod.rs", text).is_empty());
    assert_eq!(scan("src/other.rs", text).len(), 3);
}

#[test]
fn word_boundary_is_required() {
    assert!(scan("a.rs", "xlog::infoy").is_empty());
    assert!(scan("a.rs", "log::infos").is_empty());
    assert!(scan("a.rs", "my_log::warn").is_empty());
    assert!(scan("a.rs", "log::debug_x").is_empty());
    assert!(scan("a.rs", "log::error(\"x\")").is_empty());
    assert_eq!(scan("a.rs", "log::info").len(), 1);
    assert_eq!(scan("a.rs", "(log::info)").len(), 1);
}

#[test]
fn column_of_indented_call() {
    let v = scan("a.rs", "    log::warn(\"x\");");
    assert_eq!(v.len(), 1);
    assert_eq!(v[0].column_start, 4);
    assert_eq!(v[0].column_end, 13);
    assert_eq!(v[0].line_number, 1);
    assert_eq!(v[0].line_text, "    log::warn(\"x\");");
    assert_eq!(v[0].file, "a.rs");
}

#[test]
fn line_of_call_on_second_line() {
    let v = scan("a.rs", "fn a() {}\n  log::trace(\"y\"); // here\nfn b() { let long_line = 1; }");
    assert_eq!(v.len(), 1);
    assert_eq!(v[0].line_number, 2);
    assert_eq!(v[0].line_text, "  log::trace(\"y\"); // here");
    assert_eq!(v[0].column_start, 2);
    assert_eq!(v[0].column_end, 12);
    let w = scan("b.rs", "x\n  log::trace(\"y\"); // here\n");
    assert_eq!(w[0].line_number, 2);
    assert_eq!(w[0].line_text, v[0].line_text);
}

#[test]
fn several_calls_in_order() {
    let v = scan("a.rs", "log::info a; log::debug b;\n\nlog::warn c\r\n");
    assert_eq!(v.len(), 3);
    assert_eq!((v[0].line_number, v[0].column_start, v[0].column_end), (1, 0, 9));
    assert_eq!((v[1].line_number, v[1].column_start, v[1].column_end), (1, 13, 23));
    assert_eq!((v[2].line_number, v[2].column_start, v[2].column_end), (3, 0, 9));
    assert_eq!(v[2].line_text, "log::warn c\r");
}

#[test]
fn columns_count_bytes() {
    let v = scan("a.rs", "é log::info");
    assert_eq!(v.len(), 1);
    assert_eq!(v[0].column_start, 3);
    assert_eq!(v[0].column_end, 12);
    assert_eq!(v[0].line_text, "é log::info");
}

#[test]
fn empty_text_has_no_violation() {
    assert!(scan("a.rs", "").is_empty());
}

#[test]
fn violations_from_given_ranges() {
    let text = "ab\ncd ef\ngh";
    let v = violations_from_matches("f.rs", text, &vec![(3, 5), (6, 8), (9, 11)]);
    assert_eq!(v.len(), 3);
    assert_eq!((v[0].line_number, v[0].column_start, v[0].column_end), (2, 0, 2));
    assert_eq!(v[0].line_text, "cd ef");
    assert_eq!((v[1].line_number, v[1].column_start, v[1].column_end), (2, 3, 5));
    assert_eq!((v[2].line_number, v[2].column_start, v[2].column_end), (3, 0, 2));
    assert_eq!(v[2].line_text, "gh");
}

#[test]
fn locate_first_and_last_line() {
    let p = locate("abc", 1, 2);
    assert_eq!((p.line_number, p.column_start, p.column_end), (1, 1, 2));
    assert_eq!(p.line_text, "abc");
    let q = locate("a\n\nxyz", 4, 6);
    assert_eq!((q.line_number, q.column_start, q.column_end), (3, 1, 3));
    assert_eq!(q.line_text, "xyz");
}

#[test]
fn column_within_line() {
    assert_eq!(calc_col_in_line("abc", 12, 10), 2);
    assert_eq!(calc_col_in_line("abc", 10, 10), 0);
    assert_eq!(calc_col_in_line("abc", 3, 10), 0);
}

#[test]
fn exempt_path_is_not_tested_by_violations_in_text() {
    let v = violations_in_text("src/utils/logging.rs", "log::info");
    assert_eq!(v.len(), 1);
    assert_eq!(v[0].file, "src/utils/logging.rs");
}
