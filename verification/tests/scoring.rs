//! Line overlap and the join of complexity, coverage and idiom findings.

use cargo_crappy::complexity::FunctionComplexity;
use cargo_crappy::coverage::{FunctionCoverage, LineTally};
use cargo_crappy::idiom::FunctionIdioms;
use cargo_crappy::scoring::{best_coverage, compute_crap_inputs, fits_join, idiom_terms_for, overlap};

#[test]
fn overlap_full() {
    assert_eq!(overlap(1, 10, 1, 10), 10);
}

#[test]
fn overlap_partial() {
    assert_eq!(overlap(1, 5, 3, 8), 3);
}

#[test]
fn overlap_none() {
    assert_eq!(overlap(1, 5, 6, 10), 0);
}

#[test]
fn overlap_adjacent() {
    assert_eq!(overlap(1, 5, 5, 10), 1);
}

#[test]
fn overlap_subset() {
    assert_eq!(overlap(3, 7, 1, 10), 5);
}

#[test]
fn overlap_is_symmetric() {
    for (a, b, c, d) in [(1, 5, 3, 8), (2, 2, 1, 9), (4, 9, 10, 12), (7, 7, 7, 7)] {
        assert_eq!(overlap(a, b, c, d), overlap(c, d, a, b));
    }
}

fn comp(file: &str, name: &str, start: u32, end: u32, complexity: u32) -> FunctionComplexity {
    FunctionComplexity {
        file: file.to_string(),
        qualified_name: name.to_string(),
        start_line: start,
        end_line: end,
        complexity,
    }
}

fn cov(file: &str, start: u32, end: u32, covered: u64, total: u64) -> FunctionCoverage {
    FunctionCoverage {
        file: file.to_string(),
        start_line: start,
        end_line: end,
        lines: LineTally { covered, total },
    }
}

fn idioms(file: &str, name: &str, start: u32, end: u32, demerits: u32) -> FunctionIdioms {
    FunctionIdioms {
        file: file.to_string(),
        qualified_name: name.to_string(),
        start_line: start,
        end_line: end,
        demerits,
        checks: Vec::new(),
        sig_duplicate: false,
        body_duplicate: false,
        sig_fingerprint: String::new(),
        body_fingerprint: String::new(),
    }
}

#[test]
fn join_matches_by_line_overlap() {
    let covs = vec![cov("/proj/src/lib.rs", 5, 15, 8, 10)];
    let comps = vec![comp("/proj/src/lib.rs", "my_func", 4, 16, 5)];
    let records = compute_crap_inputs(&covs, &comps, &Vec::new(), "/proj");
    assert_eq!(records.len(), 1);
    assert_eq!(records[0].coverage, Some(LineTally { covered: 8, total: 10 }));
    assert_eq!(records[0].complexity, 5);
    assert_eq!(records[0].file, "src/lib.rs");
    assert_eq!(records[0].name, "my_func");
}

#[test]
fn unmatched_complexity_gets_zero_coverage() {
    let comps = vec![comp("/proj/src/lib.rs", "orphan", 1, 5, 3)];
    let records = compute_crap_inputs(&Vec::new(), &comps, &Vec::new(), "/proj");
    assert_eq!(records.len(), 1);
    assert_eq!(records[0].coverage, None);
    assert_eq!(records[0].complexity, 3);
}

#[test]
fn idiom_demerits_multiply_crap() {
    let comps = vec![comp("/proj/src/lib.rs", "f", 1, 10, 5)];
    let fis = vec![idioms("/proj/src/lib.rs", "f", 1, 10, 5)];
    let records = compute_crap_inputs(&Vec::new(), &comps, &fis, "/proj");
    assert_eq!(records[0].demerits, 5);
    assert_eq!(records[0].body_lines, 10);
}

#[test]
fn clean_idioms_no_penalty() {
    let comps = vec![comp("/proj/src/lib.rs", "f", 1, 10, 5)];
    let records = compute_crap_inputs(&Vec::new(), &comps, &Vec::new(), "/proj");
    assert_eq!(records[0].demerits, 0);
    assert_eq!(records[0].body_lines, 1);
}

#[test]
fn best_match_prefers_most_shared_lines_then_latest_range() {
    let f = comp("/p/a.rs", "f", 10, 20, 1);
    let covs = vec![
        cov("/p/a.rs", 1, 12, 1, 1),
        cov("/p/a.rs", 10, 20, 1, 4),
        cov("/p/b.rs", 10, 20, 4, 4),
        cov("/p/a.rs", 10, 20, 3, 4),
        cov("/p/a.rs", 30, 40, 4, 4),
    ];
    assert_eq!(best_coverage(&covs, &f), Some(LineTally { covered: 3, total: 4 }));
    let tie = vec![cov("/p/a.rs", 5, 12, 0, 8), cov("/p/a.rs", 18, 25, 8, 8)];
    assert_eq!(best_coverage(&tie, &f), Some(LineTally { covered: 8, total: 8 }));
}

#[test]
fn later_idiom_entry_replaces_earlier_one() {
    let f = comp("/p/a.rs", "f", 1, 3, 1);
    let fis = vec![
        idioms("/p/a.rs", "f", 1, 3, 2),
        idioms("/p/a.rs", "g", 1, 3, 9),
        idioms("/p/a.rs", "f", 5, 4, 7),
    ];
    assert_eq!(idiom_terms_for(&fis, &f), (7, 1));
}

#[test]
fn file_outside_project_shown_as_is() {
    let comps = vec![comp("/elsewhere/x.rs", "f", 1, 2, 1)];
    let records = compute_crap_inputs(&Vec::new(), &comps, &Vec::new(), "/proj");
    assert_eq!(records[0].file, "/elsewhere/x.rs");
    assert_eq!(records[0].start_line, 1);
}

#[test]
fn join_must_fit_in_u32() {
    let f = vec![comp("/p/a.rs", "f", 0, u32::MAX, 1)];
    assert!(!fits_join(&vec![cov("/p/a.rs", 0, u32::MAX, 1, 1)], &f, &Vec::new()));
    assert!(fits_join(&vec![cov("/p/b.rs", 0, u32::MAX, 1, 1)], &f, &Vec::new()));
    assert!(!fits_join(&Vec::new(), &f, &vec![idioms("/p/a.rs", "f", 0, u32::MAX, 0)]));
    let g = vec![comp("/p/a.rs", "g", 3, 9, 1)];
    assert!(fits_join(&vec![cov("/p/a.rs", 1, 4, 1, 1)], &g, &vec![idioms("/p/a.rs", "g", 3, 9, 0)]));
}

#[test]
fn files_match_as_paths_not_as_text() {
    let comps = vec![comp("/proj/src/lib.rs", "f", 4, 16, 5)];
    let covs = vec![cov("/proj//src/lib.rs", 5, 15, 8, 10)];
    let fis = vec![idioms("/proj/./src/lib.rs", "f", 4, 16, 3)];
    let records = compute_crap_inputs(&covs, &comps, &fis, "/proj");
    assert_eq!(records[0].coverage, Some(LineTally { covered: 8, total: 10 }));
    assert_eq!(records[0].demerits, 3);
    assert_eq!(records[0].body_lines, 13);
}
