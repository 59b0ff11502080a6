//! The duplication check on hand-built idiom findings.

use cargo_crappy::dryness::{check_dryness, find_duplicate_indices, fits_dry_demerits, Fingerprint, DRY_WEIGHT};
use cargo_crappy::idiom::FunctionIdioms;

fn func(name: &str, sig: &str, body: &str) -> FunctionIdioms {
    FunctionIdioms {
        file: "test.rs".to_string(),
        qualified_name: name.to_string(),
        start_line: 1,
        end_line: 1,
        demerits: 0,
        checks: Vec::new(),
        sig_duplicate: false,
        body_duplicate: false,
        sig_fingerprint: sig.to_string(),
        body_fingerprint: body.to_string(),
    }
}

#[test]
fn no_duplicates() {
    let mut fns = vec![
        func("a", "i32->bool", "body_a"),
        func("b", "String->u32", "body_b"),
    ];
    check_dryness(&mut fns);
    assert_eq!(fns[0].demerits, 0);
    assert_eq!(fns[1].demerits, 0);
}

#[test]
fn signature_duplicates() {
    let mut fns = vec![
        func("a", "i32->bool", "body_a"),
        func("b", "i32->bool", "body_b"),
    ];
    check_dryness(&mut fns);
    assert_eq!(fns[0].demerits, DRY_WEIGHT);
    assert_eq!(fns[1].demerits, DRY_WEIGHT);
}

#[test]
fn body_duplicates() {
    let mut fns = vec![
        func("a", "i32->bool", "same_body"),
        func("b", "String->u32", "same_body"),
    ];
    check_dryness(&mut fns);
    assert_eq!(fns[0].demerits, DRY_WEIGHT);
    assert_eq!(fns[1].demerits, DRY_WEIGHT);
}

#[test]
fn both_sig_and_body_duplicate_stacks() {
    let mut fns = vec![
        func("a", "i32->bool", "same_body"),
        func("b", "i32->bool", "same_body"),
    ];
    check_dryness(&mut fns);
    assert_eq!(fns[0].demerits, DRY_WEIGHT * 2);
    assert_eq!(fns[1].demerits, DRY_WEIGHT * 2);
}

#[test]
fn three_way_duplicate() {
    let mut fns = vec![
        func("a", "i32->bool", "x"),
        func("b", "i32->bool", "y"),
        func("c", "i32->bool", "z"),
    ];
    check_dryness(&mut fns);
    for f in &fns {
        assert_eq!(f.demerits, DRY_WEIGHT);
    }
}

#[test]
fn empty_fingerprints_ignored() {
    let mut fns = vec![func("a", "", ""), func("b", "", "")];
    check_dryness(&mut fns);
    assert_eq!(fns[0].demerits, 0);
    assert_eq!(fns[1].demerits, 0);
}

#[test]
fn preserves_existing_demerits() {
    let mut first = func("a", "i32->bool", "unique");
    first.demerits = 5;
    let mut fns = vec![first, func("b", "i32->bool", "other")];
    check_dryness(&mut fns);
    assert_eq!(fns[0].demerits, 5 + DRY_WEIGHT);
}

#[test]
fn duplicate_indices_flag_every_member_of_a_group() {
    let fns = vec![
        func("a", "s1", "b1"),
        func("b", "s2", "b2"),
        func("c", "s1", "b3"),
        func("d", "", "b2"),
    ];
    assert_eq!(
        find_duplicate_indices(&fns, Fingerprint::Signature),
        vec![true, false, true, false]
    );
    assert_eq!(
        find_duplicate_indices(&fns, Fingerprint::Body),
        vec![false, true, false, true]
    );
}

#[test]
fn dryness_leaves_other_fields_alone() {
    let mut fns = vec![func("a", "s", "b"), func("b", "s", "b")];
    check_dryness(&mut fns);
    assert_eq!(fns[0].qualified_name, "a");
    assert_eq!(fns[1].sig_fingerprint, "s");
    assert!(!fns[0].sig_duplicate);
    assert_eq!(fns[0].demerits, 6);
}

#[test]
fn dry_demerits_must_fit() {
    let mut near = func("a", "s", "b");
    near.demerits = u32::MAX - 5;
    let fns = vec![near, func("b", "s", "b")];
    assert!(!fits_dry_demerits(&fns));
    let mut room = func("a", "s", "b");
    room.demerits = u32::MAX - 6;
    let fns = vec![room, func("b", "s", "b")];
    assert!(fits_dry_demerits(&fns));
}
