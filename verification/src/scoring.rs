//! Joining the complexity, coverage and idiom measurements of each function.
//! The scores themselves are floating-point formulas over what this join
//! gives; see `CrapInputs`.

use vstd::prelude::*;
use crate::complexity::{complexity_record_of, FunctionComplexity};
use crate::idiom::idioms_record_of;
use crate::syntax::SyntaxNode;
use crate::visitor::FnVisit;
use crate::coverage::{paths_equal, same_path, FunctionCoverage, LineTally};
use crate::idiom::FunctionIdioms;
use crate::text::{eq_str, opt_text};

verus! {

/// The number of lines that two inclusive line ranges share.
pub open spec fn overlap_len(a_start: u32, a_end: u32, b_start: u32, b_end: u32) -> int {
    if a_start > b_end || b_start > a_end {
        0
    } else {
        (if a_end <= b_end { a_end as int } else { b_end as int })
            - (if a_start >= b_start { a_start as int } else { b_start as int }) + 1
    }
}

/// Whether `overlap` can compute its result without leaving `u32`: the
/// ranges are disjoint, or the shared range is not reversed and is not all
/// of the `u32` lines.
pub open spec fn overlap_defined(a_start: u32, a_end: u32, b_start: u32, b_end: u32) -> bool {
    let lo = if a_start >= b_start { a_start } else { b_start };
    let hi = if a_end <= b_end { a_end } else { b_end };
    a_start > b_end || b_start > a_end || (lo <= hi && hi - lo < u32::MAX)
}

/// The number of lines that the inclusive ranges `a_start..=a_end` and
/// `b_start..=b_end` share.
pub fn overlap(a_start: u32, a_end: u32, b_start: u32, b_end: u32) -> (n: u32)
    requires
        overlap_defined(a_start, a_end, b_start, b_end),
    ensures
        n == overlap_len(a_start, a_end, b_start, b_end),
{
    if a_start > b_end || b_start > a_end {
        return 0;
    }
    let lo = if a_start >= b_start { a_start } else { b_start };
    let hi = if a_end <= b_end { a_end } else { b_end };
    hi - lo + 1
}

/// The lines that two inclusive ranges share.
pub open spec fn shared_lines(a_start: u32, a_end: u32, b_start: u32, b_end: u32) -> Set<int> {
    Set::new(|l: int| a_start <= l <= a_end && b_start <= l <= b_end)
}

/// For two line ranges, each with its start no later than its end: overlap
/// is symmetric, counts exactly the shared lines, is positive exactly when
/// the ranges meet, is at most the length of either range, and is the whole
/// length of a range compared with itself.
pub proof fn lemma_overlap_laws(a_start: u32, a_end: u32, b_start: u32, b_end: u32)
    requires
        a_start <= a_end,
        b_start <= b_end,
    ensures
        overlap_len(a_start, a_end, b_start, b_end) == overlap_len(b_start, b_end, a_start, a_end),
        overlap_len(a_start, a_end, b_start, b_end) == shared_lines(a_start, a_end, b_start, b_end).len(),
        overlap_len(a_start, a_end, b_start, b_end) > 0 <==> (a_start <= b_end && b_start <= a_end),
        overlap_len(a_start, a_end, b_start, b_end) <= a_end - a_start + 1,
        overlap_len(a_start, a_end, b_start, b_end) <= b_end - b_start + 1,
        overlap_len(a_start, a_end, a_start, a_end) == a_end - a_start + 1,
{
    let lo: int = if a_start >= b_start { a_start as int } else { b_start as int };
    let hi: int = if a_end <= b_end { a_end as int } else { b_end as int };
    let shared = shared_lines(a_start, a_end, b_start, b_end);
    broadcast use vstd::set::group_set_axioms;
    if a_start > b_end || b_start > a_end {
        assert(shared =~= Set::<int>::empty());
    } else {
        vstd::set_lib::lemma_int_range(lo, hi + 1);
        assert(shared =~= vstd::set_lib::set_int_range(lo, hi + 1));
    }
}

// --- joining the measurements ---

/// The covered share of a tally as a fraction with a positive denominator:
/// all of it when there are no lines.
pub open spec fn frac_num(t: LineTally) -> int {
    if t.total == 0 { 1 } else { t.covered as int }
}

pub open spec fn frac_den(t: LineTally) -> int {
    if t.total == 0 { 1 } else { t.total as int }
}

/// Whether the covered share of `a` is at most that of `b`.
pub open spec fn share_le(a: LineTally, b: LineTally) -> bool {
    frac_num(a) * frac_den(b) <= frac_num(b) * frac_den(a)
}

/// A coverage entry that can be matched with the function: same file and at
/// least one shared line.
pub open spec fn is_candidate(c: FunctionCoverage, f: FunctionComplexity) -> bool {
    same_path(c.file@, f.file@) && overlap_len(f.start_line, f.end_line, c.start_line, c.end_line) > 0
}

/// The order in which candidates are preferred: by shared lines, then by
/// start line, then by end line, the largest first.
pub open spec fn ranks_at_most(a: FunctionCoverage, b: FunctionCoverage, f: FunctionComplexity) -> bool {
    let oa = overlap_len(f.start_line, f.end_line, a.start_line, a.end_line);
    let ob = overlap_len(f.start_line, f.end_line, b.start_line, b.end_line);
    ||| oa < ob
    ||| oa == ob && a.start_line < b.start_line
    ||| oa == ob && a.start_line == b.start_line && a.end_line <= b.end_line
}

/// Whether the entry at `i` is the coverage chosen for the function: a
/// candidate that ranks highest, and among the candidates with its very line
/// range the one with the largest covered share.
pub open spec fn is_best_match(covs: Seq<FunctionCoverage>, f: FunctionComplexity, i: int) -> bool {
    &&& 0 <= i < covs.len()
    &&& is_candidate(covs[i], f)
    &&& forall|j: int| 0 <= j < covs.len() && is_candidate(#[trigger] covs[j], f) ==> ranks_at_most(covs[j], covs[i], f)
    &&& forall|j: int| 0 <= j < covs.len() && is_candidate(#[trigger] covs[j], f)
            && covs[j].start_line == covs[i].start_line && covs[j].end_line == covs[i].end_line
            ==> share_le(covs[j].lines, covs[i].lines)
}

/// The coverage chosen for a function: `None` when no entry is a candidate,
/// otherwise the tally of a best match.
pub open spec fn chosen_coverage(covs: Seq<FunctionCoverage>, f: FunctionComplexity, t: Option<LineTally>) -> bool {
    match t {
        None => forall|j: int| 0 <= j < covs.len() ==> !is_candidate(#[trigger] covs[j], f),
        Some(t) => exists|i: int| is_best_match(covs, f, i) && #[trigger] covs[i].lines == t,
    }
}

/// Whether the idiom entry belongs to the function: same file and same name.
pub open spec fn idioms_match(fi: FunctionIdioms, f: FunctionComplexity) -> bool {
    same_path(fi.file@, f.file@) && fi.qualified_name@ == f.qualified_name@
}

/// The index of the last idiom entry that belongs to the function, when
/// there is one: a later entry for the same function replaces an earlier one.
pub open spec fn is_last_match(idioms: Seq<FunctionIdioms>, f: FunctionComplexity, i: int) -> bool {
    &&& 0 <= i < idioms.len()
    &&& idioms_match(idioms[i], f)
    &&& forall|j: int| i < j < idioms.len() ==> !idioms_match(#[trigger] idioms[j], f)
}

/// The number of lines of an idiom entry: its end line minus its start line
/// (zero when the end comes first), plus one.
pub open spec fn body_lines_of(fi: FunctionIdioms) -> int {
    (if fi.end_line >= fi.start_line { fi.end_line - fi.start_line } else { 0 }) + 1
}

/// The demerits and the number of lines that the function's idiom entry
/// gives it: zero demerits over one line when it has none.
pub open spec fn idiom_terms(idioms: Seq<FunctionIdioms>, f: FunctionComplexity, demerits: u32, lines: u32) -> bool {
    ||| (forall|j: int| 0 <= j < idioms.len() ==> !idioms_match(#[trigger] idioms[j], f)) && demerits == 0 && lines == 1
    ||| exists|i: int| is_last_match(idioms, f, i) && #[trigger] idioms[i].demerits == demerits
            && lines == body_lines_of(idioms[i])
}

/// What the scores of one function are computed from.
pub struct CrapInputs {
    /// The file, relative to the project directory when it lies inside it.
    pub file: String,
    pub name: String,
    pub complexity: u32,
    /// The chosen coverage; `None` when no entry matches, which counts as
    /// no line covered.
    pub coverage: Option<LineTally>,
    pub demerits: u32,
    pub body_lines: u32,
    pub start_line: u32,
}

/// Whether `r` holds what the function's scores are computed from, given
/// the file name shown for it.
pub open spec fn inputs_of(
    r: CrapInputs,
    f: FunctionComplexity,
    shown: Seq<char>,
    covs: Seq<FunctionCoverage>,
    idioms: Seq<FunctionIdioms>,
) -> bool {
    &&& r.file@ == shown
    &&& r.name@ == f.qualified_name@
    &&& r.complexity == f.complexity
    &&& chosen_coverage(covs, f, r.coverage)
    &&& idiom_terms(idioms, f, r.demerits, r.body_lines)
    &&& r.start_line == f.start_line
}

/// Whether the computation for the function stays within `u32`: the shared
/// lines with each coverage entry of its file and the line count of its
/// idiom entry fit.
pub open spec fn join_defined(f: FunctionComplexity, covs: Seq<FunctionCoverage>, idioms: Seq<FunctionIdioms>) -> bool {
    &&& forall|j: int| 0 <= j < covs.len() && #[trigger] same_path(covs[j].file@, f.file@)
            ==> overlap_defined(f.start_line, f.end_line, covs[j].start_line, covs[j].end_line)
    &&& forall|i: int| is_last_match(idioms, f, i) ==> #[trigger] body_lines_of(idioms[i]) <= u32::MAX
}

proof fn lemma_frac_bounds(t: LineTally)
    ensures
        0 <= frac_num(t) <= u64::MAX,
        1 <= frac_den(t) <= u64::MAX,
{
}

fn share_less(a: &LineTally, b: &LineTally) -> (r: bool)
    ensures
        r == !share_le(*b, *a),
{
    let (an, ad) = a.fraction();
    let (bn, bd) = b.fraction();
    proof {
        lemma_frac_bounds(*a);
        lemma_frac_bounds(*b);
        assert(an as int * bd as int <= u64::MAX as int * u64::MAX as int) by (nonlinear_arith)
            requires an <= u64::MAX, bd <= u64::MAX;
        assert(bn as int * ad as int <= u64::MAX as int * u64::MAX as int) by (nonlinear_arith)
            requires bn <= u64::MAX, ad <= u64::MAX;
    }
    (an as u128) * (bd as u128) < (bn as u128) * (ad as u128)
}

proof fn lemma_share_le_trans(a: LineTally, b: LineTally, c: LineTally)
    requires
        share_le(a, b),
        share_le(b, c),
    ensures
        share_le(a, c),
{
    let (an, ad, bn, bd, cn, cd) = (frac_num(a), frac_den(a), frac_num(b), frac_den(b), frac_num(c), frac_den(c));
    assert(an * cd <= cn * ad) by (nonlinear_arith)
        requires
            an * bd <= bn * ad,
            bn * cd <= cn * bd,
            ad > 0, bd > 0, cd > 0, an >= 0, bn >= 0, cn >= 0,
    {
        assert(an * bd * cd <= bn * ad * cd);
        assert(bn * cd * ad <= cn * bd * ad);
        assert(an * cd * bd <= cn * ad * bd);
    }
}

/// The tally of the coverage entry chosen for the function, `None` when no
/// entry of its file shares a line with it.
pub fn best_coverage(covs: &Vec<FunctionCoverage>, f: &FunctionComplexity) -> (res: Option<LineTally>)
    requires
        forall|j: int| 0 <= j < covs@.len() && #[trigger] same_path(covs@[j].file@, f.file@)
            ==> overlap_defined(f.start_line, f.end_line, covs@[j].start_line, covs@[j].end_line),
    ensures
        chosen_coverage(covs@, *f, res),
{
    let mut best: Option<usize> = None;
    let mut j: usize = 0;
    while j < covs.len()
        invariant
            j <= covs@.len(),
            forall|k: int| 0 <= k < covs@.len() && #[trigger] same_path(covs@[k].file@, f.file@)
                ==> overlap_defined(f.start_line, f.end_line, covs@[k].start_line, covs@[k].end_line),
            best is None ==> forall|k: int| 0 <= k < j ==> !is_candidate(#[trigger] covs@[k], *f),
            best matches Some(b) ==> {
                &&& b < j
                &&& is_candidate(covs@[b as int], *f)
                &&& forall|k: int| 0 <= k < j && is_candidate(#[trigger] covs@[k], *f)
                        ==> ranks_at_most(covs@[k], covs@[b as int], *f)
                &&& forall|k: int| 0 <= k < j && is_candidate(#[trigger] covs@[k], *f)
                        && covs@[k].start_line == covs@[b as int].start_line
                        && covs@[k].end_line == covs@[b as int].end_line
                        ==> share_le(covs@[k].lines, covs@[b as int].lines)
            },
        decreases covs@.len() - j,
    {
        let c = &covs[j];
        if paths_equal(c.file.as_str(), f.file.as_str()) {
            let ov = overlap(f.start_line, f.end_line, c.start_line, c.end_line);
            if ov > 0 {
                match best {
                    None => {
                        best = Some(j);
                    },
                    Some(b) => {
                        let cb = &covs[b];
                        proof {
                            assert(same_path(covs@[b as int].file@, f.file@));
                        }
                        let ob = overlap(f.start_line, f.end_line, cb.start_line, cb.end_line);
                        if ov > ob || (ov == ob && (c.start_line > cb.start_line
                            || (c.start_line == cb.start_line && c.end_line > cb.end_line))) {
                            best = Some(j);
                            proof {
                                assert forall|k: int| 0 <= k < j + 1 && is_candidate(#[trigger] covs@[k], *f)
                                    && covs@[k].start_line == covs@[j as int].start_line
                                    && covs@[k].end_line == covs@[j as int].end_line
                                    implies share_le(covs@[k].lines, covs@[j as int].lines) by {
                                    if k < j {
                                        assert(ranks_at_most(covs@[k], covs@[b as int], *f));
                                    }
                                }
                            }
                        } else if c.start_line == cb.start_line && c.end_line == cb.end_line
                            && share_less(&cb.lines, &c.lines) {
                            best = Some(j);
                            proof {
                                assert forall|k: int| 0 <= k < j + 1 && is_candidate(#[trigger] covs@[k], *f)
                                    && covs@[k].start_line == covs@[j as int].start_line
                                    && covs@[k].end_line == covs@[j as int].end_line
                                    implies share_le(covs@[k].lines, covs@[j as int].lines) by {
                                    if k < j {
                                        lemma_share_le_trans(covs@[k].lines, covs@[b as int].lines, covs@[j as int].lines);
                                    }
                                }
                            }
                        }
                    },
                }
            }
        }
        j = j + 1;
    }
    match best {
        None => None,
        Some(b) => {
            assert(is_best_match(covs@, *f, b as int));
            Some(covs[b].lines)
        },
    }
}

/// The demerits and the line count that the function's idiom entry gives it.
pub fn idiom_terms_for(idioms: &Vec<FunctionIdioms>, f: &FunctionComplexity) -> (r: (u32, u32))
    requires
        forall|i: int| is_last_match(idioms@, *f, i) ==> #[trigger] body_lines_of(idioms@[i]) <= u32::MAX,
    ensures
        idiom_terms(idioms@, *f, r.0, r.1),
{
    let mut found: Option<usize> = None;
    let mut i: usize = 0;
    while i < idioms.len()
        invariant
            i <= idioms@.len(),
            found is None ==> forall|k: int| 0 <= k < i ==> !idioms_match(#[trigger] idioms@[k], *f),
            found matches Some(b) ==> b < i && idioms_match(idioms@[b as int], *f)
                && forall|k: int| b < k < i ==> !idioms_match(#[trigger] idioms@[k], *f),
        decreases idioms@.len() - i,
    {
        let fi = &idioms[i];
        if paths_equal(fi.file.as_str(), f.file.as_str()) && eq_str(fi.qualified_name.as_str(), f.qualified_name.as_str()) {
            found = Some(i);
        }
        i = i + 1;
    }
    match found {
        None => (0, 1),
        Some(b) => {
            let fi = &idioms[b];
            assert(is_last_match(idioms@, *f, b as int));
            assert(body_lines_of(idioms@[b as int]) <= u32::MAX);
            let span = if fi.end_line >= fi.start_line { fi.end_line - fi.start_line } else { 0 };
            (fi.demerits, span + 1)
        },
    }
}

/// What `std::path::Path::strip_prefix` returns for the two paths, shown as
/// text: the rest of `path` after the components of `base`, or `None` when
/// `base` is not a prefix of it.
pub uninterp spec fn stripped_path(path: Seq<char>, base: Seq<char>) -> Option<Seq<char>>;

/// `Path::new(path).strip_prefix(base)`, shown with `display`. Its
/// documentation says that it returns the path that, joined onto `base`,
/// yields `path`, and an error when `base` is not a prefix of `path`. The
/// contract names that result and claims nothing more.
#[verifier::external_body]
fn strip_path_prefix(path: &str, base: &str) -> (r: Option<String>)
    ensures
        match r {
            Some(s) => stripped_path(path@, base@) == Some(s@),
            None => stripped_path(path@, base@) is None,
        },
{
    match std::path::Path::new(path).strip_prefix(base) {
        Ok(rest) => Some(rest.display().to_string()),
        Err(_) => None,
    }
}

/// The file name shown for a function: the stripped path when there is one,
/// the file as it is otherwise.
pub open spec fn shown_file(file: Seq<char>, stripped: Option<Seq<char>>) -> Seq<char> {
    match stripped {
        Some(s) => s,
        None => file,
    }
}

/// What the scores of one function are computed from, given its file name
/// with the project directory stripped when it lies inside it.
pub fn crap_inputs_for(
    f: &FunctionComplexity,
    stripped: Option<String>,
    covs: &Vec<FunctionCoverage>,
    idioms: &Vec<FunctionIdioms>,
) -> (r: CrapInputs)
    requires
        join_defined(*f, covs@, idioms@),
    ensures
        inputs_of(r, *f, shown_file(f.file@, opt_text(stripped)), covs@, idioms@),
{
    let file = match stripped {
        Some(s) => s,
        None => f.file.clone(),
    };
    let coverage = best_coverage(covs, f);
    let (demerits, body_lines) = idiom_terms_for(idioms, f);
    CrapInputs {
        file,
        name: f.qualified_name.clone(),
        complexity: f.complexity,
        coverage,
        demerits,
        body_lines,
        start_line: f.start_line,
    }
}

/// What the scores of each function are computed from, in the order of the
/// complexity measurements: the chosen coverage, the idiom entry's demerits
/// and line count, and the file relative to the project directory.
pub fn compute_crap_inputs(
    coverage: &Vec<FunctionCoverage>,
    complexity: &Vec<FunctionComplexity>,
    idioms: &Vec<FunctionIdioms>,
    project_prefix: &str,
) -> (res: Vec<CrapInputs>)
    requires
        forall|i: int| 0 <= i < complexity@.len() ==> join_defined(#[trigger] complexity@[i], coverage@, idioms@),
    ensures
        res@.len() == complexity@.len(),
        forall|i: int| 0 <= i < res@.len() ==> inputs_of(#[trigger] res@[i], complexity@[i],
            shown_file(complexity@[i].file@, stripped_path(complexity@[i].file@, project_prefix@)),
            coverage@, idioms@),
{
    let mut res: Vec<CrapInputs> = Vec::new();
    let mut i: usize = 0;
    while i < complexity.len()
        invariant
            i <= complexity@.len(),
            res@.len() == i,
            forall|k: int| 0 <= k < complexity@.len() ==> join_defined(#[trigger] complexity@[k], coverage@, idioms@),
            forall|k: int| 0 <= k < i ==> inputs_of(#[trigger] res@[k], complexity@[k],
                shown_file(complexity@[k].file@, stripped_path(complexity@[k].file@, project_prefix@)),
                coverage@, idioms@),
        decreases complexity@.len() - i,
    {
        let f = &complexity[i];
        let stripped = strip_path_prefix(f.file.as_str(), project_prefix);
        proof {
            assert(opt_text(stripped) == stripped_path(f.file@, project_prefix@));
            assert(join_defined(complexity@[i as int], coverage@, idioms@));
        }
        let r = crap_inputs_for(f, stripped, coverage, idioms);
        res.push(r);
        i = i + 1;
    }
    res
}

fn overlap_fits(a_start: u32, a_end: u32, b_start: u32, b_end: u32) -> (b: bool)
    ensures
        b == overlap_defined(a_start, a_end, b_start, b_end),
{
    let lo = if a_start >= b_start { a_start } else { b_start };
    let hi = if a_end <= b_end { a_end } else { b_end };
    a_start > b_end || b_start > a_end || (lo <= hi && hi - lo < u32::MAX)
}

fn join_fits_for(f: &FunctionComplexity, covs: &Vec<FunctionCoverage>, idioms: &Vec<FunctionIdioms>) -> (b: bool)
    ensures
        b == join_defined(*f, covs@, idioms@),
{
    let mut j: usize = 0;
    while j < covs.len()
        invariant
            j <= covs@.len(),
            forall|k: int| 0 <= k < j && #[trigger] same_path(covs@[k].file@, f.file@)
                ==> overlap_defined(f.start_line, f.end_line, covs@[k].start_line, covs@[k].end_line),
        decreases covs@.len() - j,
    {
        let c = &covs[j];
        if paths_equal(c.file.as_str(), f.file.as_str()) && !overlap_fits(f.start_line, f.end_line, c.start_line, c.end_line) {
            return false;
        }
        j = j + 1;
    }
    let mut found: Option<usize> = None;
    let mut i: usize = 0;
    while i < idioms.len()
        invariant
            i <= idioms@.len(),
            forall|k: int| 0 <= k < covs@.len() && #[trigger] same_path(covs@[k].file@, f.file@)
                ==> overlap_defined(f.start_line, f.end_line, covs@[k].start_line, covs@[k].end_line),
            found is None ==> forall|k: int| 0 <= k < i ==> !idioms_match(#[trigger] idioms@[k], *f),
            found matches Some(m) ==> m < i && idioms_match(idioms@[m as int], *f)
                && forall|k: int| m < k < i ==> !idioms_match(#[trigger] idioms@[k], *f),
        decreases idioms@.len() - i,
    {
        let fi = &idioms[i];
        if paths_equal(fi.file.as_str(), f.file.as_str()) && eq_str(fi.qualified_name.as_str(), f.qualified_name.as_str()) {
            found = Some(i);
        }
        i = i + 1;
    }
    match found {
        None => {
            proof {
                assert(i == idioms@.len());
                assert forall|k: int| is_last_match(idioms@, *f, k) implies #[trigger] body_lines_of(idioms@[k]) <= u32::MAX by {
                    assert(0 <= k < i);
                    assert(!idioms_match(idioms@[k], *f));
                }
            }
            true
        },
        Some(m) => {
            let fi = &idioms[m];
            proof {
                assert(is_last_match(idioms@, *f, m as int));
                assert forall|k: int| is_last_match(idioms@, *f, k) implies k == m by {
                    if k < m {
                        assert(idioms_match(idioms@[m as int], *f));
                    }
                }
                assert(body_lines_of(idioms@[m as int]) <= u32::MAX
                    <==> !(fi.end_line >= fi.start_line && fi.end_line - fi.start_line == u32::MAX));
            }
            !(fi.end_line >= fi.start_line && fi.end_line - fi.start_line == u32::MAX)
        },
    }
}

/// Whether the join stays within `u32` for every function: the condition
/// under which `compute_crap_inputs` can run.
pub fn fits_join(coverage: &Vec<FunctionCoverage>, complexity: &Vec<FunctionComplexity>, idioms: &Vec<FunctionIdioms>) -> (b: bool)
    ensures
        b == forall|i: int| 0 <= i < complexity@.len() ==> join_defined(#[trigger] complexity@[i], coverage@, idioms@),
{
    let mut i: usize = 0;
    while i < complexity.len()
        invariant
            i <= complexity@.len(),
            forall|k: int| 0 <= k < i ==> join_defined(#[trigger] complexity@[k], coverage@, idioms@),
        decreases complexity@.len() - i,
    {
        if !join_fits_for(&complexity[i], coverage, idioms) {
            return false;
        }
        i = i + 1;
    }
    true
}

/// The complexity record and the idiom finding that the two analyses give
/// for the same function of a file carry the same file text, name and lines;
/// equal texts are equal paths, so the join finds the one from the other.
pub proof fn lemma_records_agree(
    c: FunctionComplexity,
    fi: FunctionIdioms,
    file: Seq<char>,
    v: FnVisit,
    items: Seq<SyntaxNode>,
)
    requires
        complexity_record_of(c, file, v),
        idioms_record_of(fi, file, v, items),
    ensures
        fi.file@ == c.file@,
        fi.qualified_name@ == c.qualified_name@,
        fi.start_line == c.start_line,
        fi.end_line == c.end_line,
{
}

/// The idiom entry chosen for a function is its own: the demerits and line
/// count come from the last entry with the same file (as a path) and the same
/// qualified name, with the line count the entry's end line minus its start
/// line (zero when reversed) plus one; an entry with another name or file is
/// never chosen, and with no such entry the terms are zero demerits over one
/// line.
pub proof fn lemma_idiom_terms_use_own_entry(idioms: Seq<FunctionIdioms>, f: FunctionComplexity, demerits: u32, lines: u32)
    requires
        idiom_terms(idioms, f, demerits, lines),
    ensures
        (forall|j: int| 0 <= j < idioms.len()
            ==> !(same_path(#[trigger] idioms[j].file@, f.file@) && idioms[j].qualified_name@ == f.qualified_name@))
            ==> demerits == 0 && lines == 1,
        (exists|j: int| 0 <= j < idioms.len()
            && same_path(#[trigger] idioms[j].file@, f.file@) && idioms[j].qualified_name@ == f.qualified_name@)
            ==> exists|i: int| {
                &&& 0 <= i < idioms.len()
                &&& same_path(#[trigger] idioms[i].file@, f.file@)
                &&& idioms[i].qualified_name@ == f.qualified_name@
                &&& idioms[i].demerits == demerits
                &&& lines == (if idioms[i].end_line >= idioms[i].start_line {
                    idioms[i].end_line - idioms[i].start_line
                } else {
                    0
                }) + 1
                &&& forall|k: int| i < k < idioms.len()
                    ==> !(same_path(#[trigger] idioms[k].file@, f.file@) && idioms[k].qualified_name@ == f.qualified_name@)
            },
{
    if exists|i: int| is_last_match(idioms, f, i) && #[trigger] idioms[i].demerits == demerits
        && lines == body_lines_of(idioms[i]) {
        let i = choose|i: int| is_last_match(idioms, f, i) && #[trigger] idioms[i].demerits == demerits
            && lines == body_lines_of(idioms[i]);
        assert(idioms_match(idioms[i], f));
        assert forall|k: int| i < k < idioms.len() implies
            !(same_path(#[trigger] idioms[k].file@, f.file@) && idioms[k].qualified_name@ == f.qualified_name@) by {
            assert(!idioms_match(idioms[k], f));
        }
        assert(same_path(idioms[i].file@, f.file@));
    } else {
        assert forall|j: int| 0 <= j < idioms.len() implies
            !(same_path(#[trigger] idioms[j].file@, f.file@) && idioms[j].qualified_name@ == f.qualified_name@) by {
            assert(!idioms_match(idioms[j], f));
        }
    }
}

} // verus!
