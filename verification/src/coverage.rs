//! Line coverage of functions, computed from the code regions that
//! `llvm-cov export` reports.

use vstd::prelude::*;
use std::collections::HashMap;
use crate::text::{
    char_lines_view, chars_of, chars_start_with, eq_str, lines_of, opt_text, slice_chars, split_lines,
    starts_with, string_of, strings_view,
};

verus! {

broadcast use vstd::std_specs::hash::group_hash_axioms;

/// Whether a region counts: it has at least the five entries
/// `[start_line, start_col, end_line, end_col, count]`, and it is a code
/// region (kind `0` at index 7, or no kind given).
pub open spec fn region_counts(r: Seq<u64>) -> bool {
    r.len() >= 5 && !(r.len() > 7 && r[7] != 0)
}

/// The first line of a region.
pub open spec fn region_start(r: Seq<u64>) -> u32 {
    r[0] as u32
}

/// The last line of a region.
pub open spec fn region_end(r: Seq<u64>) -> u32 {
    r[2] as u32
}

/// How often a region ran.
pub open spec fn region_count(r: Seq<u64>) -> u64 {
    r[4]
}

/// The hits of each line after the region is taken into account: every line
/// the region spans gets the larger of its earlier hits and the region's count.
pub open spec fn apply_region(m: Map<u32, u64>, r: Seq<u64>) -> Map<u32, u64> {
    if !region_counts(r) {
        m
    } else {
        Map::new(
            |l: u32| m.contains_key(l) || (region_start(r) <= l <= region_end(r)),
            |l: u32| if region_start(r) <= l <= region_end(r) {
                if m.contains_key(l) && m[l] >= region_count(r) { m[l] } else { region_count(r) }
            } else {
                m[l]
            },
        )
    }
}

/// The hits of each line spanned by some counted region: the largest count
/// among the regions that span it.
pub open spec fn line_hits(regions: Seq<Seq<u64>>) -> Map<u32, u64>
    decreases regions.len(),
{
    if regions.len() == 0 {
        Map::empty()
    } else {
        apply_region(line_hits(regions.drop_last()), regions.last())
    }
}

/// The lines that ran at least once.
pub open spec fn hit_lines(m: Map<u32, u64>) -> Set<u32> {
    m.dom().filter(|l: u32| m[l] > 0)
}

/// How many of a function's lines ran, out of how many lines its regions span.
#[derive(Clone, Copy, Debug, PartialEq, Eq, Structural)]
pub struct LineTally {
    pub covered: u64,
    pub total: u64,
}

/// The line tally of a function's regions.
pub open spec fn tally_of(regions: Seq<Seq<u64>>) -> LineTally {
    LineTally {
        covered: hit_lines(line_hits(regions)).len() as u64,
        total: line_hits(regions).dom().len() as u64,
    }
}

/// The regions as sequences.
pub open spec fn regions_view(regions: Seq<Vec<u64>>) -> Seq<Seq<u64>> {
    regions.map_values(|r: Vec<u64>| r@)
}

/// The hits of the lines of a region from its start line up to, and not
/// including, `upto`.
pub open spec fn apply_region_upto(m: Map<u32, u64>, r: Seq<u64>, upto: int) -> Map<u32, u64> {
    Map::new(
        |l: u32| m.contains_key(l) || (region_start(r) <= l < upto),
        |l: u32| if region_start(r) <= l < upto {
            if m.contains_key(l) && m[l] >= region_count(r) { m[l] } else { region_count(r) }
        } else {
            m[l]
        },
    )
}

proof fn lemma_u32_set_bound(s: Set<u32>)
    ensures
        s.finite() ==> s.len() <= 0x1_0000_0000,
{
    if s.finite() {
        <u32 as vstd::set_lib::FiniteRange>::range_properties(0, u32::MAX);
        let range = Set::<u32>::new(|i: u32| 0 <= i < u32::MAX);
        assert(range.finite() && range.len() == u32::MAX);
        let full = range.insert(u32::MAX);
        assert(s.subset_of(full));
        vstd::set_lib::lemma_len_subset(s, full);
    }
}

proof fn lemma_hits_insert(m: Map<u32, u64>, k: u32, v: u64)
    requires
        m.dom().finite(),
        m.contains_key(k) ==> v >= m[k],
    ensures
        m.insert(k, v).dom().finite(),
        hit_lines(m).len() <= m.dom().len(),
        hit_lines(m.insert(k, v)).len() <= m.insert(k, v).dom().len(),
        m.insert(k, v).dom().len() == m.dom().len() + (if m.contains_key(k) { 0int } else { 1int }),
        hit_lines(m.insert(k, v)).len() == hit_lines(m).len()
            + (if (!m.contains_key(k) || m[k] == 0) && v > 0 { 1int } else { 0int }),
{
    let m2 = m.insert(k, v);
    assert(m2.dom() =~= m.dom().insert(k));
    vstd::set_lib::lemma_len_subset(hit_lines(m), m.dom());
    if v > 0 {
        assert(hit_lines(m2) =~= hit_lines(m).insert(k));
    } else {
        assert(hit_lines(m2) =~= hit_lines(m).remove(k));
    }
    vstd::set_lib::lemma_len_subset(hit_lines(m2), m2.dom());
}

/// Counts, for the lines that the code regions of one function span, how
/// many ran at least once and how many there are. Each line takes the
/// largest count among the regions that span it; regions with fewer than
/// five entries and regions of another kind than code are skipped.
pub fn compute_line_coverage(regions: &[Vec<u64>]) -> (t: LineTally)
    ensures
        t == tally_of(regions_view(regions@)),
        t.covered <= t.total,
{
    let mut hits: HashMap<u32, u64> = HashMap::new();
    let mut covered: u64 = 0;
    let mut total: u64 = 0;
    let ghost rs = regions_view(regions@);
    let mut i: usize = 0;
    assert(hit_lines(hits@) =~= Set::<u32>::empty());
    assert(rs.take(0) =~= Seq::<Seq<u64>>::empty());
    while i < regions.len()
        invariant
            i <= regions@.len(),
            rs == regions_view(regions@),
            hits@ == line_hits(rs.take(i as int)),
            hits@.dom().finite(),
            total as nat == hits@.dom().len(),
            covered as nat == hit_lines(hits@).len(),
            hits@.dom().len() <= 0x1_0000_0000,
        decreases regions@.len() - i,
    {
        proof {
            assert(rs.take(i + 1).drop_last() =~= rs.take(i as int));
            assert(rs.take(i + 1).last() == regions@[i as int]@);
        }
        let region = &regions[i];
        let counts = region.len() >= 5 && !(region.len() > 7 && region[7] != 0);
        if counts {
            let start = region[0] as u32;
            let end = region[2] as u32;
            let count = region[4];
            let ghost m0 = hits@;
            let ghost r = region@;
            let mut line: u64 = start as u64;
            assert(hits@ =~= apply_region_upto(m0, r, start as int));
            while line <= end as u64
                invariant
                    start == region_start(r),
                    end == region_end(r),
                    count == region_count(r),
                    start <= line,
                    line <= end as u64 + 1 || line == start as u64,
                    m0.dom().finite(),
                    hits@ == apply_region_upto(m0, r, line as int),
                    hits@.dom().finite(),
                    total as nat == hits@.dom().len(),
                    covered as nat == hit_lines(hits@).len(),
                    hits@.dom().len() <= 0x1_0000_0000,
                decreases end as u64 + 1 - line,
            {
                let key = line as u32;
                let ghost before = hits@;
                let old_hits = match hits.get(&key) {
                    Some(v) => Some(*v),
                    None => None,
                };
                proof {
                    assert(before.contains_key(key) == m0.contains_key(key));
                }
                let new_value = match old_hits {
                    Some(v) => if v >= count { v } else { count },
                    None => count,
                };
                hits.insert(key, new_value);
                proof {
                    lemma_hits_insert(before, key, new_value);
                    assert(hits@ =~= apply_region_upto(m0, r, line as int + 1));
                    lemma_u32_set_bound(hits@.dom());
                }
                match old_hits {
                    None => {
                        total = total + 1;
                        if new_value > 0 {
                            covered = covered + 1;
                        }
                    },
                    Some(v) => {
                        if v == 0 && new_value > 0 {
                            covered = covered + 1;
                        }
                    },
                }
                line = line + 1;
            }
            assert(hits@ =~= apply_region(m0, r));
        }
        i = i + 1;
    }
    proof {
        assert(rs.take(rs.len() as int) =~= rs);
        vstd::set_lib::lemma_len_subset(hit_lines(hits@), hits@.dom());
    }
    LineTally { covered, total }
}

impl LineTally {
    /// The covered share as a fraction `numerator / denominator` with a
    /// positive denominator: all of it when there are no lines.
    pub fn fraction(&self) -> (r: (u64, u64))
        ensures
            r.1 > 0,
            self.total == 0 ==> r == (1u64, 1u64),
            self.total > 0 ==> r == (self.covered, self.total),
    {
        if self.total == 0 {
            (1, 1)
        } else {
            (self.covered, self.total)
        }
    }
}

/// One function of an `llvm-cov export`: its file names and its regions.
pub struct LlvmFunctionRecord {
    pub filenames: Vec<String>,
    pub regions: Vec<Vec<u64>>,
}

/// The measured coverage of one function.
pub struct FunctionCoverage {
    pub file: String,
    pub start_line: u32,
    pub end_line: u32,
    pub lines: LineTally,
}

/// The smallest start line among the regions with at least three entries,
/// `u32::MAX` when there is none.
pub open spec fn first_line(regions: Seq<Seq<u64>>) -> u32
    decreases regions.len(),
{
    if regions.len() == 0 {
        u32::MAX
    } else {
        let rest = first_line(regions.drop_last());
        let r = regions.last();
        if r.len() >= 3 && (r[0] as u32) < rest { r[0] as u32 } else { rest }
    }
}

/// The largest end line among the regions with at least three entries, `0`
/// when there is none.
pub open spec fn last_line(regions: Seq<Seq<u64>>) -> u32
    decreases regions.len(),
{
    if regions.len() == 0 {
        0
    } else {
        let rest = last_line(regions.drop_last());
        let r = regions.last();
        if r.len() >= 3 && (r[2] as u32) > rest { r[2] as u32 } else { rest }
    }
}

/// Whether the record yields a coverage entry: it names a file inside the
/// project, has regions, and some region gives a start line below `u32::MAX`.
pub open spec fn yields_coverage(rec: LlvmFunctionRecord, in_project: bool) -> bool {
    &&& rec.filenames@.len() > 0
    &&& in_project
    &&& rec.regions@.len() > 0
    &&& first_line(regions_view(rec.regions@)) != u32::MAX
}

/// Whether `c` is the coverage entry of the record.
pub open spec fn coverage_entry_of(c: FunctionCoverage, rec: LlvmFunctionRecord) -> bool {
    &&& c.file@ == rec.filenames@[0]@
    &&& c.start_line == first_line(regions_view(rec.regions@))
    &&& c.end_line == last_line(regions_view(rec.regions@))
    &&& c.lines == tally_of(regions_view(rec.regions@))
}

/// The coverage entry of one function of the export, given whether its first
/// file name lies inside the project: `None` when it names no file, lies
/// outside the project, has no regions, or no region gives its lines.
pub fn coverage_for_function(rec: &LlvmFunctionRecord, in_project: bool) -> (res: Option<FunctionCoverage>)
    ensures
        res is Some <==> yields_coverage(*rec, in_project),
        res matches Some(c) ==> coverage_entry_of(c, *rec),
{
    if rec.filenames.len() == 0 || !in_project || rec.regions.len() == 0 {
        return None;
    }
    let ghost rs = regions_view(rec.regions@);
    let mut start_line: u32 = u32::MAX;
    let mut end_line: u32 = 0;
    let mut i: usize = 0;
    while i < rec.regions.len()
        invariant
            i <= rec.regions@.len(),
            rs == regions_view(rec.regions@),
            start_line == first_line(rs.take(i as int)),
            end_line == last_line(rs.take(i as int)),
        decreases rec.regions@.len() - i,
    {
        proof {
            assert(rs.take(i + 1).drop_last() =~= rs.take(i as int));
            assert(rs.take(i + 1).last() == rec.regions@[i as int]@);
        }
        let r = &rec.regions[i];
        if r.len() >= 3 {
            let a = r[0] as u32;
            let b = r[2] as u32;
            if a < start_line {
                start_line = a;
            }
            if b > end_line {
                end_line = b;
            }
        }
        i = i + 1;
    }
    assert(rs.take(rs.len() as int) =~= rs);
    if start_line == u32::MAX {
        return None;
    }
    let lines = compute_line_coverage(rec.regions.as_slice());
    Some(FunctionCoverage { file: rec.filenames[0].clone(), start_line, end_line, lines })
}

/// What `std::path::Path::starts_with` returns for the two paths: whether
/// `base` is a prefix of `path`, comparing whole components.
pub uninterp spec fn path_has_prefix(path: Seq<char>, base: Seq<char>) -> bool;

/// `Path::new(path).starts_with(base)`, whose documentation says that it
/// determines whether `base` is a prefix of `path`, considering only whole
/// path components. The contract names that result and claims nothing more.
#[verifier::external_body]
fn path_starts_with(path: &str, base: &str) -> (b: bool)
    ensures
        b == path_has_prefix(path@, base@),
{
    std::path::Path::new(path).starts_with(base)
}

/// What `Path::new(a) == Path::new(b)` gives: whether the two paths have
/// the same components.
pub uninterp spec fn same_path(a: Seq<char>, b: Seq<char>) -> bool;

/// `Path::new(a) == Path::new(b)`. The documentation of `Path`'s `PartialEq`
/// says that it compares the paths by their components (so `a//b` and `a/b`
/// are equal), and `Path` implements `Eq`, so a path equals itself. The
/// contract names the result and states only that equal texts give equal
/// paths.
#[verifier::external_body]
pub(crate) fn paths_equal(a: &str, b: &str) -> (r: bool)
    ensures
        r == same_path(a@, b@),
        a@ == b@ ==> r,
{
    std::path::Path::new(a) == std::path::Path::new(b)
}

/// What a coverage entry says: its file, its lines and its tally.
pub ghost struct CoverageView {
    pub file: Seq<char>,
    pub start_line: u32,
    pub end_line: u32,
    pub lines: LineTally,
}

impl View for FunctionCoverage {
    type V = CoverageView;

    open spec fn view(&self) -> CoverageView {
        CoverageView { file: self.file@, start_line: self.start_line, end_line: self.end_line, lines: self.lines }
    }
}

/// The entry that a record yields.
pub open spec fn entry_view(rec: LlvmFunctionRecord) -> CoverageView {
    CoverageView {
        file: rec.filenames@[0]@,
        start_line: first_line(regions_view(rec.regions@)),
        end_line: last_line(regions_view(rec.regions@)),
        lines: tally_of(regions_view(rec.regions@)),
    }
}

/// Whether the record's first file name lies inside the project.
pub open spec fn record_in_project(rec: LlvmFunctionRecord, prefix: Seq<char>) -> bool {
    rec.filenames@.len() > 0 && path_has_prefix(rec.filenames@[0]@, prefix)
}

/// The entries that the records yield, in their order.
pub open spec fn expected_coverages(recs: Seq<LlvmFunctionRecord>, prefix: Seq<char>) -> Seq<CoverageView>
    decreases recs.len(),
{
    if recs.len() == 0 {
        Seq::empty()
    } else {
        let rest = expected_coverages(recs.drop_last(), prefix);
        let r = recs.last();
        if yields_coverage(r, record_in_project(r, prefix)) { rest.push(entry_view(r)) } else { rest }
    }
}

pub open spec fn coverages_view(v: Seq<FunctionCoverage>) -> Seq<CoverageView> {
    v.map_values(|c: FunctionCoverage| c@)
}

/// The coverage entries of the functions of an `llvm-cov export` whose first
/// file name lies inside the project, in the order of the export.
pub fn function_coverages(functions: &Vec<LlvmFunctionRecord>, project_prefix: &str) -> (res: Vec<FunctionCoverage>)
    ensures
        coverages_view(res@) == expected_coverages(functions@, project_prefix@),
{
    let mut res: Vec<FunctionCoverage> = Vec::new();
    let mut i: usize = 0;
    while i < functions.len()
        invariant
            i <= functions@.len(),
            coverages_view(res@) == expected_coverages(functions@.take(i as int), project_prefix@),
        decreases functions@.len() - i,
    {
        proof {
            assert(functions@.take(i + 1).drop_last() =~= functions@.take(i as int));
            assert(functions@.take(i + 1).last() == functions@[i as int]);
        }
        let rec = &functions[i];
        let in_project = rec.filenames.len() > 0 && path_starts_with(rec.filenames[0].as_str(), project_prefix);
        let ghost before = res@;
        match coverage_for_function(rec, in_project) {
            Some(c) => {
                res.push(c);
                assert(coverages_view(res@) =~= coverages_view(before).push(entry_view(*rec)));
            },
            None => {},
        }
        i = i + 1;
    }
    assert(functions@.take(functions@.len() as int) =~= functions@);
    res
}

// ---------------------------------------------------------------------------
// Tools and test binaries
// ---------------------------------------------------------------------------

/// The host target triple in the lines of `rustc -vV` from `i` on: the rest
/// of the first line that starts with `host: `.
pub open spec fn host_from(lines: Seq<Seq<char>>, i: int) -> Option<Seq<char>>
    decreases lines.len() - i,
{
    if i < 0 || i >= lines.len() {
        None
    } else if starts_with(lines[i], "host: "@) {
        Some(lines[i].subrange("host: "@.len() as int, lines[i].len() as int))
    } else {
        host_from(lines, i + 1)
    }
}

/// The host target triple that `rustc -vV` reports, whose tools directory
/// holds `llvm-profdata` and `llvm-cov`; `None` when no line gives it.
pub fn host_triple(version_output: &str) -> (r: Option<String>)
    ensures
        opt_text(r) == host_from(lines_of(version_output@), 0),
{
    let cv = chars_of(version_output);
    let lines = split_lines(&cv);
    let ghost lv = char_lines_view(lines@);
    let p = chars_of("host: ");
    let mut i: usize = 0;
    while i < lines.len()
        invariant
            i <= lines@.len(),
            lv == char_lines_view(lines@),
            lv == lines_of(version_output@),
            p@ == "host: "@,
            host_from(lv, i as int) == host_from(lv, 0),
        decreases lines@.len() - i,
    {
        assert(lv[i as int] == lines@[i as int]@);
        if chars_start_with(&lines[i], "host: ") {
            let rest = slice_chars(&lines[i], p.len(), lines[i].len());
            return Some(string_of(&rest));
        }
        i = i + 1;
    }
    None
}

/// What one JSON message of `cargo test --message-format=json` says, as far
/// as the choice of test binaries reads it.
pub struct CargoArtifact {
    pub reason: String,
    pub executable: Option<String>,
    pub profile: Option<CargoProfile>,
}

pub struct CargoProfile {
    pub test: bool,
}

/// The test binary that a message announces: the executable of a compiler
/// artifact built with the test profile.
pub open spec fn test_binary_of(a: CargoArtifact) -> Option<Seq<char>> {
    if a.reason@ == "compiler-artifact"@ && (a.profile matches Some(p) && p.test) {
        opt_text(a.executable)
    } else {
        None
    }
}

/// The test binaries that the messages announce, in order.
pub open spec fn test_binaries_spec(arts: Seq<CargoArtifact>) -> Seq<Seq<char>>
    decreases arts.len(),
{
    if arts.len() == 0 {
        Seq::empty()
    } else {
        let rest = test_binaries_spec(arts.drop_last());
        match test_binary_of(arts.last()) {
            Some(b) => rest.push(b),
            None => rest,
        }
    }
}

/// The test binaries to read coverage from; `None` when the messages
/// announce none.
pub fn test_binaries(artifacts: &Vec<CargoArtifact>) -> (r: Option<Vec<String>>)
    ensures
        r is None <==> test_binaries_spec(artifacts@).len() == 0,
        r matches Some(v) ==> strings_view(v@) == test_binaries_spec(artifacts@),
{
    let mut out: Vec<String> = Vec::new();
    for k in 0..artifacts.len()
        invariant
            strings_view(out@) == test_binaries_spec(artifacts@.take(k as int)),
    {
        let a = &artifacts[k];
        assert(artifacts@.take(k + 1).drop_last() =~= artifacts@.take(k as int));
        assert(artifacts@.take(k + 1).last() == *a);
        let ghost before = out@;
        let is_test = match &a.profile {
            Some(p) => p.test,
            None => false,
        };
        if eq_str(a.reason.as_str(), "compiler-artifact") && is_test {
            if let Some(exe) = &a.executable {
                out.push(exe.clone());
                assert(strings_view(out@) =~= strings_view(before).push(exe@));
            }
        }
    }
    assert(artifacts@.take(artifacts@.len() as int) =~= artifacts@);
    if out.len() == 0 {
        None
    } else {
        Some(out)
    }
}

/// Whether a counted region spans the line.
pub open spec fn covers(r: Seq<u64>, l: u32) -> bool {
    region_counts(r) && region_start(r) <= l <= region_end(r)
}

/// A line has hits exactly when some counted region spans it, and its hits
/// are the largest count among the regions that span it, whatever their
/// order.
pub proof fn lemma_line_hits_are_max_count(rs: Seq<Seq<u64>>, l: u32)
    ensures
        line_hits(rs).contains_key(l) <==> exists|i: int| 0 <= i < rs.len() && #[trigger] covers(rs[i], l),
        line_hits(rs).contains_key(l) ==> forall|i: int| 0 <= i < rs.len() && #[trigger] covers(rs[i], l)
            ==> region_count(rs[i]) <= line_hits(rs)[l],
        line_hits(rs).contains_key(l) ==> exists|i: int| 0 <= i < rs.len() && #[trigger] covers(rs[i], l)
            && region_count(rs[i]) == line_hits(rs)[l],
    decreases rs.len(),
{
    if rs.len() > 0 {
        let prev = rs.drop_last();
        let r = rs.last();
        let n = rs.len() - 1;
        lemma_line_hits_are_max_count(prev, l);
        let m0 = line_hits(prev);
        let m = line_hits(rs);
        assert(m == apply_region(m0, r));
        assert forall|i: int| 0 <= i < n implies rs[i] == prev[i] by {}
        if covers(r, l) {
            assert(m.contains_key(l));
            assert(covers(rs[n], l));
            if m0.contains_key(l) && m0[l] >= region_count(r) {
                assert(m[l] == m0[l]);
                let j = choose|j: int| 0 <= j < prev.len() && #[trigger] covers(prev[j], l) && region_count(prev[j]) == m0[l];
                assert(covers(rs[j], l) && region_count(rs[j]) == m[l]);
            } else {
                assert(m[l] == region_count(r));
                assert(region_count(rs[n]) == m[l]);
            }
            assert forall|i: int| 0 <= i < rs.len() && #[trigger] covers(rs[i], l) implies region_count(rs[i]) <= m[l] by {
                if i < n {
                    assert(covers(prev[i], l));
                }
            }
        } else {
            assert forall|i: int| 0 <= i < rs.len() && #[trigger] covers(rs[i], l) implies i < n && covers(prev[i], l) by {}
            if m0.contains_key(l) {
                assert(m.contains_key(l));
                assert(m[l] == m0[l]);
                let j = choose|j: int| 0 <= j < prev.len() && #[trigger] covers(prev[j], l) && region_count(prev[j]) == m0[l];
                assert(covers(rs[j], l));
            } else {
                assert(!m.contains_key(l));
                if exists|i: int| 0 <= i < rs.len() && #[trigger] covers(rs[i], l) {
                    let i = choose|i: int| 0 <= i < rs.len() && #[trigger] covers(rs[i], l);
                    assert(covers(prev[i], l));
                }
            }
        }
    }
}

/// The compiler flags for the instrumented test run: those already set,
/// then a space, then `-Cinstrument-coverage`; the flag alone when none are
/// set.
pub open spec fn rustflags_spec(existing: Seq<char>) -> Seq<char> {
    if existing.len() == 0 {
        "-Cinstrument-coverage"@
    } else {
        existing + " "@ + "-Cinstrument-coverage"@
    }
}

/// The `RUSTFLAGS` value for the instrumented test run, given the value
/// already set (empty when none is).
pub fn instrumented_rustflags(existing: &str) -> (flags: String)
    ensures
        flags@ == rustflags_spec(existing@),
{
    let mut flags = existing.to_owned();
    if !existing.is_empty() {
        flags.append(" ");
    }
    flags.append("-Cinstrument-coverage");
    flags
}

} // verus!
