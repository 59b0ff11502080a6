//! Cyclomatic complexity of the functions of a file.

use vstd::prelude::*;
use crate::syntax::{AttrShape, BinOpKind, NodeKind, PathArgs, PathShape, SyntaxNode, TypeShape};
use crate::text::{eq_str, opt_text, strings_view};
use crate::coverage::{paths_equal, same_path};
use crate::visitor::{visit_functions, nodes_visits, sites_view, FnVisit};

verus! {

/// Whether the path is the single plain identifier `name`: no leading `::`,
/// one segment, no arguments.
pub open spec fn path_is_ident(p: PathShape, name: Seq<char>) -> bool {
    &&& !p.leading_colon
    &&& p.segments@.len() == 1
    &&& p.segments@[0].args is Plain
    &&& p.segments@[0].ident@ == name
}

/// `#[test]`.
pub open spec fn attr_is_test(a: AttrShape) -> bool {
    path_is_ident(a.path, "test"@)
}

/// An attribute that opts a function out of the analysis: `#[crappy_allow]`,
/// or an `allow` list that names `crappy`, as in `#[allow(unknown_lints, crappy)]`.
pub open spec fn attr_is_crappy_allow(a: AttrShape) -> bool {
    ||| path_is_ident(a.path, "crappy_allow"@)
    ||| path_is_ident(a.path, "allow"@) && match a.list_paths {
        Some(ps) => exists|j: int| 0 <= j < ps@.len() && path_is_ident(#[trigger] ps@[j], "crappy"@),
        None => false,
    }
}

/// `#[cfg(test)]`.
pub open spec fn attr_is_cfg_test(a: AttrShape) -> bool {
    path_is_ident(a.path, "cfg"@) && match a.list_ident {
        Some(id) => id@ == "test"@,
        None => false,
    }
}

/// Some attribute of the list satisfies `p`.
pub open spec fn any_attr(attrs: Seq<AttrShape>, p: spec_fn(AttrShape) -> bool) -> bool {
    exists|i: int| 0 <= i < attrs.len() && p(#[trigger] attrs[i])
}

/// A function with one of these attributes is left out of the analysis.
pub open spec fn attrs_skip(attrs: Seq<AttrShape>) -> bool {
    any_attr(attrs, |a: AttrShape| attr_is_test(a)) || any_attr(attrs, |a: AttrShape| attr_is_crappy_allow(a))
}

/// The name by which a path is shown: its last segment, `_` when it has none.
pub open spec fn path_display(p: PathShape) -> Seq<char> {
    if p.segments@.len() == 0 {
        "_"@
    } else {
        p.segments@.last().ident@
    }
}

/// The name by which a type is shown: that of its path, `_` for any other type.
pub open spec fn type_display(t: TypeShape) -> Seq<char> {
    match t {
        TypeShape::Path(p) => path_display(p),
        _ => "_"@,
    }
}

/// Whether the path is the single identifier `name`.
pub fn is_ident(p: &PathShape, name: &str) -> (b: bool)
    ensures
        b == path_is_ident(*p, name@),
{
    if p.leading_colon || p.segments.len() != 1 {
        return false;
    }
    match p.segments[0].args {
        PathArgs::Plain => {},
        _ => return false,
    }
    eq_str(&p.segments[0].ident, name)
}

/// Queries on the attributes of an item.
pub trait AttrExt {
    /// Whether `#[test]` is among them.
    fn has_test(&self) -> bool;
    /// Whether an opt-out attribute is among them.
    fn has_crappy_allow(&self) -> bool;
    /// Whether `#[cfg(test)]` is among them.
    fn has_cfg_test(&self) -> bool;
    /// Whether the item is left out of the analysis.
    fn should_skip(&self) -> bool;
}

fn attr_crappy_allow(a: &AttrShape) -> (b: bool)
    ensures
        b == attr_is_crappy_allow(*a),
{
    if is_ident(&a.path, "crappy_allow") {
        return true;
    }
    if !is_ident(&a.path, "allow") {
        return false;
    }
    match &a.list_paths {
        Some(ps) => {
            let mut j: usize = 0;
            while j < ps.len()
                invariant
                    j <= ps.len(),
                    a.list_paths == Some(*ps),
                    path_is_ident(a.path, "allow"@),
                    !path_is_ident(a.path, "crappy_allow"@),
                    forall|k: int| 0 <= k < j ==> !path_is_ident(#[trigger] ps@[k], "crappy"@),
                decreases ps.len() - j,
            {
                if is_ident(&ps[j], "crappy") {
                    assert(path_is_ident(ps@[j as int], "crappy"@));
                    let ghost v = a.list_paths->0;
                    assert(v@[j as int] == ps@[j as int]);
                    assert(exists|jj: int| 0 <= jj < v@.len() && path_is_ident(#[trigger] v@[jj], "crappy"@));
                    return true;
                }
                j = j + 1;
            }
            false
        },
        None => false,
    }
}

fn attr_cfg_test(a: &AttrShape) -> (b: bool)
    ensures
        b == attr_is_cfg_test(*a),
{
    if !is_ident(&a.path, "cfg") {
        return false;
    }
    match &a.list_ident {
        Some(id) => eq_str(id, "test"),
        None => false,
    }
}

impl AttrExt for [AttrShape] {
    fn has_test(&self) -> (b: bool)
        ensures
            b == any_attr(self@, |a: AttrShape| attr_is_test(a)),
    {
        let mut i: usize = 0;
        while i < self.len()
            invariant
                i <= self@.len(),
                forall|k: int| 0 <= k < i ==> !attr_is_test(#[trigger] self@[k]),
            decreases self@.len() - i,
        {
            if is_ident(&self[i].path, "test") {
                return true;
            }
            i = i + 1;
        }
        false
    }

    fn has_crappy_allow(&self) -> (b: bool)
        ensures
            b == any_attr(self@, |a: AttrShape| attr_is_crappy_allow(a)),
    {
        let mut i: usize = 0;
        while i < self.len()
            invariant
                i <= self@.len(),
                forall|k: int| 0 <= k < i ==> !attr_is_crappy_allow(#[trigger] self@[k]),
            decreases self@.len() - i,
        {
            if attr_crappy_allow(&self[i]) {
                return true;
            }
            i = i + 1;
        }
        false
    }

    fn has_cfg_test(&self) -> (b: bool)
        ensures
            b == any_attr(self@, |a: AttrShape| attr_is_cfg_test(a)),
    {
        let mut i: usize = 0;
        while i < self.len()
            invariant
                i <= self@.len(),
                forall|k: int| 0 <= k < i ==> !attr_is_cfg_test(#[trigger] self@[k]),
            decreases self@.len() - i,
        {
            if attr_cfg_test(&self[i]) {
                return true;
            }
            i = i + 1;
        }
        false
    }

    fn should_skip(&self) -> (b: bool)
        ensures
            b == attrs_skip(self@),
    {
        self.has_test() || self.has_crappy_allow()
    }
}

/// The name by which a type is shown, as in `impl Type`.
pub fn format_type(ty: &TypeShape) -> (s: String)
    ensures
        s@ == type_display(*ty),
{
    match ty {
        TypeShape::Path(p) => format_path(p),
        _ => "_".to_owned(),
    }
}

/// The name by which a path is shown, as in `impl path::Trait for T`.
pub fn format_path(path: &PathShape) -> (s: String)
    ensures
        s@ == path_display(*path),
{
    let n = path.segments.len();
    if n == 0 {
        "_".to_owned()
    } else {
        path.segments[n - 1].ident.clone()
    }
}

/// Whether a node of this kind is a decision point: a branch, a match arm,
/// a loop, a short-circuit operator or a `?`.
pub open spec fn is_decision_point(kind: NodeKind) -> bool {
    match kind {
        NodeKind::If | NodeKind::Arm(_) | NodeKind::While | NodeKind::ForLoop | NodeKind::Loop
        | NodeKind::Try => true,
        NodeKind::Binary { op, .. } => op is And || op is Or,
        _ => false,
    }
}

/// The decision points in a node and below it; a closure is a callable unit
/// of its own and adds none.
pub open spec fn node_decisions(n: SyntaxNode) -> nat
    decreases n, 1nat,
{
    if n.kind is Closure {
        0
    } else {
        (if is_decision_point(n.kind) { 1nat } else { 0nat }) + nodes_decisions(n.children@)
    }
}

/// The decision points in a sequence of nodes.
pub open spec fn nodes_decisions(ns: Seq<SyntaxNode>) -> nat
    decreases ns, 0nat,
{
    if ns.len() == 0 {
        0
    } else {
        nodes_decisions(ns.drop_last()) + node_decisions(ns.last())
    }
}

fn count_decisions(ns: &Vec<SyntaxNode>, acc: u32) -> (total: u32)
    requires
        acc + nodes_decisions(ns@) <= u32::MAX,
    ensures
        total == acc + nodes_decisions(ns@),
    decreases ns@, 0nat,
{
    let mut total = acc;
    let mut i: usize = 0;
    while i < ns.len()
        invariant
            i <= ns.len(),
            total == acc + nodes_decisions(ns@.take(i as int)),
            acc + nodes_decisions(ns@) <= u32::MAX,
        decreases ns.len() - i,
    {
        proof {
            assert(ns@.take(i + 1).drop_last() =~= ns@.take(i as int));
            lemma_prefix_decisions(ns@, i as int + 1);
            assert(ns@.take(i + 1).last() == ns@[i as int]);
            assert(nodes_decisions(ns@.take(i + 1)) == nodes_decisions(ns@.take(i as int))
                + node_decisions(ns@[i as int]));
        }
        let n = &ns[i];
        if !matches!(n.kind, NodeKind::Closure) {
            if is_decision(&n.kind) {
                total = total + 1;
            }
            total = count_decisions(&n.children, total);
        }
        i = i + 1;
    }
    proof {
        assert(ns@.take(ns@.len() as int) =~= ns@);
    }
    total
}

proof fn lemma_prefix_decisions(ns: Seq<SyntaxNode>, k: int)
    requires
        0 <= k <= ns.len(),
    ensures
        nodes_decisions(ns.take(k)) <= nodes_decisions(ns),
    decreases ns.len() - k,
{
    if k < ns.len() {
        lemma_prefix_decisions(ns, k + 1);
        assert(ns.take(k + 1).drop_last() =~= ns.take(k));
    } else {
        assert(ns.take(k) =~= ns);
    }
}

fn is_decision(kind: &NodeKind) -> (b: bool)
    ensures
        b == is_decision_point(*kind),
{
    match kind {
        NodeKind::If | NodeKind::Arm(_) | NodeKind::While | NodeKind::ForLoop | NodeKind::Loop
        | NodeKind::Try => true,
        NodeKind::Binary { op, .. } => match op {
            BinOpKind::And | BinOpKind::Or => true,
            _ => false,
        },
        _ => false,
    }
}

fn checked_decisions(ns: &Vec<SyntaxNode>, acc: u32) -> (r: Option<u32>)
    ensures
        acc + nodes_decisions(ns@) <= u32::MAX ==> r == Some((acc + nodes_decisions(ns@)) as u32),
        acc + nodes_decisions(ns@) > u32::MAX ==> r is None,
    decreases ns@, 0nat,
{
    let mut total = acc;
    let mut i: usize = 0;
    while i < ns.len()
        invariant
            i <= ns.len(),
            total == acc + nodes_decisions(ns@.take(i as int)),
        decreases ns.len() - i,
    {
        proof {
            assert(ns@.take(i + 1).drop_last() =~= ns@.take(i as int));
            assert(ns@.take(i + 1).last() == ns@[i as int]);
            assert(nodes_decisions(ns@.take(i + 1)) == nodes_decisions(ns@.take(i as int))
                + node_decisions(ns@[i as int]));
            lemma_prefix_decisions(ns@, i as int + 1);
        }
        let n = &ns[i];
        if !matches!(n.kind, NodeKind::Closure) {
            if is_decision(&n.kind) {
                if total == u32::MAX {
                    return None;
                }
                total = total + 1;
            }
            match checked_decisions(&n.children, total) {
                Some(t) => {
                    total = t;
                },
                None => {
                    return None;
                },
            }
        }
        i = i + 1;
    }
    proof {
        assert(ns@.take(ns@.len() as int) =~= ns@);
    }
    Some(total)
}

/// Whether every function of the file has a complexity that fits in a
/// `u32`: the condition under which `analyze_complexity` can run.
pub fn fits_complexity_counts(items: &Vec<SyntaxNode>) -> (b: bool)
    ensures
        b == complexities_fit(items@),
{
    let sites = visit_functions(items);
    let ghost visits = nodes_visits(items@, None);
    let mut i: usize = 0;
    while i < sites.len()
        invariant
            i <= sites.len(),
            sites_view(sites@) == visits,
            visits == nodes_visits(items@, None),
            forall|k: int| 0 <= k < i ==> fn_complexity(#[trigger] visits[k]) <= u32::MAX,
        decreases sites.len() - i,
    {
        let site = &sites[i];
        assert(sites_view(sites@)[i as int] == sites@[i as int]@);
        if checked_decisions(&site.node.children, 1).is_none() {
            assert(fn_complexity(visits[i as int]) > u32::MAX);
            return false;
        }
        i = i + 1;
    }
    true
}

/// A line number as a `u32`, `u32::MAX` when it does not fit.
pub open spec fn clamp_line(line: usize) -> u32 {
    if line <= u32::MAX { line as u32 } else { u32::MAX }
}

/// A line number as a `u32`, `u32::MAX` when it does not fit.
pub fn line_u32(line: usize) -> (l: u32)
    ensures
        l == clamp_line(line),
{
    if line <= u32::MAX as usize {
        line as u32
    } else {
        u32::MAX
    }
}

/// The cyclomatic complexity of a function: one, plus one for each decision
/// point in its body.
pub open spec fn fn_complexity(v: FnVisit) -> nat {
    1 + nodes_decisions(v.node.children@)
}

/// The first line of a function: the line on which its name starts.
pub open spec fn fn_start_line(v: FnVisit) -> u32 {
    clamp_line(v.decl.name_start_line)
}

/// The last line of a function: the later of the line on which its name
/// ends and the line of its body's closing brace.
pub open spec fn fn_end_line(v: FnVisit) -> u32 {
    let a = clamp_line(v.decl.name_end_line);
    let b = clamp_line(v.decl.body_end_line);
    if a >= b { a } else { b }
}

/// Whether every function of the file has a complexity that fits in a `u32`.
pub open spec fn complexities_fit(items: Seq<SyntaxNode>) -> bool {
    forall|i: int| 0 <= i < nodes_visits(items, None).len()
        ==> fn_complexity(#[trigger] nodes_visits(items, None)[i]) <= u32::MAX
}

/// The complexity measured for one function.
pub struct FunctionComplexity {
    pub file: String,
    pub qualified_name: String,
    pub start_line: u32,
    pub end_line: u32,
    pub complexity: u32,
}

/// Whether `r` is the record of the function `v` of the file `file`.
pub open spec fn complexity_record_of(r: FunctionComplexity, file: Seq<char>, v: FnVisit) -> bool {
    &&& r.file@ == file
    &&& r.qualified_name@ == v.qualified_name
    &&& r.start_line == fn_start_line(v)
    &&& r.end_line == fn_end_line(v)
    &&& r.complexity == fn_complexity(v)
}

/// The complexity of each function of a file, in the order of the walk.
pub fn analyze_complexity(file: &str, items: &Vec<SyntaxNode>) -> (res: Vec<FunctionComplexity>)
    requires
        complexities_fit(items@),
    ensures
        res@.len() == nodes_visits(items@, None).len(),
        forall|i: int| 0 <= i < res@.len()
            ==> complexity_record_of(#[trigger] res@[i], file@, nodes_visits(items@, None)[i]),
{
    let sites = visit_functions(items);
    let ghost visits = nodes_visits(items@, None);
    let mut res: Vec<FunctionComplexity> = Vec::new();
    let mut i: usize = 0;
    while i < sites.len()
        invariant
            i <= sites.len(),
            sites_view(sites@) == visits,
            visits == nodes_visits(items@, None),
            complexities_fit(items@),
            res@.len() == i,
            forall|k: int| 0 <= k < i ==> complexity_record_of(#[trigger] res@[k], file@, visits[k]),
        decreases sites.len() - i,
    {
        let site = &sites[i];
        proof {
            assert(sites_view(sites@)[i as int] == sites@[i as int]@);
            assert(fn_complexity(visits[i as int]) <= u32::MAX);
        }
        let complexity = count_decisions(&site.node.children, 1);
        let start_line = line_u32(site.decl.name_start_line);
        let name_end = line_u32(site.decl.name_end_line);
        let body_end = line_u32(site.decl.body_end_line);
        let end_line = if name_end >= body_end { name_end } else { body_end };
        res.push(FunctionComplexity {
            file: file.to_owned(),
            qualified_name: site.qualified_name.clone(),
            start_line,
            end_line,
            complexity,
        });
        i = i + 1;
    }
    res
}

// ---------------------------------------------------------------------------
// Source directories
// ---------------------------------------------------------------------------

/// One target of a package in `cargo metadata`: its kinds and the path of
/// its root source file.
pub struct MetaTarget {
    pub kind: Vec<String>,
    pub src_path: String,
}

/// Whether the target is a library or a binary.
pub open spec fn is_code_target(t: MetaTarget) -> bool {
    exists|k: int| 0 <= k < t.kind@.len() && (#[trigger] t.kind@[k]@ == "lib"@ || t.kind@[k]@ == "bin"@)
}

/// The directory that holds a path, as `Path::parent` gives it.
pub uninterp spec fn parent_path(path: Seq<char>) -> Option<Seq<char>>;

/// `Path::new(path).parent()`, shown with `display`: its documentation says
/// that it returns the path without its final component, and `None` when the
/// path ends in a root or prefix or is empty. The contract names that result
/// and claims nothing more.
#[verifier::external_body]
fn parent_of(path: &str) -> (r: Option<String>)
    ensures
        opt_text(r) == parent_path(path@),
{
    std::path::Path::new(path).parent().map(|d| d.display().to_string())
}

/// The directories of the library and binary targets, in order, with
/// repeats.
pub open spec fn candidate_dirs(targets: Seq<MetaTarget>) -> Seq<Seq<char>>
    decreases targets.len(),
{
    if targets.len() == 0 {
        Seq::empty()
    } else {
        let rest = candidate_dirs(targets.drop_last());
        let t = targets.last();
        if is_code_target(t) {
            match parent_path(t.src_path@) {
                Some(d) => rest.push(d),
                None => rest,
            }
        } else {
            rest
        }
    }
}

fn code_target(t: &MetaTarget) -> (b: bool)
    ensures
        b == is_code_target(*t),
{
    for k in 0..t.kind.len()
        invariant
            forall|j: int| 0 <= j < k ==> !(#[trigger] t.kind@[j]@ == "lib"@ || t.kind@[j]@ == "bin"@),
    {
        if eq_str(t.kind[k].as_str(), "lib") || eq_str(t.kind[k].as_str(), "bin") {
            return true;
        }
    }
    false
}

/// The directories that hold the root files of the library and binary
/// targets, in the order of the targets.
pub fn source_dir_candidates(targets: &Vec<MetaTarget>) -> (dirs: Vec<String>)
    ensures
        strings_view(dirs@) == candidate_dirs(targets@),
{
    let mut dirs: Vec<String> = Vec::new();
    for k in 0..targets.len()
        invariant
            strings_view(dirs@) == candidate_dirs(targets@.take(k as int)),
    {
        let t = &targets[k];
        assert(targets@.take(k + 1).drop_last() =~= targets@.take(k as int));
        assert(targets@.take(k + 1).last() == *t);
        let ghost before = dirs@;
        if code_target(t) {
            if let Some(d) = parent_of(t.src_path.as_str()) {
                dirs.push(d);
                assert(strings_view(dirs@) =~= strings_view(before).push(opt_text(Some(d)).unwrap()));
            }
        }
    }
    assert(targets@.take(targets@.len() as int) =~= targets@);
    dirs
}

/// Whether the list holds a path equal to `c`, component by component.
pub open spec fn holds_path(dirs: Seq<Seq<char>>, c: Seq<char>) -> bool {
    exists|m: int| 0 <= m < dirs.len() && #[trigger] same_path(dirs[m], c)
}

/// The candidates that exist, each once as a path, in the order of their
/// first appearance.
pub open spec fn existing_distinct(cands: Seq<Seq<char>>, exists: Seq<bool>) -> Seq<Seq<char>>
    decreases cands.len(),
{
    if cands.len() == 0 {
        Seq::empty()
    } else {
        let rest = existing_distinct(cands.drop_last(), exists.take(cands.len() - 1));
        let c = cands.last();
        if exists[cands.len() - 1] && !holds_path(rest, c) {
            rest.push(c)
        } else {
            rest
        }
    }
}

/// The source directories to analyse: the existing candidates without
/// repeats, or the fallback when none is left.
pub open spec fn source_dirs_spec(cands: Seq<Seq<char>>, exists: Seq<bool>, fallback: Seq<char>) -> Seq<Seq<char>> {
    let d = existing_distinct(cands, exists);
    if d.len() == 0 { seq![fallback] } else { d }
}

/// The source directories to analyse, given whether each candidate exists.
pub fn choose_source_dirs(candidates: &Vec<String>, exists: &Vec<bool>, fallback: &str) -> (dirs: Vec<String>)
    requires
        exists@.len() == candidates@.len(),
    ensures
        strings_view(dirs@) == source_dirs_spec(strings_view(candidates@), exists@, fallback@),
{
    let ghost cs = strings_view(candidates@);
    let mut dirs: Vec<String> = Vec::new();
    for k in 0..candidates.len()
        invariant
            exists@.len() == candidates@.len(),
            cs == strings_view(candidates@),
            strings_view(dirs@) == existing_distinct(cs.take(k as int), exists@.take(k as int)),
    {
        let c = &candidates[k];
        assert(cs.take(k + 1).drop_last() =~= cs.take(k as int));
        assert(exists@.take(k + 1).take(k as int) =~= exists@.take(k as int));
        assert(cs.take(k + 1).last() == c@);
        let ghost before = strings_view(dirs@);
        let mut seen = false;
        for j in 0..dirs.len()
            invariant
                before == strings_view(dirs@),
                seen == (exists|m: int| 0 <= m < j && #[trigger] same_path(before[m], c@)),
        {
            if paths_equal(dirs[j].as_str(), c.as_str()) {
                seen = true;
            }
            assert(before[j as int] == dirs@[j as int]@);
        }
        assert(seen == holds_path(before, c@));
        if exists[k] && !seen {
            dirs.push(c.clone());
            assert(strings_view(dirs@) =~= before.push(c@));
        }
    }
    assert(cs.take(cs.len() as int) =~= cs);
    assert(exists@.take(exists@.len() as int) =~= exists@);
    if dirs.len() == 0 {
        let mut v: Vec<String> = Vec::new();
        v.push(fallback.to_owned());
        assert(strings_view(v@) =~= seq![fallback@]);
        v
    } else {
        dirs
    }
}

/// Every function's complexity is at least one: a function without decision
/// points has complexity one, and each decision point adds one.
pub proof fn lemma_complexity_at_least_one(v: FnVisit)
    ensures
        fn_complexity(v) >= 1,
        fn_complexity(v) == 1 <==> nodes_decisions(v.node.children@) == 0,
{
}

/// What the search for source files does with one directory entry.
#[derive(Clone, Copy, Debug, PartialEq, Eq, Structural)]
pub enum EntryAction {
    /// A directory to search.
    Descend,
    /// A Rust source file to analyse.
    Collect,
    /// Anything else: a `target` or `.git` directory, or a file that is not
    /// a `.rs` file.
    Skip,
}

/// The choice for an entry, given whether it is a directory, its file name,
/// and its extension.
pub open spec fn entry_action_spec(is_dir: bool, name: Seq<char>, extension: Option<Seq<char>>) -> EntryAction {
    if is_dir {
        if name == "target"@ || name == ".git"@ { EntryAction::Skip } else { EntryAction::Descend }
    } else if extension == Some("rs"@) {
        EntryAction::Collect
    } else {
        EntryAction::Skip
    }
}

/// What the search for source files does with a directory entry.
pub fn entry_action(is_dir: bool, name: &str, extension: Option<&str>) -> (a: EntryAction)
    ensures
        a == entry_action_spec(is_dir, name@, match extension {
            Some(e) => Some(e@),
            None => None,
        }),
{
    if is_dir {
        if eq_str(name, "target") || eq_str(name, ".git") {
            EntryAction::Skip
        } else {
            EntryAction::Descend
        }
    } else {
        match extension {
            Some(e) => if eq_str(e, "rs") { EntryAction::Collect } else { EntryAction::Skip },
            None => EntryAction::Skip,
        }
    }
}

/// Whether a node kind is a branch, a match arm, a loop, a `?`, or a
/// short-circuit `&&` or `||`.
pub open spec fn counts_as_decision(kind: NodeKind) -> bool {
    ||| kind is If
    ||| kind is Arm
    ||| kind is While
    ||| kind is ForLoop
    ||| kind is Loop
    ||| kind is Try
    ||| (kind matches NodeKind::Binary { op, .. } && (op is And || op is Or))
}

proof fn lemma_nodes_decisions_at_least_each(ns: Seq<SyntaxNode>, k: int)
    requires
        0 <= k < ns.len(),
    ensures
        nodes_decisions(ns) >= node_decisions(ns[k]),
    decreases ns.len(),
{
    if k < ns.len() - 1 {
        lemma_nodes_decisions_at_least_each(ns.drop_last(), k);
        assert(ns.drop_last()[k] == ns[k]);
    }
}

/// Decisions compose: a closure adds none; any other node adds one when it
/// is a branch, a match arm, a loop, a `?`, `&&` or `||`, plus every decision
/// of what it holds, so a decision nested inside another one (an `if` inside
/// a match arm, say) still counts, and a node counts at least as many
/// decisions as each node it holds.
pub proof fn lemma_decisions_compose(n: SyntaxNode)
    ensures
        n.kind is Closure ==> node_decisions(n) == 0,
        !(n.kind is Closure) ==> node_decisions(n)
            == (if counts_as_decision(n.kind) { 1int } else { 0int }) + nodes_decisions(n.children@),
        !(n.kind is Closure) ==> forall|k: int| 0 <= k < n.children@.len()
            ==> node_decisions(n) >= (if counts_as_decision(n.kind) { 1int } else { 0int })
                + node_decisions(#[trigger] n.children@[k]),
{
    if !(n.kind is Closure) {
        assert(is_decision_point(n.kind) == counts_as_decision(n.kind));
        assert forall|k: int| 0 <= k < n.children@.len() implies node_decisions(n)
            >= (if counts_as_decision(n.kind) { 1int } else { 0int }) + node_decisions(#[trigger] n.children@[k]) by {
            lemma_nodes_decisions_at_least_each(n.children@, k);
        }
    }
}

/// The decisions of a sequence of nodes are the sum of those of each part.
pub proof fn lemma_nodes_decisions_concat(a: Seq<SyntaxNode>, b: Seq<SyntaxNode>)
    ensures
        nodes_decisions(a + b) == nodes_decisions(a) + nodes_decisions(b),
    decreases b.len(),
{
    if b.len() == 0 {
        assert(a + b =~= a);
    } else {
        lemma_nodes_decisions_concat(a, b.drop_last());
        assert((a + b).drop_last() =~= a + b.drop_last());
        assert((a + b).last() == b.last());
    }
}

} // verus!
