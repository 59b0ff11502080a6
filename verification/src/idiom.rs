//! Idiom checks: patterns that make a function's change risk higher than its
//! complexity and coverage alone say, and the fingerprints by which
//! duplicated functions are found.

use vstd::prelude::*;
use crate::complexity::{path_is_ident, is_ident};
use crate::syntax::{
    BinOpKind, BoundShape, FnInput, GenericArg, LitKind, NodeKind, OperandShape, PatShape,
    PathArgs, PathShape, SigShape, SyntaxNode, TypeShape,
};
use crate::text::{eq_str, push_char, strings_view};
use crate::complexity::{fn_start_line, fn_end_line, line_u32};
use crate::visitor::{nodes_visits, sites_view, visit_functions, FnVisit, FunctionSite};
use std::hash::{DefaultHasher, Hasher};
use vstd::std_specs::hash::DefaultHasherAdditionalSpecFns;
use vstd::utf8::encode_utf8;

verus! {

/// A non-idiomatic pattern found in a function.
#[derive(Debug, Clone, Copy, PartialEq, Eq, Structural)]
pub enum IdiomCheck {
    FreeMethodCandidate,
    MatchOnLiteral,
    PrimitiveCastInComparison,
    Unwrap,
    ExplicitDrop,
    EmptyVecMacro,
    FromIterInsteadOfCollect,
    BoxDynError,
}

/// The demerits a pattern adds: two for the high-weight patterns (a free
/// function that should be a method, a match on literals, a primitive cast
/// in a comparison or arithmetic), one for the others.
pub open spec fn check_weight(c: IdiomCheck) -> u32 {
    match c {
        IdiomCheck::FreeMethodCandidate | IdiomCheck::MatchOnLiteral
        | IdiomCheck::PrimitiveCastInComparison => 2,
        _ => 1,
    }
}

impl IdiomCheck {
    /// The demerits this pattern adds.
    pub fn weight(self) -> (w: u32)
        ensures
            w == check_weight(self),
    {
        match self {
            IdiomCheck::FreeMethodCandidate | IdiomCheck::MatchOnLiteral
            | IdiomCheck::PrimitiveCastInComparison => 2,
            _ => 1,
        }
    }

    /// The advice shown for this pattern.
    pub fn suggestion(self) -> (s: &'static str)
        ensures
            s@ == match self {
                IdiomCheck::FreeMethodCandidate => "first parameter is &Struct — consider making this a method"@,
                IdiomCheck::MatchOnLiteral => "match on literal values — consider using an enum instead"@,
                IdiomCheck::PrimitiveCastInComparison => "primitive `as` cast in comparison/arithmetic — use From/Into traits"@,
                IdiomCheck::Unwrap => ".unwrap() call — use `?` or `.expect(\"reason\")`"@,
                IdiomCheck::ExplicitDrop => "explicit drop() call — use a scoped block instead"@,
                IdiomCheck::EmptyVecMacro => "vec![] for empty vector — use Vec::new()"@,
                IdiomCheck::FromIterInsteadOfCollect => "FromIterator::from_iter() — use .collect() instead"@,
                IdiomCheck::BoxDynError => "Box<dyn Error> in return type — use a concrete error type"@,
            },
    {
        match self {
            IdiomCheck::FreeMethodCandidate => "first parameter is &Struct — consider making this a method",
            IdiomCheck::MatchOnLiteral => "match on literal values — consider using an enum instead",
            IdiomCheck::PrimitiveCastInComparison => "primitive `as` cast in comparison/arithmetic — use From/Into traits",
            IdiomCheck::Unwrap => ".unwrap() call — use `?` or `.expect(\"reason\")`",
            IdiomCheck::ExplicitDrop => "explicit drop() call — use a scoped block instead",
            IdiomCheck::EmptyVecMacro => "vec![] for empty vector — use Vec::new()",
            IdiomCheck::FromIterInsteadOfCollect => "FromIterator::from_iter() — use .collect() instead",
            IdiomCheck::BoxDynError => "Box<dyn Error> in return type — use a concrete error type",
        }
    }
}

// --- patterns in a function body ---

/// A literal pattern of an integer, a string or a character, or an
/// alternation with such a literal among its cases.
pub open spec fn is_literal_pat(p: PatShape) -> bool
    decreases p, 1nat,
{
    match p {
        PatShape::Lit(k) => k is Int || k is Str || k is Char,
        PatShape::Or(cases) => any_literal_pat(cases@),
        PatShape::Other => false,
    }
}

/// Some pattern of the sequence is a literal pattern.
pub open spec fn any_literal_pat(ps: Seq<PatShape>) -> bool
    decreases ps, 0nat,
{
    if ps.len() == 0 {
        false
    } else {
        any_literal_pat(ps.drop_last()) || is_literal_pat(ps.last())
    }
}

proof fn lemma_any_literal_pat(ps: Seq<PatShape>)
    ensures
        any_literal_pat(ps) <==> exists|i: int| 0 <= i < ps.len() && #[trigger] is_literal_pat(ps[i]),
    decreases ps.len(),
{
    if ps.len() > 0 {
        lemma_any_literal_pat(ps.drop_last());
        if is_literal_pat(ps.last()) {
            assert(is_literal_pat(ps[ps.len() - 1]));
        }
        if any_literal_pat(ps.drop_last()) {
            let i = choose|i: int| 0 <= i < ps.drop_last().len() && #[trigger] is_literal_pat(ps.drop_last()[i]);
            assert(ps[i] == ps.drop_last()[i]);
        }
        if exists|i: int| 0 <= i < ps.len() && #[trigger] is_literal_pat(ps[i]) {
            let i = choose|i: int| 0 <= i < ps.len() && #[trigger] is_literal_pat(ps[i]);
            if i < ps.len() - 1 {
                assert(ps.drop_last()[i] == ps[i]);
            }
        }
    }
}

fn literal_pattern(p: &PatShape) -> (b: bool)
    ensures
        b == is_literal_pat(*p),
    decreases *p,
{
    match p {
        PatShape::Lit(k) => match k {
            LitKind::Int | LitKind::Str | LitKind::Char => true,
            LitKind::Other => false,
        },
        PatShape::Or(cases) => {
            let mut i: usize = 0;
            while i < cases.len()
                invariant
                    i <= cases.len(),
                    *p == PatShape::Or(*cases),
                    forall|k: int| 0 <= k < i ==> !is_literal_pat(#[trigger] cases@[k]),
                decreases cases.len() - i,
            {
                proof {
                    assert(decreases_to!(*p => (*p)->Or_0));
                    assert((*p)->Or_0 == *cases);
                    assert(decreases_to!(*cases => cases@));
                    assert(decreases_to!(cases@ => cases@[i as int]));
                    assert(decreases_to!(*p => cases@[i as int]));
                }
                if literal_pattern(&cases[i]) {
                    assert(is_literal_pat(cases@[i as int]));
                    proof { lemma_any_literal_pat(cases@); }
                    return true;
                }
                i = i + 1;
            }
            proof { lemma_any_literal_pat(cases@); }
            false
        },
        PatShape::Other => false,
    }
}

/// The number of arms among the nodes whose pattern is a literal one.
pub open spec fn literal_arm_count(ns: Seq<SyntaxNode>) -> nat
    decreases ns.len(),
{
    if ns.len() == 0 {
        0
    } else {
        literal_arm_count(ns.drop_last()) + match ns.last().kind {
            NodeKind::Arm(p) => if is_literal_pat(p) { 1nat } else { 0nat },
            _ => 0nat,
        }
    }
}

fn count_literal_arms(ns: &Vec<SyntaxNode>) -> (c: usize)
    ensures
        c == literal_arm_count(ns@),
{
    let mut c: usize = 0;
    let mut i: usize = 0;
    while i < ns.len()
        invariant
            i <= ns.len(),
            c == literal_arm_count(ns@.take(i as int)),
            c <= i,
        decreases ns.len() - i,
    {
        assert(ns@.take(i + 1).drop_last() =~= ns@.take(i as int));
        assert(ns@.take(i + 1).last() == ns@[i as int]);
        match &ns[i].kind {
            NodeKind::Arm(p) => {
                if literal_pattern(p) {
                    c = c + 1;
                }
            },
            _ => {},
        }
        i = i + 1;
    }
    assert(ns@.take(ns@.len() as int) =~= ns@);
    c
}

/// Comparison and arithmetic operators.
pub open spec fn is_cmp_or_arith(op: BinOpKind) -> bool {
    match op {
        BinOpKind::Lt | BinOpKind::Le | BinOpKind::Gt | BinOpKind::Ge | BinOpKind::Eq
        | BinOpKind::Ne | BinOpKind::Add | BinOpKind::Sub | BinOpKind::Mul | BinOpKind::Div
        | BinOpKind::Rem => true,
        _ => false,
    }
}

fn cmp_or_arith(op: &BinOpKind) -> (b: bool)
    ensures
        b == is_cmp_or_arith(*op),
{
    match op {
        BinOpKind::Lt | BinOpKind::Le | BinOpKind::Gt | BinOpKind::Ge | BinOpKind::Eq
        | BinOpKind::Ne | BinOpKind::Add | BinOpKind::Sub | BinOpKind::Mul | BinOpKind::Div
        | BinOpKind::Rem => true,
        _ => false,
    }
}

/// The names of Rust's numeric primitive types.
pub open spec fn is_numeric_name(s: Seq<char>) -> bool {
    ||| s == "i8"@ ||| s == "i16"@ ||| s == "i32"@ ||| s == "i64"@ ||| s == "i128"@
    ||| s == "isize"@ ||| s == "u8"@ ||| s == "u16"@ ||| s == "u32"@ ||| s == "u64"@
    ||| s == "u128"@ ||| s == "usize"@ ||| s == "f32"@ ||| s == "f64"@
}

fn numeric_name(s: &str) -> (b: bool)
    ensures
        b == is_numeric_name(s@),
{
    eq_str(s, "i8") || eq_str(s, "i16") || eq_str(s, "i32") || eq_str(s, "i64")
        || eq_str(s, "i128") || eq_str(s, "isize") || eq_str(s, "u8") || eq_str(s, "u16")
        || eq_str(s, "u32") || eq_str(s, "u64") || eq_str(s, "u128") || eq_str(s, "usize")
        || eq_str(s, "f32") || eq_str(s, "f64")
}

/// A path type whose last segment names a numeric primitive.
pub open spec fn is_numeric_primitive(t: TypeShape) -> bool {
    match t {
        TypeShape::Path(p) => p.segments@.len() > 0 && is_numeric_name(p.segments@.last().ident@),
        _ => false,
    }
}

fn numeric_primitive(t: &TypeShape) -> (b: bool)
    ensures
        b == is_numeric_primitive(*t),
{
    match t {
        TypeShape::Path(p) => {
            let n = p.segments.len();
            n > 0 && numeric_name(p.segments[n - 1].ident.as_str())
        },
        _ => false,
    }
}

/// An operand that is a cast to a numeric primitive.
pub open spec fn is_numeric_cast(o: OperandShape) -> bool {
    match o {
        OperandShape::Cast(t) => is_numeric_primitive(t),
        OperandShape::Other => false,
    }
}

fn numeric_cast(o: &OperandShape) -> (b: bool)
    ensures
        b == is_numeric_cast(*o),
{
    match o {
        OperandShape::Cast(t) => numeric_primitive(t),
        OperandShape::Other => false,
    }
}

/// Whether the callee is a path whose last segment is `name`.
pub open spec fn calls_name(callee: Option<PathShape>, name: Seq<char>) -> bool {
    match callee {
        Some(p) => p.segments@.len() > 0 && p.segments@.last().ident@ == name,
        None => false,
    }
}

fn call_to_name(callee: &Option<PathShape>, name: &str) -> (b: bool)
    ensures
        b == calls_name(*callee, name@),
{
    match callee {
        Some(p) => {
            let n = p.segments.len();
            n > 0 && eq_str(p.segments[n - 1].ident.as_str(), name)
        },
        None => false,
    }
}

/// The patterns that one node shows by itself, in the order they are reported.
pub open spec fn own_checks(n: SyntaxNode) -> Seq<IdiomCheck> {
    match n.kind {
        NodeKind::Match => if literal_arm_count(n.children@) >= 2 {
            seq![IdiomCheck::MatchOnLiteral]
        } else {
            Seq::empty()
        },
        NodeKind::Binary { op, left, right } => if is_cmp_or_arith(op) && (is_numeric_cast(left)
            || is_numeric_cast(right)) {
            seq![IdiomCheck::PrimitiveCastInComparison]
        } else {
            Seq::empty()
        },
        NodeKind::MethodCall { method } =>
            (if method@ == "unwrap"@ { seq![IdiomCheck::Unwrap] } else { Seq::empty() })
            + (if method@ == "from_iter"@ { seq![IdiomCheck::FromIterInsteadOfCollect] } else { Seq::empty() }),
        NodeKind::Call { callee } =>
            (if calls_name(callee, "drop"@) { seq![IdiomCheck::ExplicitDrop] } else { Seq::empty() })
            + (if calls_name(callee, "from_iter"@) { seq![IdiomCheck::FromIterInsteadOfCollect] } else { Seq::empty() }),
        NodeKind::Macro { path, tokens_empty } => if path_is_ident(path, "vec"@) && tokens_empty {
            seq![IdiomCheck::EmptyVecMacro]
        } else {
            Seq::empty()
        },
        _ => Seq::empty(),
    }
}

/// The patterns in a node and below it, in the order of the walk; a closure
/// is a callable unit of its own and shows none.
pub open spec fn node_checks(n: SyntaxNode) -> Seq<IdiomCheck>
    decreases n, 1nat,
{
    if n.kind is Closure {
        Seq::empty()
    } else {
        own_checks(n) + nodes_checks(n.children@)
    }
}

/// The patterns in a sequence of nodes.
pub open spec fn nodes_checks(ns: Seq<SyntaxNode>) -> Seq<IdiomCheck>
    decreases ns, 0nat,
{
    if ns.len() == 0 {
        Seq::empty()
    } else {
        nodes_checks(ns.drop_last()) + node_checks(ns.last())
    }
}

fn push_own_checks(n: &SyntaxNode, out: &mut Vec<IdiomCheck>)
    ensures
        final(out)@ == old(out)@ + own_checks(*n),
{
    let ghost before = out@;
    match &n.kind {
        NodeKind::Match => {
            if count_literal_arms(&n.children) >= 2 {
                out.push(IdiomCheck::MatchOnLiteral);
            }
        },
        NodeKind::Binary { op, left, right } => {
            if cmp_or_arith(op) && (numeric_cast(left) || numeric_cast(right)) {
                out.push(IdiomCheck::PrimitiveCastInComparison);
            }
        },
        NodeKind::MethodCall { method } => {
            if eq_str(method.as_str(), "unwrap") {
                out.push(IdiomCheck::Unwrap);
            }
            if eq_str(method.as_str(), "from_iter") {
                out.push(IdiomCheck::FromIterInsteadOfCollect);
            }
        },
        NodeKind::Call { callee } => {
            if call_to_name(callee, "drop") {
                out.push(IdiomCheck::ExplicitDrop);
            }
            if call_to_name(callee, "from_iter") {
                out.push(IdiomCheck::FromIterInsteadOfCollect);
            }
        },
        NodeKind::Macro { path, tokens_empty } => {
            if is_ident(path, "vec") && *tokens_empty {
                out.push(IdiomCheck::EmptyVecMacro);
            }
        },
        _ => {},
    }
    assert(out@ =~= before + own_checks(*n));
}

fn collect_checks(ns: &Vec<SyntaxNode>, out: &mut Vec<IdiomCheck>)
    ensures
        final(out)@ == old(out)@ + nodes_checks(ns@),
    decreases ns@, 0nat,
{
    let ghost before = out@;
    let mut i: usize = 0;
    assert(before =~= before + nodes_checks(ns@.take(0)));
    while i < ns.len()
        invariant
            i <= ns.len(),
            out@ == before + nodes_checks(ns@.take(i as int)),
        decreases ns.len() - i,
    {
        proof {
            assert(ns@.take(i + 1).drop_last() =~= ns@.take(i as int));
            assert(ns@.take(i + 1).last() == ns@[i as int]);
            assert(nodes_tokens(ns@.take(i + 1)) == nodes_tokens(ns@.take(i as int)) + node_tokens(ns@[i as int]));
        }
        let n = &ns[i];
        let ghost mid = out@;
        if !matches!(n.kind, NodeKind::Closure) {
            push_own_checks(n, out);
            collect_checks(&n.children, out);
        }
        assert(out@ =~= mid + node_checks(ns@[i as int]));
        assert(out@ =~= before + nodes_checks(ns@.take(i + 1)));
        i = i + 1;
    }
    assert(ns@.take(ns@.len() as int) =~= ns@);
}

// --- patterns in a signature ---

/// The last segment's identifier of a path, when it has segments.
pub open spec fn last_ident(p: PathShape) -> Option<Seq<char>> {
    if p.segments@.len() == 0 {
        None
    } else {
        Some(p.segments@.last().ident@)
    }
}

fn last_ident_exec(p: &PathShape) -> (r: Option<&String>)
    ensures
        opt_str_view(r) == last_ident(*p),
{
    let n = p.segments.len();
    if n == 0 {
        None
    } else {
        Some(&p.segments[n - 1].ident)
    }
}

pub open spec fn opt_str_view(o: Option<&String>) -> Option<Seq<char>> {
    match o {
        Some(s) => Some(s@),
        None => None,
    }
}

/// The name of the type behind a reference to a path type, as `Foo` in `&Foo`.
pub open spec fn ref_type_name(t: TypeShape) -> Option<Seq<char>> {
    match t {
        TypeShape::Reference { elem, .. } => match *elem {
            TypeShape::Path(p) => last_ident(p),
            _ => None,
        },
        _ => None,
    }
}

fn extract_ref_type_name(t: &TypeShape) -> (r: Option<&String>)
    ensures
        opt_str_view(r) == ref_type_name(*t),
{
    match t {
        TypeShape::Reference { elem, .. } => match &**elem {
            TypeShape::Path(p) => last_ident_exec(p),
            _ => None,
        },
        _ => None,
    }
}

/// Whether the node declares a struct named `name`.
pub open spec fn is_struct_named(n: SyntaxNode, name: Seq<char>) -> bool {
    match n.kind {
        NodeKind::ItemStruct(s) => s@ == name,
        _ => false,
    }
}

/// Whether a struct named `name` is declared at the top level of the file.
pub open spec fn declares_struct(items: Seq<SyntaxNode>, name: Seq<char>) -> bool {
    exists|i: int| 0 <= i < items.len() && is_struct_named(#[trigger] items[i], name)
}

/// Whether the list holds `name`.
pub open spec fn holds_name(names: Seq<String>, name: Seq<char>) -> bool {
    exists|i: int| 0 <= i < names.len() && #[trigger] names[i]@ == name
}

/// The names of the structs declared at the top level of a file.
fn collect_struct_names(items: &Vec<SyntaxNode>) -> (names: Vec<String>)
    ensures
        forall|name: Seq<char>| holds_name(names@, name) <==> declares_struct(items@, name),
{
    let mut names: Vec<String> = Vec::new();
    let mut i: usize = 0;
    while i < items.len()
        invariant
            i <= items.len(),
            forall|name: Seq<char>| holds_name(names@, name)
                <==> (exists|k: int| 0 <= k < i && is_struct_named(#[trigger] items@[k], name)),
        decreases items.len() - i,
    {
        let ghost old_names = names@;
        assert(forall|name: Seq<char>| holds_name(old_names, name)
            <==> (exists|k: int| 0 <= k < i && is_struct_named(#[trigger] items@[k], name)));
        match &items[i].kind {
            NodeKind::ItemStruct(s) => {
                names.push(s.clone());
                assert forall|name: Seq<char>| holds_name(names@, name)
                    <==> (exists|k: int| 0 <= k < i + 1 && is_struct_named(#[trigger] items@[k], name)) by {
                    if holds_name(names@, name) {
                        let j = choose|j: int| 0 <= j < names@.len() && #[trigger] names@[j]@ == name;
                        if j < old_names.len() {
                            assert(old_names[j] == names@[j]);
                            assert(holds_name(old_names, name));
                        } else {
                            assert(is_struct_named(items@[i as int], name));
                        }
                    }
                    if exists|k: int| 0 <= k < i + 1 && is_struct_named(#[trigger] items@[k], name) {
                        let k = choose|k: int| 0 <= k < i + 1 && is_struct_named(#[trigger] items@[k], name);
                        if k < i {
                            assert(holds_name(old_names, name));
                            let j = choose|j: int| 0 <= j < old_names.len() && #[trigger] old_names[j]@ == name;
                            assert(names@[j] == old_names[j]);
                        } else {
                            assert(names@[old_names.len() as int]@ == name);
                        }
                    }
                }
            },
            _ => {
                assert forall|name: Seq<char>| holds_name(names@, name)
                    <==> (exists|k: int| 0 <= k < i + 1 && is_struct_named(#[trigger] items@[k], name)) by {
                    if exists|k: int| 0 <= k < i + 1 && is_struct_named(#[trigger] items@[k], name) {
                        let k = choose|k: int| 0 <= k < i + 1 && is_struct_named(#[trigger] items@[k], name);
                        assert(k < i);
                    }
                }
            },
        }
        i = i + 1;
    }
    names
}

fn names_contain(names: &Vec<String>, name: &str) -> (b: bool)
    ensures
        b == holds_name(names@, name@),
{
    let mut i: usize = 0;
    while i < names.len()
        invariant
            i <= names.len(),
            forall|k: int| 0 <= k < i ==> #[trigger] names@[k]@ != name@,
        decreases names.len() - i,
    {
        if eq_str(names[i].as_str(), name) {
            return true;
        }
        i = i + 1;
    }
    false
}

/// A free function whose first parameter is a reference to a struct of the
/// same file: it reads like a method of that struct.
pub open spec fn is_free_method_candidate(sig: SigShape, items: Seq<SyntaxNode>) -> bool {
    sig.inputs@.len() > 0 && match sig.inputs@[0] {
        FnInput::Typed(t) => match ref_type_name(t) {
            Some(name) => declares_struct(items, name),
            None => false,
        },
        FnInput::Receiver { .. } => false,
    }
}

fn free_method_candidate(sig: &SigShape, names: &Vec<String>, Ghost(items): Ghost<Seq<SyntaxNode>>) -> (b: bool)
    requires
        forall|name: Seq<char>| holds_name(names@, name) <==> declares_struct(items, name),
    ensures
        b == is_free_method_candidate(*sig, items),
{
    if sig.inputs.len() == 0 {
        return false;
    }
    match &sig.inputs[0] {
        FnInput::Typed(t) => match extract_ref_type_name(t) {
            Some(name) => names_contain(names, name.as_str()),
            None => false,
        },
        FnInput::Receiver { .. } => false,
    }
}

/// A trait bound whose path ends in `Error`.
pub open spec fn is_error_bound(b: BoundShape) -> bool {
    match b {
        BoundShape::Trait(p) => last_ident(p) == Some("Error"@),
        BoundShape::Other => false,
    }
}

/// A type argument `dyn ... Error ...`.
pub open spec fn is_dyn_error_arg(a: GenericArg) -> bool {
    match a {
        GenericArg::Type(t) => match t {
            TypeShape::TraitObject(bounds) => any_error_bound(bounds@),
            _ => false,
        },
        GenericArg::Other => false,
    }
}

/// Some bound of the list ends in `Error`.
pub open spec fn any_error_bound(bs: Seq<BoundShape>) -> bool {
    exists|j: int| 0 <= j < bs.len() && is_error_bound(#[trigger] bs[j])
}

/// Whether a type is `Box<dyn Error>`, in any path and with any extra
/// bounds, or holds one among its type arguments at any depth.
pub open spec fn has_box_dyn_error_type(t: TypeShape) -> bool
    decreases t, 2nat,
{
    match t {
        TypeShape::Path(p) => p.segments@.len() > 0 && segment_has_box_dyn_error(p.segments@.last()),
        _ => false,
    }
}

pub open spec fn segment_has_box_dyn_error(seg: crate::syntax::PathSegment) -> bool
    decreases seg, 3nat,
{
    match seg.args {
        PathArgs::AngleBracketed(args) => {
            ||| seg.ident@ == "Box"@ && exists|j: int| 0 <= j < args@.len() && is_dyn_error_arg(#[trigger] args@[j])
            ||| args_have_box_dyn_error(args@)
        },
        _ => false,
    }
}

/// Some type argument holds `Box<dyn Error>`.
pub open spec fn args_have_box_dyn_error(args: Seq<GenericArg>) -> bool
    decreases args, 1nat,
{
    if args.len() == 0 {
        false
    } else {
        args_have_box_dyn_error(args.drop_last()) || match args.last() {
            GenericArg::Type(t) => has_box_dyn_error_type(t),
            GenericArg::Other => false,
        }
    }
}

/// A return type that holds `Box<dyn Error>`.
pub open spec fn returns_box_dyn_error(sig: SigShape) -> bool {
    match sig.output {
        Some(t) => has_box_dyn_error_type(t),
        None => false,
    }
}

fn error_bound(b: &BoundShape) -> (r: bool)
    ensures
        r == is_error_bound(*b),
{
    match b {
        BoundShape::Trait(p) => match last_ident_exec(p) {
            Some(id) => eq_str(id.as_str(), "Error"),
            None => false,
        },
        BoundShape::Other => false,
    }
}

fn dyn_error_arg(a: &GenericArg) -> (r: bool)
    ensures
        r == is_dyn_error_arg(*a),
{
    match a {
        GenericArg::Type(TypeShape::TraitObject(bounds)) => {
            let mut j: usize = 0;
            while j < bounds.len()
                invariant
                    j <= bounds.len(),
                    *a == GenericArg::Type(TypeShape::TraitObject(*bounds)),
                    forall|k: int| 0 <= k < j ==> !is_error_bound(#[trigger] bounds@[k]),
                decreases bounds.len() - j,
            {
                if error_bound(&bounds[j]) {
                    assert(is_error_bound(bounds@[j as int]));
                    assert(any_error_bound(bounds@));
                    return true;
                }
                j = j + 1;
            }
            false
        },
        _ => false,
    }
}

fn contains_box_dyn_error(t: &TypeShape) -> (r: bool)
    ensures
        r == has_box_dyn_error_type(*t),
    decreases *t, 2nat,
{
    match t {
        TypeShape::Path(p) => {
            let n = p.segments.len();
            if n == 0 {
                return false;
            }
            proof {
                assert(decreases_to!(*t => (*t)->Path_0));
                assert(decreases_to!((*t)->Path_0 => (*t)->Path_0.segments));
                assert(decreases_to!((*t)->Path_0.segments => (*t)->Path_0.segments@));
                assert(decreases_to!((*t)->Path_0.segments@ => (*t)->Path_0.segments@[n - 1]));
            }
            segment_box_dyn_error(&p.segments[n - 1])
        },
        _ => false,
    }
}

fn segment_box_dyn_error(seg: &crate::syntax::PathSegment) -> (r: bool)
    ensures
        r == segment_has_box_dyn_error(*seg),
    decreases *seg, 3nat,
{
    match &seg.args {
        PathArgs::AngleBracketed(args) => {
            if eq_str(seg.ident.as_str(), "Box") {
                let mut j: usize = 0;
                while j < args.len()
                    invariant
                        j <= args.len(),
                        seg.args == PathArgs::AngleBracketed(*args),
                        seg.ident@ == "Box"@,
                        forall|k: int| 0 <= k < j ==> !is_dyn_error_arg(#[trigger] args@[k]),
                    decreases args.len() - j,
                {
                    if dyn_error_arg(&args[j]) {
                        assert(is_dyn_error_arg(args@[j as int]));
                        return true;
                    }
                    j = j + 1;
                }
            }
            proof {
                assert(decreases_to!(*seg => seg.args));
                assert(decreases_to!(seg.args => (seg.args)->AngleBracketed_0));
                assert(decreases_to!((seg.args)->AngleBracketed_0 => (seg.args)->AngleBracketed_0@));
            }
            args_box_dyn_error(args, Ghost(*seg))
        },
        _ => false,
    }
}

fn args_box_dyn_error(args: &Vec<GenericArg>, Ghost(seg): Ghost<crate::syntax::PathSegment>) -> (r: bool)
    requires
        decreases_to!(seg => args@),
    ensures
        r == args_have_box_dyn_error(args@),
    decreases seg, 1nat,
{
    let mut i: usize = 0;
    while i < args.len()
        invariant
            i <= args.len(),
            decreases_to!(seg => args@),
            !args_have_box_dyn_error(args@.take(i as int)),
        decreases args.len() - i,
    {
        assert(args@.take(i + 1).drop_last() =~= args@.take(i as int));
        assert(args@.take(i + 1).last() == args@[i as int]);
        match &args[i] {
            GenericArg::Type(t) => {
                proof {
                    assert(decreases_to!(args@ => args@[i as int]));
                    assert(decreases_to!(args@[i as int] => (args@[i as int])->Type_0));
                }
                if contains_box_dyn_error(t) {
                    proof { lemma_args_prefix(args@, i as int + 1); }
                    return true;
                }
            },
            GenericArg::Other => {},
        }
        i = i + 1;
    }
    assert(args@.take(args@.len() as int) =~= args@);
    false
}

proof fn lemma_args_prefix(args: Seq<GenericArg>, k: int)
    requires
        0 <= k <= args.len(),
        args_have_box_dyn_error(args.take(k)),
    ensures
        args_have_box_dyn_error(args),
    decreases args.len() - k,
{
    if k < args.len() {
        assert(args.take(k + 1).drop_last() =~= args.take(k));
        lemma_args_prefix(args, k + 1);
    } else {
        assert(args.take(k) =~= args);
    }
}

fn has_box_dyn_error(sig: &SigShape) -> (r: bool)
    ensures
        r == returns_box_dyn_error(*sig),
{
    match &sig.output {
        Some(t) => contains_box_dyn_error(t),
        None => false,
    }
}

// --- fingerprints for the duplication checks ---

/// The parts joined with the separator between each two of them.
pub open spec fn join(parts: Seq<Seq<char>>, sep: Seq<char>) -> Seq<char>
    decreases parts.len(),
{
    if parts.len() == 0 {
        Seq::empty()
    } else if parts.len() == 1 {
        parts[0]
    } else {
        join(parts.drop_last(), sep) + sep + parts.last()
    }
}

/// The strings joined with the separator between each two of them.
pub fn join_strings(parts: &Vec<String>, sep: &str) -> (res: String)
    ensures
        res@ == join(strings_view(parts@), sep@),
{
    let mut res = String::new();
    let mut i: usize = 0;
    while i < parts.len()
        invariant
            i <= parts.len(),
            res@ == join(strings_view(parts@.take(i as int)), sep@),
        decreases parts.len() - i,
    {
        proof {
            assert(strings_view(parts@.take(i + 1)).drop_last() =~= strings_view(parts@.take(i as int)));
            assert(strings_view(parts@.take(i + 1)).last() == parts@[i as int]@);
            assert(strings_view(parts@.take(i + 1)).len() == i + 1);
            if i == 0 {
                assert(strings_view(parts@.take(1))[0] == parts@[0]@);
            }
        }
        if i > 0 {
            res.append(sep);
        }
        res.append(parts[i].as_str());
        i = i + 1;
    }
    assert(parts@.take(parts@.len() as int) =~= parts@);
    res
}

/// The fingerprint of a type: its shape with only the last segment of each
/// path kept, so that `std::vec::Vec<u8>` and `Vec<u8>` agree.
pub open spec fn type_fp(t: TypeShape) -> Seq<char>
    decreases t, 2nat,
{
    match t {
        TypeShape::Path(p) => if p.segments@.len() == 0 {
            "_"@
        } else {
            segment_fp(p.segments@.last())
        },
        TypeShape::Reference { mutable, elem } =>
            (if mutable { "&mut "@ } else { "&"@ }) + type_fp(*elem),
        TypeShape::Tuple(ts) => "("@ + join(types_fps(ts@), ","@) + ")"@,
        TypeShape::Slice(e) => "["@ + type_fp(*e) + "]"@,
        TypeShape::ImplTrait => "impl_"@,
        _ => "_"@,
    }
}

/// The fingerprint of a path segment: its name, with the fingerprints of its
/// type arguments in angle brackets when it has any.
pub open spec fn segment_fp(seg: crate::syntax::PathSegment) -> Seq<char>
    decreases seg, 3nat,
{
    match seg.args {
        PathArgs::AngleBracketed(args) => {
            let gs = arg_type_fps(args@);
            if gs.len() == 0 {
                seg.ident@
            } else {
                seg.ident@ + "<"@ + join(gs, ","@) + ">"@
            }
        },
        _ => seg.ident@,
    }
}

/// The fingerprints of a sequence of types.
pub open spec fn types_fps(ts: Seq<TypeShape>) -> Seq<Seq<char>>
    decreases ts, 1nat,
{
    if ts.len() == 0 {
        Seq::empty()
    } else {
        types_fps(ts.drop_last()).push(type_fp(ts.last()))
    }
}

/// The fingerprints of the type arguments among generic arguments.
pub open spec fn arg_type_fps(args: Seq<GenericArg>) -> Seq<Seq<char>>
    decreases args, 1nat,
{
    if args.len() == 0 {
        Seq::empty()
    } else {
        arg_type_fps(args.drop_last()) + match args.last() {
            GenericArg::Type(t) => seq![type_fp(t)],
            GenericArg::Other => Seq::empty(),
        }
    }
}

fn type_fingerprint(t: &TypeShape) -> (s: String)
    ensures
        s@ == type_fp(*t),
    decreases *t, 2nat,
{
    match t {
        TypeShape::Path(p) => {
            let n = p.segments.len();
            if n == 0 {
                "_".to_owned()
            } else {
                proof {
                    assert(decreases_to!(*t => (*t)->Path_0));
                    assert(decreases_to!((*t)->Path_0 => (*t)->Path_0.segments));
                    assert(decreases_to!((*t)->Path_0.segments => (*t)->Path_0.segments@));
                    assert(decreases_to!((*t)->Path_0.segments@ => (*t)->Path_0.segments@[n - 1]));
                }
                segment_fingerprint(&p.segments[n - 1])
            }
        },
        TypeShape::Reference { mutable, elem } => {
            let mut s = if *mutable { "&mut ".to_owned() } else { "&".to_owned() };
            let inner = type_fingerprint(elem);
            s.append(inner.as_str());
            s
        },
        TypeShape::Tuple(ts) => {
            proof {
                assert(decreases_to!(*t => (*t)->Tuple_0));
                assert(decreases_to!((*t)->Tuple_0 => (*t)->Tuple_0@));
            }
            let parts = types_fingerprints(ts, Ghost(*t));
            let mut s = "(".to_owned();
            let joined = join_strings(&parts, ",");
            s.append(joined.as_str());
            s.append(")");
            s
        },
        TypeShape::Slice(e) => {
            let mut s = "[".to_owned();
            let inner = type_fingerprint(e);
            s.append(inner.as_str());
            s.append("]");
            s
        },
        TypeShape::ImplTrait => "impl_".to_owned(),
        _ => "_".to_owned(),
    }
}

fn types_fingerprints(ts: &Vec<TypeShape>, Ghost(outer): Ghost<TypeShape>) -> (parts: Vec<String>)
    requires
        decreases_to!(outer => ts@),
    ensures
        strings_view(parts@) == types_fps(ts@),
    decreases outer, 1nat,
{
    let mut parts: Vec<String> = Vec::new();
    let mut i: usize = 0;
    while i < ts.len()
        invariant
            i <= ts.len(),
            decreases_to!(outer => ts@),
            strings_view(parts@) == types_fps(ts@.take(i as int)),
        decreases ts.len() - i,
    {
        proof {
            assert(ts@.take(i + 1).drop_last() =~= ts@.take(i as int));
            assert(ts@.take(i + 1).last() == ts@[i as int]);
            assert(decreases_to!(ts@ => ts@[i as int]));
        }
        let fp = type_fingerprint(&ts[i]);
        parts.push(fp);
        assert(strings_view(parts@) =~= types_fps(ts@.take(i + 1)));
        i = i + 1;
    }
    assert(ts@.take(ts@.len() as int) =~= ts@);
    parts
}

fn segment_fingerprint(seg: &crate::syntax::PathSegment) -> (s: String)
    ensures
        s@ == segment_fp(*seg),
    decreases *seg, 3nat,
{
    match &seg.args {
        PathArgs::AngleBracketed(args) => {
            proof {
                assert(decreases_to!(*seg => seg.args));
                assert(decreases_to!(seg.args => (seg.args)->AngleBracketed_0));
                assert(decreases_to!((seg.args)->AngleBracketed_0 => (seg.args)->AngleBracketed_0@));
            }
            let gs = arg_fingerprints(args, Ghost(*seg));
            if gs.len() == 0 {
                seg.ident.clone()
            } else {
                let mut s = seg.ident.clone();
                s.append("<");
                let joined = join_strings(&gs, ",");
                s.append(joined.as_str());
                s.append(">");
                s
            }
        },
        _ => seg.ident.clone(),
    }
}

fn arg_fingerprints(args: &Vec<GenericArg>, Ghost(seg): Ghost<crate::syntax::PathSegment>) -> (gs: Vec<String>)
    requires
        decreases_to!(seg => args@),
    ensures
        strings_view(gs@) == arg_type_fps(args@),
    decreases seg, 1nat,
{
    let mut gs: Vec<String> = Vec::new();
    let mut i: usize = 0;
    while i < args.len()
        invariant
            i <= args.len(),
            decreases_to!(seg => args@),
            strings_view(gs@) == arg_type_fps(args@.take(i as int)),
        decreases args.len() - i,
    {
        proof {
            assert(args@.take(i + 1).drop_last() =~= args@.take(i as int));
            assert(args@.take(i + 1).last() == args@[i as int]);
        }
        match &args[i] {
            GenericArg::Type(t) => {
                proof {
                    assert(decreases_to!(args@ => args@[i as int]));
                    assert(decreases_to!(args@[i as int] => (args@[i as int])->Type_0));
                }
                let fp = type_fingerprint(t);
                gs.push(fp);
            },
            GenericArg::Other => {},
        }
        assert(strings_view(gs@) =~= arg_type_fps(args@.take(i + 1)));
        i = i + 1;
    }
    assert(args@.take(args@.len() as int) =~= args@);
    gs
}

/// The fingerprint of one parameter; `self` is written with the type of the
/// enclosing `impl` block or trait, `Self` outside one.
pub open spec fn input_fp(input: FnInput, self_type: Option<Seq<char>>) -> Seq<char> {
    match input {
        FnInput::Receiver { mutable } => {
            let ty = match self_type {
                Some(t) => t,
                None => "Self"@,
            };
            if mutable { "&mut "@ + ty } else { "&"@ + ty }
        },
        FnInput::Typed(t) => type_fp(t),
    }
}

/// The fingerprints of the parameters.
pub open spec fn inputs_fps(inputs: Seq<FnInput>, self_type: Option<Seq<char>>) -> Seq<Seq<char>>
    decreases inputs.len(),
{
    if inputs.len() == 0 {
        Seq::empty()
    } else {
        inputs_fps(inputs.drop_last(), self_type).push(input_fp(inputs.last(), self_type))
    }
}

/// The fingerprint of a signature: `(param,param)->return`, so that two
/// functions with the same parameter and return types agree.
pub open spec fn sig_fp(sig: SigShape, self_type: Option<Seq<char>>) -> Seq<char> {
    let ret = match sig.output {
        Some(t) => type_fp(t),
        None => "()"@,
    };
    "("@ + join(inputs_fps(sig.inputs@, self_type), ","@) + ")->"@ + ret
}

/// The fingerprint of a signature.
pub fn fingerprint_sig(sig: &SigShape, self_type: Option<&String>) -> (s: String)
    ensures
        s@ == sig_fp(*sig, opt_str_view(self_type)),
{
    let ghost st = opt_str_view(self_type);
    let mut parts: Vec<String> = Vec::new();
    let mut i: usize = 0;
    while i < sig.inputs.len()
        invariant
            i <= sig.inputs.len(),
            st == opt_str_view(self_type),
            strings_view(parts@) == inputs_fps(sig.inputs@.take(i as int), st),
        decreases sig.inputs.len() - i,
    {
        proof {
            assert(sig.inputs@.take(i + 1).drop_last() =~= sig.inputs@.take(i as int));
            assert(sig.inputs@.take(i + 1).last() == sig.inputs@[i as int]);
        }
        let fp = match &sig.inputs[i] {
            FnInput::Receiver { mutable } => {
                let mut s = if *mutable { "&mut ".to_owned() } else { "&".to_owned() };
                match self_type {
                    Some(t) => s.append(t.as_str()),
                    None => s.append("Self"),
                }
                s
            },
            FnInput::Typed(t) => type_fingerprint(t),
        };
        parts.push(fp);
        assert(strings_view(parts@) =~= inputs_fps(sig.inputs@.take(i + 1), st));
        i = i + 1;
    }
    assert(sig.inputs@.take(sig.inputs@.len() as int) =~= sig.inputs@);
    let ret = match &sig.output {
        Some(t) => type_fingerprint(t),
        None => "()".to_owned(),
    };
    let mut s = "(".to_owned();
    let joined = join_strings(&parts, ",");
    s.append(joined.as_str());
    s.append(")->");
    s.append(ret.as_str());
    s
}

/// The token a node of this kind adds to the outline of a body.
pub open spec fn own_token(k: NodeKind) -> Option<Seq<char>> {
    match k {
        NodeKind::If => Some("if"@),
        NodeKind::Match => Some("match"@),
        NodeKind::Arm(_) => Some("arm"@),
        NodeKind::While => Some("while"@),
        NodeKind::ForLoop => Some("for"@),
        NodeKind::Loop => Some("loop"@),
        NodeKind::Return => Some("return"@),
        NodeKind::Try => Some("?"@),
        NodeKind::Call { .. } => Some("call"@),
        NodeKind::MethodCall { .. } => Some("method"@),
        NodeKind::Binary { .. } => Some("binop"@),
        NodeKind::Unary => Some("unop"@),
        NodeKind::Assign => Some("assign"@),
        NodeKind::Closure => Some("closure"@),
        NodeKind::Local => Some("let"@),
        _ => None,
    }
}

pub open spec fn opt_seq(o: Option<Seq<char>>) -> Seq<Seq<char>> {
    match o {
        Some(t) => seq![t],
        None => Seq::empty(),
    }
}

/// The outline of a node: its token, then those of what it holds, in the
/// order of the walk; a closure shows as `closure` alone.
pub open spec fn node_tokens(n: SyntaxNode) -> Seq<Seq<char>>
    decreases n, 1nat,
{
    if n.kind is Closure {
        seq!["closure"@]
    } else {
        opt_seq(own_token(n.kind)) + nodes_tokens(n.children@)
    }
}

/// The outline of a sequence of nodes.
pub open spec fn nodes_tokens(ns: Seq<SyntaxNode>) -> Seq<Seq<char>>
    decreases ns, 0nat,
{
    if ns.len() == 0 {
        Seq::empty()
    } else {
        nodes_tokens(ns.drop_last()) + node_tokens(ns.last())
    }
}

pub open spec fn strs_view(v: Seq<&'static str>) -> Seq<Seq<char>> {
    v.map_values(|x: &'static str| x@)
}

fn token_of(k: &NodeKind) -> (t: Option<&'static str>)
    ensures
        match t {
            Some(x) => own_token(*k) == Some(x@),
            None => own_token(*k) is None,
        },
{
    match k {
        NodeKind::If => Some("if"),
        NodeKind::Match => Some("match"),
        NodeKind::Arm(_) => Some("arm"),
        NodeKind::While => Some("while"),
        NodeKind::ForLoop => Some("for"),
        NodeKind::Loop => Some("loop"),
        NodeKind::Return => Some("return"),
        NodeKind::Try => Some("?"),
        NodeKind::Call { .. } => Some("call"),
        NodeKind::MethodCall { .. } => Some("method"),
        NodeKind::Binary { .. } => Some("binop"),
        NodeKind::Unary => Some("unop"),
        NodeKind::Assign => Some("assign"),
        NodeKind::Closure => Some("closure"),
        NodeKind::Local => Some("let"),
        _ => None,
    }
}

fn collect_tokens(ns: &Vec<SyntaxNode>, out: &mut Vec<&'static str>)
    ensures
        strs_view(final(out)@) == strs_view(old(out)@) + nodes_tokens(ns@),
    decreases ns@, 0nat,
{
    let ghost before = strs_view(out@);
    let mut i: usize = 0;
    assert(before =~= before + nodes_tokens(ns@.take(0)));
    while i < ns.len()
        invariant
            i <= ns.len(),
            strs_view(out@) == before + nodes_tokens(ns@.take(i as int)),
        decreases ns.len() - i,
    {
        proof {
            assert(ns@.take(i + 1).drop_last() =~= ns@.take(i as int));
            assert(ns@.take(i + 1).last() == ns@[i as int]);
            assert(nodes_tokens(ns@.take(i + 1)) == nodes_tokens(ns@.take(i as int)) + node_tokens(ns@[i as int]));
        }
        let n = &ns[i];
        let ghost mid = strs_view(out@);
        if matches!(n.kind, NodeKind::Closure) {
            out.push("closure");
            assert(strs_view(out@) =~= mid + seq!["closure"@]);
            assert(node_tokens(*n) == seq!["closure"@]);
        } else {
            match token_of(&n.kind) {
                Some(t) => {
                    out.push(t);
                    assert(strs_view(out@) =~= mid + opt_seq(own_token(n.kind)));
                },
                None => {
                    assert(strs_view(out@) =~= mid + opt_seq(own_token(n.kind)));
                },
            }
            let ghost mid2 = strs_view(out@);
            collect_tokens(&n.children, out);
            assert(strs_view(out@) =~= mid + node_tokens(*n));
        }
        assert(strs_view(out@) =~= before + nodes_tokens(ns@.take(i + 1)));
        i = i + 1;
    }
    assert(ns@.take(ns@.len() as int) =~= ns@);
}

/// The writes by which the tokens are hashed: each token's UTF-8 bytes
/// followed by the byte `0xff`, as `str`'s `Hash` implementation writes them.
pub open spec fn token_writes(tokens: Seq<Seq<char>>) -> Seq<Seq<u8>>
    decreases tokens.len(),
{
    if tokens.len() == 0 {
        Seq::empty()
    } else {
        token_writes(tokens.drop_last()).push(encode_utf8(tokens.last())).push(seq![0xffu8])
    }
}

/// The hexadecimal digits of the `k` lowest-order nibbles of `n`, most
/// significant first, in lower case.
pub open spec fn hex_digits(n: nat, k: nat) -> Seq<char>
    decreases k,
{
    if k == 0 {
        Seq::empty()
    } else {
        hex_digits(n / 16, (k - 1) as nat).push(hex_char(n % 16))
    }
}

/// The lower-case hexadecimal digit for a value below 16.
pub open spec fn hex_char(d: nat) -> char {
    if d < 10 { ((d + 48) as u8) as char } else { ((d - 10 + 97) as u8) as char }
}

fn hex_digit(d: u64) -> (c: char)
    requires
        d < 16,
    ensures
        c == hex_char(d as nat),
{
    if d < 10 { ((d + 48) as u8) as char } else { ((d - 10 + 97) as u8) as char }
}

fn push_hex(s: &mut String, n: u64, k: usize)
    ensures
        final(s)@ == old(s)@ + hex_digits(n as nat, k as nat),
    decreases k,
{
    if k > 0 {
        push_hex(s, n / 16, k - 1);
        push_char(s, hex_digit(n % 16));
    }
}

/// The fingerprint of a body: the hash of its outline, as sixteen
/// hexadecimal digits.
pub open spec fn body_fp(body: Seq<SyntaxNode>) -> Seq<char> {
    hex_digits(DefaultHasher::spec_finish(token_writes(nodes_tokens(body))) as nat, 16)
}

/// The fingerprint of a body.
pub fn fingerprint_body(body: &Vec<SyntaxNode>) -> (s: String)
    ensures
        s@ == body_fp(body@),
{
    let mut tokens: Vec<&'static str> = Vec::new();
    collect_tokens(body, &mut tokens);
    assert(strs_view(tokens@) =~= nodes_tokens(body@));
    let ghost ts = nodes_tokens(body@);
    let mut hasher = DefaultHasher::new();
    let sep: [u8; 1] = [0xffu8];
    let mut i: usize = 0;
    while i < tokens.len()
        invariant
            i <= tokens.len(),
            ts == strs_view(tokens@),
            sep@ == seq![0xffu8],
            hasher@ == token_writes(ts.take(i as int)),
        decreases tokens.len() - i,
    {
        proof {
            assert(ts.take(i + 1).drop_last() =~= ts.take(i as int));
            assert(ts.take(i + 1).last() == tokens@[i as int]@);
        }
        let t: &str = tokens[i];
        hasher.write(t.as_bytes());
        hasher.write(sep.as_slice());
        i = i + 1;
    }
    assert(ts.take(ts.len() as int) =~= ts);
    let h = hasher.finish();
    let mut s = String::new();
    push_hex(&mut s, h, 16);
    s
}

// --- the analysis of a file ---

/// The idiom findings for one function.
pub struct FunctionIdioms {
    pub file: String,
    pub qualified_name: String,
    pub start_line: u32,
    pub end_line: u32,
    /// The sum of the weights of `checks`, plus what the duplication check adds.
    pub demerits: u32,
    pub checks: Vec<IdiomCheck>,
    pub sig_duplicate: bool,
    pub body_duplicate: bool,
    pub sig_fingerprint: String,
    pub body_fingerprint: String,
}

/// The patterns found in a function, in the order they are reported: a free
/// function that reads like a method, a `Box<dyn Error>` return type, then
/// the patterns of its body in the order of the walk.
pub open spec fn fn_checks(v: FnVisit, items: Seq<SyntaxNode>) -> Seq<IdiomCheck> {
    (if v.is_free && is_free_method_candidate(v.decl.sig, items) {
        seq![IdiomCheck::FreeMethodCandidate]
    } else {
        Seq::empty()
    }) + (if returns_box_dyn_error(v.decl.sig) {
        seq![IdiomCheck::BoxDynError]
    } else {
        Seq::empty()
    }) + nodes_checks(v.node.children@)
}

/// The sum of the weights of the patterns.
pub open spec fn total_weight(cs: Seq<IdiomCheck>) -> nat
    decreases cs.len(),
{
    if cs.len() == 0 {
        0
    } else {
        total_weight(cs.drop_last()) + check_weight(cs.last()) as nat
    }
}

/// Whether every function's demerits fit in a `u32`.
pub open spec fn demerits_fit(items: Seq<SyntaxNode>) -> bool {
    forall|i: int| 0 <= i < nodes_visits(items, None).len()
        ==> total_weight(fn_checks(#[trigger] nodes_visits(items, None)[i], items)) <= u32::MAX
}

/// Whether `r` is the finding for the function `v` of the file `file`.
pub open spec fn idioms_record_of(r: FunctionIdioms, file: Seq<char>, v: FnVisit, items: Seq<SyntaxNode>) -> bool {
    &&& r.file@ == file
    &&& r.qualified_name@ == v.qualified_name
    &&& r.start_line == fn_start_line(v)
    &&& r.end_line == fn_end_line(v)
    &&& r.checks@ == fn_checks(v, items)
    &&& r.demerits == total_weight(fn_checks(v, items))
    &&& !r.sig_duplicate
    &&& !r.body_duplicate
    &&& r.sig_fingerprint@ == sig_fp(v.decl.sig, v.context)
    &&& r.body_fingerprint@ == body_fp(v.node.children@)
}

fn sum_weights(cs: &Vec<IdiomCheck>) -> (w: u32)
    requires
        total_weight(cs@) <= u32::MAX,
    ensures
        w == total_weight(cs@),
{
    let mut w: u32 = 0;
    let mut i: usize = 0;
    while i < cs.len()
        invariant
            i <= cs.len(),
            total_weight(cs@) <= u32::MAX,
            w == total_weight(cs@.take(i as int)),
        decreases cs.len() - i,
    {
        proof {
            assert(cs@.take(i + 1).drop_last() =~= cs@.take(i as int));
            lemma_weight_prefix(cs@, i as int + 1);
        }
        w = w + cs[i].weight();
        i = i + 1;
    }
    assert(cs@.take(cs@.len() as int) =~= cs@);
    w
}

proof fn lemma_weight_prefix(cs: Seq<IdiomCheck>, k: int)
    requires
        0 <= k <= cs.len(),
    ensures
        total_weight(cs.take(k)) <= total_weight(cs),
    decreases cs.len() - k,
{
    if k < cs.len() {
        lemma_weight_prefix(cs, k + 1);
        assert(cs.take(k + 1).drop_last() =~= cs.take(k));
    } else {
        assert(cs.take(k) =~= cs);
    }
}

fn function_checks(site: &FunctionSite, names: &Vec<String>, Ghost(items): Ghost<Seq<SyntaxNode>>) -> (checks: Vec<IdiomCheck>)
    requires
        forall|name: Seq<char>| holds_name(names@, name) <==> declares_struct(items, name),
    ensures
        checks@ == fn_checks(site@, items),
{
    let mut checks: Vec<IdiomCheck> = Vec::new();
    if site.is_free && free_method_candidate(&site.decl.sig, names, Ghost(items)) {
        checks.push(IdiomCheck::FreeMethodCandidate);
    }
    if has_box_dyn_error(&site.decl.sig) {
        checks.push(IdiomCheck::BoxDynError);
    }
    collect_checks(&site.node.children, &mut checks);
    assert(checks@ =~= fn_checks(site@, items));
    checks
}

fn weights_fit(cs: &Vec<IdiomCheck>) -> (b: bool)
    ensures
        b == (total_weight(cs@) <= u32::MAX),
{
    let mut w: u32 = 0;
    let mut i: usize = 0;
    while i < cs.len()
        invariant
            i <= cs.len(),
            w == total_weight(cs@.take(i as int)),
        decreases cs.len() - i,
    {
        proof {
            assert(cs@.take(i + 1).drop_last() =~= cs@.take(i as int));
            lemma_weight_prefix(cs@, i as int + 1);
        }
        let x = cs[i].weight();
        if w > u32::MAX - x {
            return false;
        }
        w = w + x;
        i = i + 1;
    }
    assert(cs@.take(cs@.len() as int) =~= cs@);
    true
}

/// Whether every function's demerits fit in a `u32`: the condition under
/// which `analyze_idioms_for_file` can run.
pub fn fits_idiom_demerits(items: &Vec<SyntaxNode>) -> (b: bool)
    ensures
        b == demerits_fit(items@),
{
    let names = collect_struct_names(items);
    let sites = visit_functions(items);
    let ghost visits = nodes_visits(items@, None);
    let mut i: usize = 0;
    while i < sites.len()
        invariant
            i <= sites.len(),
            sites_view(sites@) == visits,
            visits == nodes_visits(items@, None),
            forall|name: Seq<char>| holds_name(names@, name) <==> declares_struct(items@, name),
            forall|k: int| 0 <= k < i ==> total_weight(fn_checks(#[trigger] visits[k], items@)) <= u32::MAX,
        decreases sites.len() - i,
    {
        let site = &sites[i];
        assert(sites_view(sites@)[i as int] == sites@[i as int]@);
        let checks = function_checks(site, &names, Ghost(items@));
        if !weights_fit(&checks) {
            return false;
        }
        i = i + 1;
    }
    true
}

/// The idiom findings for each function of a file, in the order of the walk.
pub fn analyze_idioms_for_file(file: &str, items: &Vec<SyntaxNode>) -> (res: Vec<FunctionIdioms>)
    requires
        demerits_fit(items@),
    ensures
        res@.len() == nodes_visits(items@, None).len(),
        forall|i: int| 0 <= i < res@.len()
            ==> idioms_record_of(#[trigger] res@[i], file@, nodes_visits(items@, None)[i], items@),
{
    let names = collect_struct_names(items);
    let sites = visit_functions(items);
    let ghost visits = nodes_visits(items@, None);
    let mut res: Vec<FunctionIdioms> = Vec::new();
    let mut i: usize = 0;
    while i < sites.len()
        invariant
            i <= sites.len(),
            sites_view(sites@) == visits,
            visits == nodes_visits(items@, None),
            demerits_fit(items@),
            forall|name: Seq<char>| holds_name(names@, name) <==> declares_struct(items@, name),
            res@.len() == i,
            forall|k: int| 0 <= k < i ==> idioms_record_of(#[trigger] res@[k], file@, visits[k], items@),
        decreases sites.len() - i,
    {
        let site = &sites[i];
        proof {
            assert(sites_view(sites@)[i as int] == sites@[i as int]@);
            assert(total_weight(fn_checks(visits[i as int], items@)) <= u32::MAX);
        }
        let decl = site.decl;
        let checks = function_checks(site, &names, Ghost(items@));
        let demerits = sum_weights(&checks);
        let sig_fingerprint = fingerprint_sig(&decl.sig, site.context.as_ref());
        let body_fingerprint = fingerprint_body(&site.node.children);
        let start_line = line_u32(decl.name_start_line);
        let name_end = line_u32(decl.name_end_line);
        let body_end = line_u32(decl.body_end_line);
        let end_line = if name_end >= body_end { name_end } else { body_end };
        res.push(FunctionIdioms {
            file: file.to_owned(),
            qualified_name: site.qualified_name.clone(),
            start_line,
            end_line,
            demerits,
            checks,
            sig_duplicate: false,
            body_duplicate: false,
            sig_fingerprint,
            body_fingerprint,
        });
        i = i + 1;
    }
    res
}

/// Each pattern found adds one or two demerits, so a function's demerits lie
/// between the number of its patterns and twice that number.
pub proof fn lemma_total_weight_bounds(cs: Seq<IdiomCheck>)
    ensures
        cs.len() <= total_weight(cs) <= 2 * cs.len(),
        total_weight(cs) == 0 <==> cs.len() == 0,
    decreases cs.len(),
{
    if cs.len() > 0 {
        lemma_total_weight_bounds(cs.drop_last());
    }
}

/// Two bodies with the same outline have the same body fingerprint.
pub proof fn lemma_same_outline_same_fingerprint(a: Seq<SyntaxNode>, b: Seq<SyntaxNode>)
    requires
        nodes_tokens(a) == nodes_tokens(b),
    ensures
        body_fp(a) == body_fp(b),
{
}

proof fn lemma_hex_digits_len(n: nat, k: nat)
    ensures
        hex_digits(n, k).len() == k,
    decreases k,
{
    if k > 0 {
        lemma_hex_digits_len(n / 16, (k - 1) as nat);
    }
}

/// A body fingerprint is sixteen hexadecimal digits, whatever the body.
pub proof fn lemma_body_fingerprint_len(a: Seq<SyntaxNode>)
    ensures
        body_fp(a).len() == 16,
{
    lemma_hex_digits_len(DefaultHasher::spec_finish(token_writes(nodes_tokens(a))) as nat, 16);
}

/// The operators under which a cast operand is flagged: comparisons and
/// arithmetic.
pub open spec fn compares_or_computes(op: BinOpKind) -> bool {
    ||| op is Lt ||| op is Le ||| op is Gt ||| op is Ge ||| op is Eq ||| op is Ne
    ||| op is Add ||| op is Sub ||| op is Mul ||| op is Div ||| op is Rem
}

/// An operand `e as T` where `T` is a path whose last segment names a
/// numeric primitive.
pub open spec fn casts_to_number(o: OperandShape) -> bool {
    o matches OperandShape::Cast(TypeShape::Path(p)) && p.segments@.len() > 0 && {
        let s = p.segments@.last().ident@;
        ||| s == "i8"@ ||| s == "i16"@ ||| s == "i32"@ ||| s == "i64"@ ||| s == "i128"@
        ||| s == "isize"@ ||| s == "u8"@ ||| s == "u16"@ ||| s == "u32"@ ||| s == "u64"@
        ||| s == "u128"@ ||| s == "usize"@ ||| s == "f32"@ ||| s == "f64"@
    }
}

/// A binary expression is flagged for a primitive cast exactly when its
/// operator compares or computes (`< <= > >= == != + - * / %`) and one of its
/// operands is a cast to a numeric primitive; it then gives that pattern
/// alone, and otherwise none.
pub proof fn lemma_cast_in_comparison_flagged(n: SyntaxNode, op: BinOpKind, left: OperandShape, right: OperandShape)
    requires
        n.kind == (NodeKind::Binary { op, left, right }),
    ensures
        compares_or_computes(op) && (casts_to_number(left) || casts_to_number(right))
            ==> own_checks(n) == seq![IdiomCheck::PrimitiveCastInComparison],
        !(compares_or_computes(op) && (casts_to_number(left) || casts_to_number(right)))
            ==> own_checks(n) == Seq::<IdiomCheck>::empty(),
{
    assert(is_cmp_or_arith(op) == compares_or_computes(op));
    assert(is_numeric_cast(left) == casts_to_number(left));
    assert(is_numeric_cast(right) == casts_to_number(right));
}

/// A reference type's fingerprint keeps its mutability: `&mut ` or `&`
/// before the fingerprint of what it refers to, so `&mut T` and `&T` never
/// share a fingerprint.
pub proof fn lemma_reference_fingerprint(mutable: bool, elem: TypeShape)
    ensures
        type_fp(TypeShape::Reference { mutable, elem: Box::new(elem) })
            == (if mutable { seq!['&', 'm', 'u', 't', ' '] } else { seq!['&'] }) + type_fp(elem),
        type_fp(TypeShape::Reference { mutable: true, elem: Box::new(elem) })
            != type_fp(TypeShape::Reference { mutable: false, elem: Box::new(elem) }),
{
    reveal_strlit("&mut ");
    reveal_strlit("&");
    assert("&mut "@ =~= seq!['&', 'm', 'u', 't', ' ']);
    assert("&"@ =~= seq!['&']);
    let a = type_fp(TypeShape::Reference { mutable: true, elem: Box::new(elem) });
    let b = type_fp(TypeShape::Reference { mutable: false, elem: Box::new(elem) });
    assert(a.len() == b.len() + 4);
}

} // verus!
