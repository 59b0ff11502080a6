//! The walk that finds the functions of a file and the names they are
//! reported under.

use vstd::prelude::*;
use crate::complexity::{any_attr, attr_is_cfg_test, attrs_skip, format_path, format_type, path_display, type_display, AttrExt};
use crate::syntax::{AttrShape, FnDecl, ImplHeader, NodeKind, SyntaxNode};
use crate::text::{concat2, opt_text};

verus! {

/// What the walk records of one function it reaches.
pub ghost struct FnVisit {
    /// The function's node; its children are the nodes of its body.
    pub node: SyntaxNode,
    pub decl: FnDecl,
    /// The name it is reported under: `Context::name` inside an `impl` block
    /// or a trait, the bare name elsewhere.
    pub qualified_name: Seq<char>,
    /// True for a free function, false for a method.
    pub is_free: bool,
    /// The innermost enclosing `impl` block's or trait's name.
    pub context: Option<Seq<char>>,
}

/// The name an `impl` block gives the functions inside it: the trait's name
/// for a trait implementation, the type's name otherwise.
pub open spec fn impl_context(h: ImplHeader) -> Seq<char> {
    match h.trait_path {
        Some(p) => path_display(p),
        None => type_display(h.self_ty),
    }
}

/// The name under which `name` is reported in the given context.
pub open spec fn qualify(ctx: Option<Seq<char>>, name: Seq<char>) -> Seq<char> {
    match ctx {
        Some(c) => c + "::"@ + name,
        None => name,
    }
}

pub open spec fn visit_of(n: SyntaxNode, d: FnDecl, ctx: Option<Seq<char>>, is_free: bool) -> FnVisit {
    FnVisit { node: n, decl: d, qualified_name: qualify(ctx, d.name@), is_free, context: ctx }
}

/// The functions reached from a node, in the order of the walk: a function
/// with `#[test]` or an opt-out attribute is left out together with what it
/// holds; a trait method counts only with a default body; a module under
/// `#[cfg(test)]` is left out; everything else is searched, closures too.
pub open spec fn node_visits(n: SyntaxNode, ctx: Option<Seq<char>>) -> Seq<FnVisit>
    decreases n, 1nat,
{
    match n.kind {
        NodeKind::ItemFn(d) => if attrs_skip(d.attrs@) {
            Seq::empty()
        } else {
            seq![visit_of(n, d, ctx, true)] + nodes_visits(n.children@, ctx)
        },
        NodeKind::ImplItemFn(d) => if attrs_skip(d.attrs@) {
            Seq::empty()
        } else {
            seq![visit_of(n, d, ctx, false)] + nodes_visits(n.children@, ctx)
        },
        NodeKind::TraitItemFn(d) => (if d.has_body && !attrs_skip(d.attrs@) {
            seq![visit_of(n, d, ctx, false)]
        } else {
            Seq::empty()
        }) + nodes_visits(n.children@, ctx),
        NodeKind::ItemImpl(h) => nodes_visits(n.children@, Some(impl_context(h))),
        NodeKind::ItemTrait(name) => nodes_visits(n.children@, Some(name@)),
        NodeKind::ItemMod(attrs) => if any_attr(attrs@, |a: AttrShape| attr_is_cfg_test(a)) {
            Seq::empty()
        } else {
            nodes_visits(n.children@, ctx)
        },
        _ => nodes_visits(n.children@, ctx),
    }
}

/// The functions reached from a sequence of nodes, in order.
pub open spec fn nodes_visits(ns: Seq<SyntaxNode>, ctx: Option<Seq<char>>) -> Seq<FnVisit>
    decreases ns, 0nat,
{
    if ns.len() == 0 {
        Seq::empty()
    } else {
        nodes_visits(ns.drop_last(), ctx) + node_visits(ns.last(), ctx)
    }
}

/// A function found by the walk, with references into the tree.
pub struct FunctionSite<'a> {
    pub node: &'a SyntaxNode,
    pub decl: &'a FnDecl,
    pub qualified_name: String,
    pub is_free: bool,
    pub context: Option<String>,
}

impl<'a> View for FunctionSite<'a> {
    type V = FnVisit;

    open spec fn view(&self) -> FnVisit {
        FnVisit {
            node: *self.node,
            decl: *self.decl,
            qualified_name: self.qualified_name@,
            is_free: self.is_free,
            context: opt_text(self.context),
        }
    }
}

/// The views of a list of sites.
pub open spec fn sites_view<'a>(s: Seq<FunctionSite<'a>>) -> Seq<FnVisit> {
    s.map_values(|x: FunctionSite<'a>| x@)
}

/// The name under which `name` is reported in the given context.
pub fn qualified_name(ctx: Option<&String>, name: &str) -> (s: String)
    ensures
        s@ == qualify(opt_ref_view(ctx), name@),
{
    match ctx {
        Some(c) => {
            let mut s = concat2(c.as_str(), "::");
            s.append(name);
            s
        },
        None => name.to_owned(),
    }
}

pub open spec fn opt_ref_view(o: Option<&String>) -> Option<Seq<char>> {
    match o {
        Some(s) => Some(s@),
        None => None,
    }
}

fn clone_ctx(ctx: Option<&String>) -> (c: Option<String>)
    ensures
        opt_text(c) == opt_ref_view(ctx),
{
    match ctx {
        Some(s) => Some(s.clone()),
        None => None,
    }
}

fn record<'a>(n: &'a SyntaxNode, d: &'a FnDecl, ctx: Option<&String>, is_free: bool) -> (site: FunctionSite<'a>)
    ensures
        site@ == visit_of(*n, *d, opt_ref_view(ctx), is_free),
{
    FunctionSite {
        node: n,
        decl: d,
        qualified_name: qualified_name(ctx, d.name.as_str()),
        is_free,
        context: clone_ctx(ctx),
    }
}

proof fn lemma_sites_push<'a>(s: Seq<FunctionSite<'a>>, x: FunctionSite<'a>)
    ensures
        sites_view(s.push(x)) == sites_view(s).push(x@),
{
    assert(sites_view(s.push(x)) =~= sites_view(s).push(x@));
}

fn walk_node<'a>(n: &'a SyntaxNode, ctx: Option<&String>, out: &mut Vec<FunctionSite<'a>>)
    ensures
        sites_view(final(out)@) == sites_view(old(out)@) + node_visits(*n, opt_ref_view(ctx)),
    decreases *n, 1nat,
{
    let ghost c = opt_ref_view(ctx);
    let ghost before = sites_view(out@);
    match &n.kind {
        NodeKind::ItemFn(d) => {
            if d.attrs.as_slice().should_skip() {
                assert(before =~= before + Seq::<FnVisit>::empty());
            } else {
                let site = record(n, d, ctx, true);
                proof { lemma_sites_push(out@, site); }
                out.push(site);
                walk_nodes(&n.children, ctx, out);
                assert(sites_view(out@) =~= before + (seq![visit_of(*n, *d, c, true)]
                    + nodes_visits(n.children@, c)));
            }
        },
        NodeKind::ImplItemFn(d) => {
            if d.attrs.as_slice().should_skip() {
                assert(before =~= before + Seq::<FnVisit>::empty());
            } else {
                let site = record(n, d, ctx, false);
                proof { lemma_sites_push(out@, site); }
                out.push(site);
                walk_nodes(&n.children, ctx, out);
                assert(sites_view(out@) =~= before + (seq![visit_of(*n, *d, c, false)]
                    + nodes_visits(n.children@, c)));
            }
        },
        NodeKind::TraitItemFn(d) => {
            if d.has_body && !d.attrs.as_slice().should_skip() {
                let site = record(n, d, ctx, false);
                proof { lemma_sites_push(out@, site); }
                out.push(site);
                walk_nodes(&n.children, ctx, out);
                assert(sites_view(out@) =~= before + (seq![visit_of(*n, *d, c, false)]
                    + nodes_visits(n.children@, c)));
            } else {
                walk_nodes(&n.children, ctx, out);
                assert(sites_view(out@) =~= before + (Seq::<FnVisit>::empty()
                    + nodes_visits(n.children@, c)));
            }
        },
        NodeKind::ItemImpl(h) => {
            let name = match &h.trait_path {
                Some(p) => format_path(p),
                None => format_type(&h.self_ty),
            };
            walk_nodes(&n.children, Some(&name), out);
        },
        NodeKind::ItemTrait(name) => {
            walk_nodes(&n.children, Some(name), out);
        },
        NodeKind::ItemMod(attrs) => {
            if attrs.as_slice().has_cfg_test() {
                assert(before =~= before + Seq::<FnVisit>::empty());
            } else {
                walk_nodes(&n.children, ctx, out);
            }
        },
        _ => {
            walk_nodes(&n.children, ctx, out);
        },
    }
}

fn walk_nodes<'a>(ns: &'a Vec<SyntaxNode>, ctx: Option<&String>, out: &mut Vec<FunctionSite<'a>>)
    ensures
        sites_view(final(out)@) == sites_view(old(out)@) + nodes_visits(ns@, opt_ref_view(ctx)),
    decreases ns@, 0nat,
{
    let ghost c = opt_ref_view(ctx);
    let ghost before = sites_view(out@);
    let mut i: usize = 0;
    assert(ns@.take(0) =~= Seq::<SyntaxNode>::empty());
    assert(before =~= before + Seq::<FnVisit>::empty());
    while i < ns.len()
        invariant
            i <= ns.len(),
            c == opt_ref_view(ctx),
            sites_view(out@) == before + nodes_visits(ns@.take(i as int), c),
        decreases ns.len() - i,
    {
        proof {
            assert(ns@.take(i + 1).drop_last() =~= ns@.take(i as int));
            assert(ns@.take(i + 1).last() == ns@[i as int]);
            assert(nodes_visits(ns@.take(i + 1), c)
                == nodes_visits(ns@.take(i as int), c) + node_visits(ns@[i as int], c));
        }
        let ghost mid = sites_view(out@);
        walk_node(&ns[i], ctx, out);
        proof {
            assert(sites_view(out@) == mid + node_visits(ns@[i as int], c));
            assert(sites_view(out@) =~= before + nodes_visits(ns@.take(i + 1), c));
        }
        i = i + 1;
    }
    assert(ns@.take(ns@.len() as int) =~= ns@);
}

/// The functions of a file, in the order in which a syntax-tree walk reaches
/// them, with the names they are reported under.
pub fn visit_functions<'a>(items: &'a Vec<SyntaxNode>) -> (sites: Vec<FunctionSite<'a>>)
    ensures
        sites_view(sites@) == nodes_visits(items@, None),
{
    let mut out: Vec<FunctionSite<'a>> = Vec::new();
    assert(sites_view(out@) =~= Seq::<FnVisit>::empty());
    walk_nodes(items, None, &mut out);
    assert(Seq::<FnVisit>::empty() + nodes_visits(items@, None) =~= nodes_visits(items@, None));
    out
}

/// What holds of every function the walk reports: it carries neither
/// `#[test]` nor an opt-out attribute, it is named after the innermost
/// enclosing `impl` block or trait (or bare outside them), and when it is a
/// trait method it has a default body.
pub open spec fn reportable(v: FnVisit) -> bool {
    &&& !attrs_skip(v.decl.attrs@)
    &&& v.qualified_name == qualify(v.context, v.decl.name@)
    &&& (v.node.kind is TraitItemFn ==> v.decl.has_body)
}

/// Every function reported from a node is reportable.
pub proof fn lemma_node_visits_reportable(n: SyntaxNode, ctx: Option<Seq<char>>)
    ensures
        forall|i: int| 0 <= i < node_visits(n, ctx).len() ==> reportable(#[trigger] node_visits(n, ctx)[i]),
    decreases n, 1nat,
{
    match n.kind {
        NodeKind::ItemFn(d) => {
            if !attrs_skip(d.attrs@) {
                lemma_nodes_visits_reportable(n.children@, ctx);
                let rest = nodes_visits(n.children@, ctx);
                let own = visit_of(n, d, ctx, true);
                assert(node_visits(n, ctx) == seq![own] + rest);
                assert(own.node.kind is ItemFn);
                assert(reportable(own));
                assert forall|i: int| 0 <= i < node_visits(n, ctx).len() implies reportable(#[trigger] node_visits(n, ctx)[i]) by {
                    if i > 0 {
                        assert(node_visits(n, ctx)[i] == rest[i - 1]);
                    } else {
                        assert(node_visits(n, ctx)[i] == own);
                    }
                }
            } else {
                assert(node_visits(n, ctx).len() == 0);
            }
        },
        NodeKind::ImplItemFn(d) => {
            if !attrs_skip(d.attrs@) {
                lemma_nodes_visits_reportable(n.children@, ctx);
                let rest = nodes_visits(n.children@, ctx);
                assert forall|i: int| 0 <= i < node_visits(n, ctx).len() implies reportable(#[trigger] node_visits(n, ctx)[i]) by {
                    if i > 0 {
                        assert(node_visits(n, ctx)[i] == rest[i - 1]);
                    }
                }
            }
        },
        NodeKind::TraitItemFn(d) => {
            lemma_nodes_visits_reportable(n.children@, ctx);
            let own: Seq<FnVisit> = if d.has_body && !attrs_skip(d.attrs@) {
                seq![visit_of(n, d, ctx, false)]
            } else {
                Seq::empty()
            };
            let rest = nodes_visits(n.children@, ctx);
            assert(node_visits(n, ctx) == own + rest);
            assert forall|i: int| 0 <= i < node_visits(n, ctx).len() implies reportable(#[trigger] node_visits(n, ctx)[i]) by {
                if i >= own.len() {
                    assert(node_visits(n, ctx)[i] == rest[i - own.len()]);
                }
            }
        },
        NodeKind::ItemImpl(h) => {
            lemma_nodes_visits_reportable(n.children@, Some(impl_context(h)));
            assert(node_visits(n, ctx) == nodes_visits(n.children@, Some(impl_context(h))));
        },
        NodeKind::ItemTrait(name) => {
            lemma_nodes_visits_reportable(n.children@, Some(name@));
            assert(node_visits(n, ctx) == nodes_visits(n.children@, Some(name@)));
        },
        NodeKind::ItemMod(attrs) => {
            lemma_nodes_visits_reportable(n.children@, ctx);
            if any_attr(attrs@, |a: AttrShape| attr_is_cfg_test(a)) {
                assert(node_visits(n, ctx).len() == 0);
            } else {
                assert(node_visits(n, ctx) == nodes_visits(n.children@, ctx));
            }
        },
        _ => {
            lemma_nodes_visits_reportable(n.children@, ctx);
            assert(node_visits(n, ctx) == nodes_visits(n.children@, ctx));
        },
    }
}

/// Every function the walk reports from a sequence of nodes is reportable:
/// no test or opted-out function and no trait method without a body is
/// ever reported, and each is named after its innermost context.
pub proof fn lemma_nodes_visits_reportable(ns: Seq<SyntaxNode>, ctx: Option<Seq<char>>)
    ensures
        forall|i: int| 0 <= i < nodes_visits(ns, ctx).len() ==> reportable(#[trigger] nodes_visits(ns, ctx)[i]),
    decreases ns, 0nat,
{
    if ns.len() > 0 {
        lemma_nodes_visits_reportable(ns.drop_last(), ctx);
        lemma_node_visits_reportable(ns.last(), ctx);
        let a = nodes_visits(ns.drop_last(), ctx);
        let b = node_visits(ns.last(), ctx);
        assert forall|i: int| 0 <= i < nodes_visits(ns, ctx).len() implies reportable(#[trigger] nodes_visits(ns, ctx)[i]) by {
            if i < a.len() {
                assert(nodes_visits(ns, ctx)[i] == a[i]);
            } else {
                assert(nodes_visits(ns, ctx)[i] == b[i - a.len()]);
            }
        }
    }
}

} // verus!
