//! The analyses of complexity, function discovery and idioms, run on the
//! model of parsed Rust sources.

use cargo_crappy::complexity::{analyze_complexity, fits_complexity_counts};
use cargo_crappy::idiom::{analyze_idioms_for_file, fits_idiom_demerits, IdiomCheck};
use cargo_crappy::visitor::visit_functions;
use cargo_crappy::syntax::{
    AttrShape, BinOpKind, BoundShape, FnDecl, FnInput, GenericArg, ImplHeader, LitKind, NodeKind,
    OperandShape, PatShape, PathArgs, PathSegment, PathShape, SigShape, SyntaxNode, TypeShape,
};
use syn::punctuated::Punctuated;
use syn::visit::Visit;

/// The model of a parsed file.
fn file_model(file: &syn::File) -> Vec<SyntaxNode> {
    let mut b = Builder { stack: vec![Vec::new()] };
    for item in &file.items {
        b.visit_item(item);
    }
    b.stack.pop().unwrap_or_default()
}

struct Builder {
    stack: Vec<Vec<SyntaxNode>>,
}

impl Builder {
    fn open(&mut self) {
        self.stack.push(Vec::new());
    }

    fn close(&mut self, kind: NodeKind) {
        let children = self.stack.pop().unwrap_or_default();
        if let Some(parent) = self.stack.last_mut() {
            parent.push(SyntaxNode { kind, children });
        }
    }
}

impl<'ast> Visit<'ast> for Builder {
    fn visit_item_fn(&mut self, n: &'ast syn::ItemFn) {
        let d = fn_decl(&n.attrs, &n.sig, Some(&n.block));
        self.open();
        self.visit_block(&n.block);
        self.close(NodeKind::ItemFn(d));
    }

    fn visit_impl_item_fn(&mut self, n: &'ast syn::ImplItemFn) {
        let d = fn_decl(&n.attrs, &n.sig, Some(&n.block));
        self.open();
        self.visit_block(&n.block);
        self.close(NodeKind::ImplItemFn(d));
    }

    fn visit_trait_item_fn(&mut self, n: &'ast syn::TraitItemFn) {
        let d = fn_decl(&n.attrs, &n.sig, n.default.as_ref());
        self.open();
        if let Some(block) = &n.default {
            self.visit_block(block);
        }
        self.close(NodeKind::TraitItemFn(d));
    }

    fn visit_item_impl(&mut self, n: &'ast syn::ItemImpl) {
        let h = ImplHeader {
            trait_path: n.trait_.as_ref().map(|(_, p, _)| path_shape(p)),
            self_ty: type_shape(&n.self_ty),
        };
        self.open();
        syn::visit::visit_item_impl(self, n);
        self.close(NodeKind::ItemImpl(h));
    }

    fn visit_item_trait(&mut self, n: &'ast syn::ItemTrait) {
        self.open();
        syn::visit::visit_item_trait(self, n);
        self.close(NodeKind::ItemTrait(n.ident.to_string()));
    }

    fn visit_item_mod(&mut self, n: &'ast syn::ItemMod) {
        let attrs = n.attrs.iter().map(attr_shape).collect();
        self.open();
        syn::visit::visit_item_mod(self, n);
        self.close(NodeKind::ItemMod(attrs));
    }

    fn visit_item_struct(&mut self, n: &'ast syn::ItemStruct) {
        self.open();
        syn::visit::visit_item_struct(self, n);
        self.close(NodeKind::ItemStruct(n.ident.to_string()));
    }

    fn visit_expr_if(&mut self, n: &'ast syn::ExprIf) {
        self.open();
        syn::visit::visit_expr_if(self, n);
        self.close(NodeKind::If);
    }

    fn visit_expr_match(&mut self, n: &'ast syn::ExprMatch) {
        self.open();
        syn::visit::visit_expr_match(self, n);
        self.close(NodeKind::Match);
    }

    fn visit_arm(&mut self, n: &'ast syn::Arm) {
        self.open();
        syn::visit::visit_arm(self, n);
        self.close(NodeKind::Arm(pat_shape(&n.pat)));
    }

    fn visit_expr_while(&mut self, n: &'ast syn::ExprWhile) {
        self.open();
        syn::visit::visit_expr_while(self, n);
        self.close(NodeKind::While);
    }

    fn visit_expr_for_loop(&mut self, n: &'ast syn::ExprForLoop) {
        self.open();
        syn::visit::visit_expr_for_loop(self, n);
        self.close(NodeKind::ForLoop);
    }

    fn visit_expr_loop(&mut self, n: &'ast syn::ExprLoop) {
        self.open();
        syn::visit::visit_expr_loop(self, n);
        self.close(NodeKind::Loop);
    }

    fn visit_expr_return(&mut self, n: &'ast syn::ExprReturn) {
        self.open();
        syn::visit::visit_expr_return(self, n);
        self.close(NodeKind::Return);
    }

    fn visit_expr_try(&mut self, n: &'ast syn::ExprTry) {
        self.open();
        syn::visit::visit_expr_try(self, n);
        self.close(NodeKind::Try);
    }

    fn visit_expr_unary(&mut self, n: &'ast syn::ExprUnary) {
        self.open();
        syn::visit::visit_expr_unary(self, n);
        self.close(NodeKind::Unary);
    }

    fn visit_expr_assign(&mut self, n: &'ast syn::ExprAssign) {
        self.open();
        syn::visit::visit_expr_assign(self, n);
        self.close(NodeKind::Assign);
    }

    fn visit_local(&mut self, n: &'ast syn::Local) {
        self.open();
        syn::visit::visit_local(self, n);
        self.close(NodeKind::Local);
    }

    fn visit_expr_closure(&mut self, n: &'ast syn::ExprClosure) {
        self.open();
        syn::visit::visit_expr_closure(self, n);
        self.close(NodeKind::Closure);
    }

    fn visit_expr_binary(&mut self, n: &'ast syn::ExprBinary) {
        let kind = NodeKind::Binary {
            op: bin_op(&n.op),
            left: operand_shape(&n.left),
            right: operand_shape(&n.right),
        };
        self.open();
        syn::visit::visit_expr_binary(self, n);
        self.close(kind);
    }

    fn visit_expr_call(&mut self, n: &'ast syn::ExprCall) {
        let callee = match n.func.as_ref() {
            syn::Expr::Path(p) => Some(path_shape(&p.path)),
            _ => None,
        };
        self.open();
        syn::visit::visit_expr_call(self, n);
        self.close(NodeKind::Call { callee });
    }

    fn visit_expr_method_call(&mut self, n: &'ast syn::ExprMethodCall) {
        let method = n.method.to_string();
        self.open();
        syn::visit::visit_expr_method_call(self, n);
        self.close(NodeKind::MethodCall { method });
    }

    fn visit_expr_macro(&mut self, n: &'ast syn::ExprMacro) {
        let kind = NodeKind::Macro {
            path: path_shape(&n.mac.path),
            tokens_empty: n.mac.tokens.is_empty(),
        };
        self.open();
        syn::visit::visit_expr_macro(self, n);
        self.close(kind);
    }
}

fn fn_decl(attrs: &[syn::Attribute], sig: &syn::Signature, block: Option<&syn::Block>) -> FnDecl {
    let name_span = sig.ident.span();
    FnDecl {
        name: sig.ident.to_string(),
        attrs: attrs.iter().map(attr_shape).collect(),
        sig: sig_shape(sig),
        has_body: block.is_some(),
        name_start_line: name_span.start().line,
        name_end_line: name_span.end().line,
        body_end_line: block.map_or(0, |b| b.brace_token.span.close().end().line),
    }
}

fn attr_shape(a: &syn::Attribute) -> AttrShape {
    let list_paths = a
        .parse_args_with(Punctuated::<syn::Path, syn::token::Comma>::parse_terminated)
        .ok()
        .map(|ps| ps.iter().map(path_shape).collect());
    let list_ident = a.parse_args::<syn::Ident>().ok().map(|i| i.to_string());
    AttrShape {
        path: path_shape(a.path()),
        list_paths,
        list_ident,
    }
}

fn sig_shape(sig: &syn::Signature) -> SigShape {
    let inputs = sig
        .inputs
        .iter()
        .map(|arg| match arg {
            syn::FnArg::Receiver(r) => FnInput::Receiver {
                mutable: r.mutability.is_some(),
            },
            syn::FnArg::Typed(t) => FnInput::Typed(type_shape(&t.ty)),
        })
        .collect();
    let output = match &sig.output {
        syn::ReturnType::Default => None,
        syn::ReturnType::Type(_, ty) => Some(type_shape(ty)),
    };
    SigShape { inputs, output }
}

fn path_shape(p: &syn::Path) -> PathShape {
    PathShape {
        leading_colon: p.leading_colon.is_some(),
        segments: p
            .segments
            .iter()
            .map(|s| PathSegment {
                ident: s.ident.to_string(),
                args: match &s.arguments {
                    syn::PathArguments::None => PathArgs::Plain,
                    syn::PathArguments::AngleBracketed(a) => PathArgs::AngleBracketed(
                        a.args
                            .iter()
                            .map(|g| match g {
                                syn::GenericArgument::Type(t) => GenericArg::Type(type_shape(t)),
                                _ => GenericArg::Other,
                            })
                            .collect(),
                    ),
                    syn::PathArguments::Parenthesized(_) => PathArgs::Parenthesized,
                },
            })
            .collect(),
    }
}

fn type_shape(t: &syn::Type) -> TypeShape {
    match t {
        syn::Type::Path(tp) => TypeShape::Path(path_shape(&tp.path)),
        syn::Type::Reference(r) => TypeShape::Reference {
            mutable: r.mutability.is_some(),
            elem: Box::new(type_shape(&r.elem)),
        },
        syn::Type::Tuple(tu) => TypeShape::Tuple(tu.elems.iter().map(type_shape).collect()),
        syn::Type::Slice(s) => TypeShape::Slice(Box::new(type_shape(&s.elem))),
        syn::Type::ImplTrait(_) => TypeShape::ImplTrait,
        syn::Type::TraitObject(o) => TypeShape::TraitObject(
            o.bounds
                .iter()
                .map(|b| match b {
                    syn::TypeParamBound::Trait(tb) => BoundShape::Trait(path_shape(&tb.path)),
                    _ => BoundShape::Other,
                })
                .collect(),
        ),
        _ => TypeShape::Other,
    }
}

fn pat_shape(p: &syn::Pat) -> PatShape {
    match p {
        syn::Pat::Lit(l) => PatShape::Lit(match &l.lit {
            syn::Lit::Int(_) => LitKind::Int,
            syn::Lit::Str(_) => LitKind::Str,
            syn::Lit::Char(_) => LitKind::Char,
            _ => LitKind::Other,
        }),
        syn::Pat::Or(o) => PatShape::Or(o.cases.iter().map(pat_shape).collect()),
        _ => PatShape::Other,
    }
}

fn operand_shape(e: &syn::Expr) -> OperandShape {
    match e {
        syn::Expr::Cast(c) => OperandShape::Cast(type_shape(&c.ty)),
        _ => OperandShape::Other,
    }
}

fn bin_op(op: &syn::BinOp) -> BinOpKind {
    match op {
        syn::BinOp::Add(_) => BinOpKind::Add,
        syn::BinOp::Sub(_) => BinOpKind::Sub,
        syn::BinOp::Mul(_) => BinOpKind::Mul,
        syn::BinOp::Div(_) => BinOpKind::Div,
        syn::BinOp::Rem(_) => BinOpKind::Rem,
        syn::BinOp::And(_) => BinOpKind::And,
        syn::BinOp::Or(_) => BinOpKind::Or,
        syn::BinOp::BitXor(_) => BinOpKind::BitXor,
        syn::BinOp::BitAnd(_) => BinOpKind::BitAnd,
        syn::BinOp::BitOr(_) => BinOpKind::BitOr,
        syn::BinOp::Shl(_) => BinOpKind::Shl,
        syn::BinOp::Shr(_) => BinOpKind::Shr,
        syn::BinOp::Eq(_) => BinOpKind::Eq,
        syn::BinOp::Lt(_) => BinOpKind::Lt,
        syn::BinOp::Le(_) => BinOpKind::Le,
        syn::BinOp::Ne(_) => BinOpKind::Ne,
        syn::BinOp::Ge(_) => BinOpKind::Ge,
        syn::BinOp::Gt(_) => BinOpKind::Gt,
        syn::BinOp::AddAssign(_) => BinOpKind::AddAssign,
        syn::BinOp::SubAssign(_) => BinOpKind::SubAssign,
        syn::BinOp::MulAssign(_) => BinOpKind::MulAssign,
        syn::BinOp::DivAssign(_) => BinOpKind::DivAssign,
        syn::BinOp::RemAssign(_) => BinOpKind::RemAssign,
        syn::BinOp::BitXorAssign(_) => BinOpKind::BitXorAssign,
        syn::BinOp::BitAndAssign(_) => BinOpKind::BitAndAssign,
        syn::BinOp::BitOrAssign(_) => BinOpKind::BitOrAssign,
        syn::BinOp::ShlAssign(_) => BinOpKind::ShlAssign,
        syn::BinOp::ShrAssign(_) => BinOpKind::ShrAssign,
        _ => BinOpKind::Other,
    }
}


fn model(source: &str) -> Vec<SyntaxNode> {
    file_model(&syn::parse_file(source).expect("test source must parse"))
}

fn cc(source: &str) -> Vec<(String, u32)> {
    analyze_complexity("test.rs", &model(source))
        .into_iter()
        .map(|f| (f.qualified_name, f.complexity))
        .collect()
}

fn visit(source: &str) -> Vec<(String, bool)> {
    let items = model(source);
    visit_functions(&items)
        .into_iter()
        .map(|s| (s.qualified_name, s.is_free))
        .collect()
}

fn demerits_for(source: &str) -> u32 {
    let results = analyze_idioms_for_file("test.rs", &model(source));
    assert_eq!(
        results.len(),
        1,
        "expected 1 function, got {}",
        results.len()
    );
    results[0].demerits
}

fn all_demerits(source: &str) -> Vec<(String, u32)> {
    analyze_idioms_for_file("test.rs", &model(source))
        .into_iter()
        .map(|f| (f.qualified_name, f.demerits))
        .collect()
}

// --- complexity ---

#[test]
fn trivial_function() {
    let r = cc("fn add(a: i32, b: i32) -> i32 { a + b }");
    assert_eq!(r, vec![("add".into(), 1)]);
}

#[test]
fn single_if() {
    let r = cc("fn f(x: bool) { if x { } }");
    assert_eq!(r[0].1, 2);
}

#[test]
fn if_else() {
    let r = cc("fn f(x: bool) { if x { } else { } }");
    assert_eq!(r[0].1, 2);
}

#[test]
fn nested_if() {
    let r = cc("fn f(a: bool, b: bool) { if a { if b { } } }");
    assert_eq!(r[0].1, 3);
}

#[test]
fn match_arms() {
    let r = cc("fn f(x: i32) { match x { 1 => {}, 2 => {}, _ => {} } }");
    assert_eq!(r[0].1, 4);
}

#[test]
fn while_loop() {
    let r = cc("fn f() { while true { } }");
    assert_eq!(r[0].1, 2);
}

#[test]
fn for_loop() {
    let r = cc("fn f() { for _ in 0..10 { } }");
    assert_eq!(r[0].1, 2);
}

#[test]
fn infinite_loop() {
    let r = cc("fn f() { loop { break; } }");
    assert_eq!(r[0].1, 2);
}

#[test]
fn logical_and_or() {
    let r = cc("fn f(a: bool, b: bool, c: bool) -> bool { a && b || c }");
    assert_eq!(r[0].1, 3);
}

#[test]
fn try_operator() {
    let r = cc("fn f() -> Result<(), ()> { let _ = Ok::<(), ()>(()).map(|_| ())?; Ok(()) }");
    assert_eq!(r[0].1, 2);
}

#[test]
fn closure_not_counted() {
    let r = cc("fn f() { let _ = |x: bool| { if x { 1 } else { 2 } }; }");
    assert_eq!(r[0].1, 1);
}

#[test]
fn complexity_impl_method_qualified() {
    let r = cc("struct S; impl S { fn method(&self) {} }");
    assert_eq!(r[0].0, "S::method");
    assert_eq!(r[0].1, 1);
}

#[test]
fn complexity_trait_default_method() {
    let r = cc("trait T { fn default_method(&self) { if true {} } }");
    assert_eq!(r[0].0, "T::default_method");
    assert_eq!(r[0].1, 2);
}

#[test]
fn test_functions_skipped() {
    let r = cc("#[test] fn test_something() { if true {} }");
    assert!(r.is_empty());
}

#[test]
fn complexity_cfg_test_module_skipped() {
    let r = cc("fn visible() {} #[cfg(test)] mod tests { fn hidden() {} }");
    assert_eq!(r.len(), 1);
    assert_eq!(r[0].0, "visible");
}

#[test]
fn combined_complexity() {
    let r = cc("fn complex(x: i32, flag: bool) -> Result<(), ()> {
            if flag && x > 0 {
                match x {
                    1 => {},
                    2 => {},
                    _ => {},
                }
            }
            for _ in 0..x {
                let _ = Ok::<(), ()>(())?;
            }
            Ok(())
        }");
    assert_eq!(r[0].1, 8);
}

#[test]
fn nested_function_counted_in_outer_and_alone() {
    let r = cc("fn outer(a: bool) { fn inner(b: bool) { if b {} } if a {} }");
    assert_eq!(r, vec![("outer".into(), 3), ("inner".into(), 2)]);
}

#[test]
fn crappy_allow_in_allow_list_skips_function() {
    let r = cc("#[allow(unknown_lints, crappy)] fn skipped() { if true {} } fn kept() {}");
    assert_eq!(r, vec![("kept".into(), 1)]);
}

#[test]
fn function_lines_span_name_to_closing_brace() {
    let items = model("\nfn f() {\n    let x = 1;\n}\n");
    let r = analyze_complexity("lib.rs", &items);
    assert_eq!(r.len(), 1);
    assert_eq!(r[0].file, "lib.rs");
    assert_eq!(r[0].start_line, 2);
    assert_eq!(r[0].end_line, 4);
}

// --- function discovery ---

#[test]
fn free_function() {
    let calls = visit("fn foo() {}");
    assert_eq!(calls, vec![("foo".into(), true)]);
}

#[test]
fn visitor_impl_method_qualified() {
    let calls = visit("struct S; impl S { fn bar(&self) {} }");
    assert_eq!(calls, vec![("S::bar".into(), false)]);
}

#[test]
fn trait_impl_qualified() {
    let calls = visit("struct S; trait T { fn m(&self); } impl T for S { fn m(&self) {} }");
    assert_eq!(calls, vec![("T::m".into(), false)]);
}

#[test]
fn visitor_trait_default_method() {
    let calls = visit("trait T { fn default_m(&self) {} }");
    assert_eq!(calls, vec![("T::default_m".into(), false)]);
}

#[test]
fn trait_abstract_method_skipped() {
    let calls = visit("trait T { fn abstract_m(&self); } fn f() {}");
    assert_eq!(calls, vec![("f".into(), true)]);
}

#[test]
fn test_function_skipped() {
    let calls = visit("#[test] fn test_something() {} fn real() {}");
    assert_eq!(calls, vec![("real".into(), true)]);
}

#[test]
fn test_impl_method_skipped() {
    let calls = visit("struct S; impl S { #[test] fn test_m(&self) {} fn real(&self) {} }");
    assert_eq!(calls, vec![("S::real".into(), false)]);
}

#[test]
fn visitor_cfg_test_module_skipped() {
    let calls = visit("fn visible() {} #[cfg(test)] mod tests { fn hidden() {} }");
    assert_eq!(calls, vec![("visible".into(), true)]);
}

#[test]
fn crappy_allow_skips_free_fn() {
    let calls = visit("#[crappy_allow] fn skip() {} fn keep() {}");
    assert_eq!(calls, vec![("keep".into(), true)]);
}

#[test]
fn crappy_allow_skips_impl_method() {
    let calls = visit("struct S; impl S { #[crappy_allow] fn skip(&self) {} fn keep(&self) {} }");
    assert_eq!(calls, vec![("S::keep".into(), false)]);
}

#[test]
fn crappy_allow_skips_trait_default() {
    let calls = visit("trait T { #[crappy_allow] fn skip(&self) {} fn keep(&self) {} }");
    assert_eq!(calls, vec![("T::keep".into(), false)]);
}

#[test]
fn context_cleaned_after_impl() {
    let calls = visit("struct A; impl A { fn m(&self) {} } fn free() {}");
    assert_eq!(calls.len(), 2);
    assert_eq!(calls[0].0, "A::m");
    assert_eq!(calls[1].0, "free");
}

#[test]
fn context_cleaned_after_trait() {
    let calls = visit("trait T { fn m(&self) {} } fn free() {}");
    assert_eq!(calls.len(), 2);
    assert_eq!(calls[0].0, "T::m");
    assert_eq!(calls[1].0, "free");
}

#[test]
fn generic_impl_named_by_last_segment() {
    let calls = visit("impl<T> std::vec::Vec<T> { fn g(&self) {} } impl (u8, u8) { fn h(&self) {} }");
    assert_eq!(calls, vec![("Vec::g".into(), false), ("_::h".into(), false)]);
}

#[test]
fn function_in_closure_found() {
    let calls = visit("fn f() { let c = || { fn inner() {} }; }");
    assert_eq!(calls, vec![("f".into(), true), ("inner".into(), true)]);
}

// --- idioms ---

#[test]
fn free_fn_with_struct_ref_param() {
    assert_eq!(demerits_for("struct Foo; fn do_thing(f: &Foo) {}"), 2);
}

#[test]
fn free_fn_with_mut_struct_ref_param() {
    assert_eq!(demerits_for("struct Bar; fn do_thing(b: &mut Bar) {}"), 2);
}

#[test]
fn free_fn_with_primitive_param_is_clean() {
    assert_eq!(demerits_for("fn add(a: i32, b: i32) -> i32 { a + b }"), 0);
}

#[test]
fn method_not_flagged() {
    assert_eq!(demerits_for("struct S; impl S { fn method(&self) {} }"), 0);
}

#[test]
fn free_fn_with_unknown_struct_not_flagged() {
    assert_eq!(demerits_for("fn process(f: &SomeExternalType) {}"), 0);
}

#[test]
fn match_on_ints() {
    assert_eq!(
        demerits_for("fn f(x: i32) { match x { 1 => {}, 2 => {}, _ => {} } }"),
        2
    );
}

#[test]
fn match_on_strings() {
    assert_eq!(
        demerits_for("fn f(x: &str) { match x { \"a\" => {}, \"b\" => {}, _ => {} } }"),
        2
    );
}

#[test]
fn match_on_single_literal_not_flagged() {
    assert_eq!(
        demerits_for("fn f(x: i32) { match x { 1 => {}, _ => {} } }"),
        0
    );
}

#[test]
fn match_on_enum_variants_clean() {
    assert_eq!(
        demerits_for("enum E { A, B } fn f(e: E) { match e { E::A => {}, E::B => {} } }"),
        0
    );
}

#[test]
fn cast_in_comparison() {
    assert_eq!(
        demerits_for("fn f(x: u32, y: u64) -> bool { x as u64 > y }"),
        2
    );
}

#[test]
fn cast_in_arithmetic() {
    assert_eq!(demerits_for("fn f(x: u32) -> u64 { x as u64 + 1 }"), 2);
}

#[test]
fn cast_for_indexing_not_flagged() {
    assert_eq!(
        demerits_for("fn f(v: &[u8], i: u32) -> u8 { v[i as usize] }"),
        0
    );
}

#[test]
fn unwrap_detected() {
    assert_eq!(demerits_for("fn f() { let _ = Some(1).unwrap(); }"), 1);
}

#[test]
fn expect_not_flagged() {
    assert_eq!(
        demerits_for("fn f() { let _ = Some(1).expect(\"msg\"); }"),
        0
    );
}

#[test]
fn explicit_drop() {
    assert_eq!(demerits_for("fn f() { let x = 1; drop(x); }"), 1);
}

#[test]
fn empty_vec_macro() {
    assert_eq!(demerits_for("fn f() { let _: Vec<i32> = vec![]; }"), 1);
}

#[test]
fn vec_with_elements_clean() {
    assert_eq!(demerits_for("fn f() { let _ = vec![1, 2]; }"), 0);
}

#[test]
fn from_iter_method_call() {
    assert_eq!(
        demerits_for("fn f() { let _: Vec<i32> = Vec::from_iter([1, 2].iter().copied()); }"),
        1
    );
}

#[test]
fn box_dyn_error_in_return() {
    assert_eq!(
        demerits_for("fn f() -> Result<(), Box<dyn std::error::Error>> { Ok(()) }"),
        1
    );
}

#[test]
fn box_dyn_error_short_path() {
    assert_eq!(
        demerits_for("fn f() -> Result<(), Box<dyn Error>> { Ok(()) }"),
        1
    );
}

#[test]
fn concrete_error_type_clean() {
    assert_eq!(
        demerits_for("struct MyError; fn f() -> Result<(), MyError> { Ok(()) }"),
        0
    );
}

#[test]
fn unwrap_in_closure_not_counted() {
    assert_eq!(demerits_for("fn f() { let _ = || Some(1).unwrap(); }"), 0);
}

#[test]
fn multiple_violations_accumulate() {
    let r =
        all_demerits("fn f() { let _ = Some(1).unwrap(); let _ = Some(2).unwrap(); drop(3); }");
    assert_eq!(r[0].1, 3);
}

#[test]
fn high_weight_checks() {
    assert_eq!(IdiomCheck::FreeMethodCandidate.weight(), 2);
    assert_eq!(IdiomCheck::MatchOnLiteral.weight(), 2);
    assert_eq!(IdiomCheck::PrimitiveCastInComparison.weight(), 2);
}

#[test]
fn low_weight_checks() {
    assert_eq!(IdiomCheck::Unwrap.weight(), 1);
    assert_eq!(IdiomCheck::ExplicitDrop.weight(), 1);
    assert_eq!(IdiomCheck::EmptyVecMacro.weight(), 1);
    assert_eq!(IdiomCheck::FromIterInsteadOfCollect.weight(), 1);
    assert_eq!(IdiomCheck::BoxDynError.weight(), 1);
}

#[test]
fn clean_function_zero_demerits() {
    assert_eq!(demerits_for("fn add(a: i32, b: i32) -> i32 { a + b }"), 0);
}

#[test]
fn trait_default_method_checked() {
    let r = all_demerits("trait T { fn default_impl(&self) { let _ = Some(1).unwrap(); } }");
    assert_eq!(r.len(), 1);
    assert_eq!(r[0].0, "T::default_impl");
    assert_eq!(r[0].1, 1);
}

#[test]
fn trait_method_without_body_skipped() {
    let r = all_demerits("trait T { fn abstract_method(&self); } fn f() {}");
    assert_eq!(r.len(), 1);
    assert_eq!(r[0].0, "f");
}

#[test]
fn idiom_cfg_test_module_skipped() {
    let r = all_demerits(
        "fn visible() { let _ = Some(1).unwrap(); }
         #[cfg(test)] mod tests { fn hidden() { let _ = Some(1).unwrap(); } }",
    );
    assert_eq!(r.len(), 1);
    assert_eq!(r[0].0, "visible");
}

#[test]
fn match_on_chars() {
    assert_eq!(
        demerits_for("fn f(c: char) { match c { 'a' => {}, 'b' => {}, _ => {} } }"),
        2
    );
}

#[test]
fn match_or_pattern_with_literals() {
    assert_eq!(
        demerits_for("fn f(x: i32) { match x { 1 | 2 => {}, 3 | 4 => {}, _ => {} } }"),
        2
    );
}

#[test]
fn from_iter_function_call() {
    assert_eq!(
        demerits_for(
            "fn f() { let _: Vec<i32> = std::iter::FromIterator::from_iter(vec![1]); }"
        ),
        1
    );
}

#[test]
fn box_dyn_error_with_send_sync() {
    assert_eq!(
        demerits_for("fn f() -> Result<(), Box<dyn Error + Send + Sync>> { Ok(()) }"),
        1
    );
}

#[test]
fn sig_fingerprint_includes_impl_context() {
    let items = model("struct A; struct B; impl A { fn m(&self) {} } impl B { fn m(&self) {} }");
    let results = analyze_idioms_for_file("test.rs", &items);
    assert_eq!(results.len(), 2);
    assert_ne!(results[0].sig_fingerprint, results[1].sig_fingerprint);
}

#[test]
fn body_fingerprint_same_structure() {
    let items = model("fn a(x: bool) { if x { } } fn b(y: bool) { if y { } }");
    let results = analyze_idioms_for_file("test.rs", &items);
    assert_eq!(results[0].body_fingerprint, results[1].body_fingerprint);
}

#[test]
fn body_fingerprint_different_structure() {
    let items = model("fn a(x: bool) { if x { } } fn b() { loop { break; } }");
    let results = analyze_idioms_for_file("test.rs", &items);
    assert_ne!(results[0].body_fingerprint, results[1].body_fingerprint);
}

#[test]
fn signature_fingerprint_text() {
    let items = model(
        "struct A; impl A { fn m(&mut self, v: &[u8], t: (u8, String), o: Option<Vec<i32>>) -> impl Fn() { || {} } }",
    );
    let results = analyze_idioms_for_file("test.rs", &items);
    assert_eq!(
        results[0].sig_fingerprint,
        "(&mut A,&[u8],(u8,String),Option<Vec<i32>>)->impl_"
    );
}

#[test]
fn body_fingerprint_is_sixteen_hex_digits() {
    let items = model("fn a() {}");
    let results = analyze_idioms_for_file("test.rs", &items);
    let fp = &results[0].body_fingerprint;
    assert_eq!(fp.len(), 16);
    assert!(fp.chars().all(|c| c.is_ascii_hexdigit() && !c.is_ascii_uppercase()));
}

#[test]
fn checks_listed_in_order_found() {
    let items = model("struct S; fn f(s: &S) -> Box<dyn Error> { let x = Some(1).unwrap(); drop(x); todo() }");
    let results = analyze_idioms_for_file("test.rs", &items);
    assert_eq!(
        results[0].checks,
        vec![
            IdiomCheck::FreeMethodCandidate,
            IdiomCheck::BoxDynError,
            IdiomCheck::Unwrap,
            IdiomCheck::ExplicitDrop,
        ]
    );
    assert_eq!(results[0].demerits, 5);
}

#[test]
fn suggestions_name_the_fix() {
    assert_eq!(
        IdiomCheck::Unwrap.suggestion(),
        ".unwrap() call — use `?` or `.expect(\"reason\")`"
    );
    assert_eq!(
        IdiomCheck::EmptyVecMacro.suggestion(),
        "vec![] for empty vector — use Vec::new()"
    );
}

#[test]
fn complexity_and_idiom_records_line_up() {
    let items = model("struct S;\nimpl S {\n    fn a(&self) {}\n}\nfn b() {\n    if true {}\n}\n");
    let c = analyze_complexity("f.rs", &items);
    let i = analyze_idioms_for_file("f.rs", &items);
    assert_eq!(c.len(), i.len());
    for (x, y) in c.iter().zip(i.iter()) {
        assert_eq!(x.qualified_name, y.qualified_name);
        assert_eq!(x.file, y.file);
        assert_eq!((x.start_line, x.end_line), (y.start_line, y.end_line));
    }
}

#[test]
fn ordinary_files_fit_the_counters() {
    let items = model("fn f(x: Option<u8>) -> u8 { if x.is_some() { x.unwrap() } else { 0 } }");
    assert!(fits_complexity_counts(&items));
    assert!(fits_idiom_demerits(&items));
}
