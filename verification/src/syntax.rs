//! A plain model of the parts of a Rust syntax tree that the analyses read.
//!
//! A parsed file is a sequence of nodes. Each node records the kind of the
//! syntax element it stands for (with the details an analysis needs) and the
//! nodes of interest nested inside it, in the order in which a syntax-tree
//! visitor reaches them. Elements that no analysis reacts to are left out and
//! their contents are attached to the nearest enclosing node.

use vstd::prelude::*;

verus! {

/// One segment of a path, such as `Vec<u8>` in `std::vec::Vec<u8>`.
pub struct PathSegment {
    pub ident: String,
    pub args: PathArgs,
}

/// The arguments written after a path segment.
pub enum PathArgs {
    /// No arguments.
    Plain,
    /// Arguments in angle brackets, such as `<u8, T>`.
    AngleBracketed(Vec<GenericArg>),
    /// Arguments in parentheses, such as `Fn(u8)`.
    Parenthesized,
}

/// One argument in angle brackets.
pub enum GenericArg {
    Type(TypeShape),
    /// A lifetime, constant, binding or constraint.
    Other,
}

/// A path such as `::std::vec::Vec<u8>`.
pub struct PathShape {
    pub leading_colon: bool,
    pub segments: Vec<PathSegment>,
}

/// A bound in a trait object type.
pub enum BoundShape {
    Trait(PathShape),
    /// A lifetime or another kind of bound.
    Other,
}

/// The shape of a type.
pub enum TypeShape {
    Path(PathShape),
    Reference { mutable: bool, elem: Box<TypeShape> },
    Tuple(Vec<TypeShape>),
    Slice(Box<TypeShape>),
    ImplTrait,
    TraitObject(Vec<BoundShape>),
    /// Any other type.
    Other,
}

/// One parameter of a function signature.
pub enum FnInput {
    /// `self`, `&self` or `&mut self`; `mutable` tells whether `mut` was written.
    Receiver { mutable: bool },
    Typed(TypeShape),
}

/// A function signature: its parameters and its return type, `None` for `()`
/// left implicit.
pub struct SigShape {
    pub inputs: Vec<FnInput>,
    pub output: Option<TypeShape>,
}

/// An attribute such as `#[test]` or `#[allow(dead_code, crappy)]`.
pub struct AttrShape {
    /// The attribute's path, `allow` in `#[allow(x)]`.
    pub path: PathShape,
    /// The parenthesised arguments read as a comma-separated list of paths,
    /// when they can be read so.
    pub list_paths: Option<Vec<PathShape>>,
    /// The parenthesised arguments read as one identifier, when they can be
    /// read so.
    pub list_ident: Option<String>,
}

/// A function declaration: free function, method or trait method.
pub struct FnDecl {
    pub name: String,
    pub attrs: Vec<AttrShape>,
    pub sig: SigShape,
    /// False only for a trait method without a default body.
    pub has_body: bool,
    /// Line on which the function's name starts and ends.
    pub name_start_line: usize,
    pub name_end_line: usize,
    /// Line of the closing brace of the body.
    pub body_end_line: usize,
}

/// The header of an `impl` block.
pub struct ImplHeader {
    /// The trait's path in `impl Trait for Type`.
    pub trait_path: Option<PathShape>,
    pub self_ty: TypeShape,
}

/// The kind of literal in a literal pattern.
pub enum LitKind {
    Int,
    Str,
    Char,
    Other,
}

/// The shape of a pattern in a `match` arm.
pub enum PatShape {
    Lit(LitKind),
    Or(Vec<PatShape>),
    Other,
}

/// Binary operators.
pub enum BinOpKind {
    Add, Sub, Mul, Div, Rem, And, Or, BitXor, BitAnd, BitOr, Shl, Shr,
    Eq, Lt, Le, Ne, Ge, Gt,
    AddAssign, SubAssign, MulAssign, DivAssign, RemAssign,
    BitXorAssign, BitAndAssign, BitOrAssign, ShlAssign, ShrAssign,
    Other,
}

/// An operand of a binary expression: a cast `e as T` or anything else.
pub enum OperandShape {
    Cast(TypeShape),
    Other,
}

/// The kind of a node, with what the analyses read of it.
pub enum NodeKind {
    /// A free function; its children are the nodes of its body.
    ItemFn(FnDecl),
    /// A function in an `impl` block.
    ImplItemFn(FnDecl),
    /// A function in a trait.
    TraitItemFn(FnDecl),
    /// An `impl` block; its children are the nodes inside it.
    ItemImpl(ImplHeader),
    /// A trait with its name.
    ItemTrait(String),
    /// A module with its attributes.
    ItemMod(Vec<AttrShape>),
    /// A struct with its name.
    ItemStruct(String),
    If,
    Match,
    Arm(PatShape),
    While,
    ForLoop,
    Loop,
    Return,
    Try,
    Unary,
    Assign,
    Local,
    Closure,
    Binary { op: BinOpKind, left: OperandShape, right: OperandShape },
    /// A call; `callee` is the called path when the callee is a path.
    Call { callee: Option<PathShape> },
    MethodCall { method: String },
    /// A macro in expression position; `tokens_empty` tells whether nothing
    /// was written between its delimiters.
    Macro { path: PathShape, tokens_empty: bool },
}

/// A node of the model.
pub struct SyntaxNode {
    pub kind: NodeKind,
    pub children: Vec<SyntaxNode>,
}

} // verus!
