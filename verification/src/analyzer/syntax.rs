//! The syntax that the analysis reads.
//!
//! A source file is handed to the analysis as a tree of these values. The
//! tree keeps what the analysis looks at: items, function bodies, calls,
//! method calls, local bindings and paths. Everything else of the source is
//! kept only as the list of what it contains, in the order of the source.

use crate::qualified_name::{join, join_segments, views};
use vstd::prelude::*;

verus! {

/// A path as the source writes it, segment by segment, without the
/// arguments of generics.
pub struct Path {
    pub segments: Vec<String>,
}

/// A type, as far as the analysis tells types apart.
pub enum Type {
    /// A type named by a path.
    Path(Path),
    /// Any other type: a reference, a tuple, a slice and so on.
    Other,
}

/// The pattern of a local binding.
pub enum Pat {
    /// A single name.
    Ident(String),
    /// A pattern with a type behind a colon.
    Typed { pat: Box<Pat>, ty: Type },
    /// Any other pattern.
    Other,
}

/// An attribute: the name in front, or the empty text where that is not a
/// single name, and the text of what follows it.
pub struct Attribute {
    pub path: String,
    pub tokens: String,
}

/// A call: the expression that is called, and the arguments.
pub struct ExprCall {
    pub func: Box<Expr>,
    pub args: Vec<Expr>,
}

/// A method call: the receiver, the method's name, and the arguments.
pub struct ExprMethodCall {
    pub receiver: Box<Expr>,
    pub method: String,
    pub args: Vec<Expr>,
}

/// An expression.
pub enum Expr {
    /// A path that stands as an expression.
    Path(Path),
    Call(ExprCall),
    MethodCall(ExprMethodCall),
    /// A block of statements.
    Block(Vec<Stmt>),
    /// Any other expression, with the expressions that it contains.
    Other(Vec<Expr>),
}

/// A local binding: `let`, a pattern, and what it is initialised with.
pub struct Local {
    pub pat: Pat,
    pub init: Option<Expr>,
}

/// A statement.
pub enum Stmt {
    Local(Local),
    Item(Item),
    Expr(Expr),
}

/// A free function.
pub struct ItemFn {
    pub ident: String,
    /// The type behind the arrow, where the signature has one.
    pub output: Option<Type>,
    pub block: Vec<Stmt>,
}

/// A method of an implementation block.
pub struct ImplItemMethod {
    pub ident: String,
    /// The type behind the arrow, where the signature has one.
    pub output: Option<Type>,
    pub block: Vec<Stmt>,
}

/// An item of an implementation block.
pub enum ImplItem {
    Method(ImplItemMethod),
    /// Any other item, with the expressions that it contains.
    Other(Vec<Expr>),
}

/// An implementation block: the type that it implements, and its items.
pub struct ItemImpl {
    pub self_ty: Type,
    pub items: Vec<ImplItem>,
}

/// A module with its attributes and, where it has a body, its items.
pub struct ItemMod {
    pub attrs: Vec<Attribute>,
    pub content: Vec<Item>,
}

/// An item of a file, of a module or of a block.
pub enum Item {
    Fn(ItemFn),
    Impl(ItemImpl),
    Mod(ItemMod),
    /// Any other item, with the expressions that it contains.
    Other(Vec<Expr>),
}

/// A source file.
pub struct File {
    pub items: Vec<Item>,
}

impl View for Path {
    type V = Seq<char>;

    /// The text of the path: its segments joined by `::`.
    open spec fn view(&self) -> Seq<char> {
        join(views(self.segments@))
    }
}

impl Path {
    /// The text of the path.
    pub fn text(&self) -> (text: String)
        ensures
            text@ == self@,
    {
        join_segments(&self.segments)
    }
}

} // verus!
