//! The parts of a JavaScript syntax tree that the transform reads and
//! writes: expressions down to the shapes it tells apart, object literals,
//! call expressions and JSX opening elements.  Every node carries the
//! source span that diagnostics point at, and every property and JSX
//! attribute the index it had in the tree it was read from, so that the
//! rewritten list can be mapped back onto that tree.

use vstd::prelude::*;

verus! {

/// A source span: byte positions of the start and the end.
#[derive(Clone, Copy, Debug, PartialEq, Eq, Structural)]
pub struct Span {
    pub lo: u32,
    pub hi: u32,
}

/// An expression with its span.
#[derive(Debug, PartialEq, Eq)]
pub struct Expr {
    pub span: Span,
    pub kind: ExprKind,
}

/// The shapes of expression that the transform tells apart.
#[derive(Debug, PartialEq, Eq)]
pub enum ExprKind {
    /// A string literal read from the source, with its value.
    Str(String),
    /// A string literal written by the transform.
    Generated(String),
    /// A number literal.
    Num,
    /// A boolean literal.
    Bool,
    /// `null`.
    Null,
    /// Any other literal (regular expression, big integer, JSX text).
    OtherLit,
    /// An identifier reference, with its name.
    Ident(String),
    /// A binary expression.
    Bin,
    /// A template literal: how many quasis and interpolated expressions it
    /// has, and the cooked text of its first quasi (absent when the quasi
    /// holds an invalid escape, or there is none).
    Tpl { quasis: usize, exprs: usize, first_cooked: Option<String> },
    /// A call expression.
    Call,
    /// A member access, with its property.
    Member(MemberProp),
    /// A conditional (ternary) expression.
    Cond,
    /// An object literal.
    Object(ObjectLit),
    /// An array literal.
    Array,
    /// A parenthesised expression.
    Paren,
    /// A TypeScript wrapper (`as`, type assertion, non-null `!`, `as const`,
    /// `satisfies`) around an expression.
    Ts(Box<Expr>),
    /// Any other expression.
    Other,
}

/// The property of a member access.
#[derive(Debug, PartialEq, Eq)]
pub enum MemberProp {
    /// `obj.name`
    Ident(String),
    /// `obj[expr]`
    Computed(Box<Expr>),
    /// `obj.#name`
    PrivateName,
}

/// The key of an object property.
#[derive(Debug, PartialEq, Eq)]
pub enum PropName {
    Ident(String),
    Str(String),
    Computed(Span),
    Num(Span),
    BigInt(Span),
}

/// An object property, with the index it had in the literal it was read
/// from (none for a property the transform added).
#[derive(Debug, PartialEq, Eq)]
pub struct Prop {
    pub origin: Option<usize>,
    pub kind: PropKind,
}

/// The kinds of object property.  The spans are those that diagnostics
/// point at: the `...` of a spread, the identifier of a shorthand, the
/// function of a method, the whole property otherwise.
#[derive(Debug, PartialEq, Eq)]
pub enum PropKind {
    Spread(Span),
    KeyValue { key: PropName, value: Expr },
    Shorthand { name: String, span: Span },
    Method { key: PropName, span: Span },
    Getter(Span),
    Setter(Span),
    Assign(Span),
}

/// An object literal.
#[derive(Debug, PartialEq, Eq)]
pub struct ObjectLit {
    pub props: Vec<Prop>,
}

/// A call expression; `callee` is absent for `super(...)` and `import(...)`.
#[derive(Debug, PartialEq, Eq)]
pub struct CallExpr {
    pub span: Span,
    pub callee: Option<Expr>,
    pub args: Vec<Expr>,
}

/// The name of a JSX attribute.
#[derive(Debug, PartialEq, Eq)]
pub enum JsxAttrName {
    Ident(String),
    Namespaced,
}

/// The value of a JSX attribute.
#[derive(Debug, PartialEq, Eq)]
pub enum JsxAttrValue {
    /// A string literal read from the source.
    Str(String),
    /// A string literal written by the transform.
    Generated(String),
    /// `{expr}`, or `{}` when `expr` is absent.
    ExprContainer { span: Span, expr: Option<Expr> },
    /// A JSX element.
    Element(Span),
    /// A JSX fragment.
    Fragment(Span),
}

/// A JSX attribute, with the index it had in the element it was read from
/// (none for an attribute the transform added).
#[derive(Debug, PartialEq, Eq)]
pub struct JsxAttr {
    pub origin: Option<usize>,
    pub kind: JsxAttrKind,
}

/// A spread attribute, or a named attribute with an optional value.
#[derive(Debug, PartialEq, Eq)]
pub enum JsxAttrKind {
    Spread,
    Attr { span: Span, name: JsxAttrName, value: Option<JsxAttrValue> },
}

/// A JSX opening element; `name` is the element name when it is a plain
/// identifier.
#[derive(Debug, PartialEq, Eq)]
pub struct JsxOpening {
    pub span: Span,
    pub name: Option<String>,
    pub attrs: Vec<JsxAttr>,
}

} // verus!
