//! The syntax tree, with the spans that patches need.
use crate::span::Span;
use vstd::prelude::*;

verus! {

#[derive(Clone, Copy, PartialEq, Eq, Structural, Debug)]
pub enum UnOp {
    Not,
    Neg,
}

#[derive(Clone, Copy, PartialEq, Eq, Structural, Debug)]
pub enum BinOp {
    Add,
    Sub,
    Mul,
    Div,
    Rem,
    Eq,
    Ne,
    Lt,
    Le,
    Gt,
    Ge,
    And,
    Or,
}

/// An expression. A numeric literal keeps the text it was written as.
#[derive(Debug)]
pub enum Expr {
    Int(String, Span),
    Float(String, Span),
    Str(String, Span),
    Bool(bool, Span),
    Ident(String, Span),
    Unary { op: UnOp, expr: Box<Expr>, span: Span },
    Binary { op: BinOp, lhs: Box<Expr>, rhs: Box<Expr>, span: Span },
    Field { recv: Box<Expr>, name: String, span: Span },
    Try { expr: Box<Expr>, span: Span },
    MakeOk(Box<Expr>, Span),
    MakeErr(Box<Expr>, Span),
    Record { name: Option<String>, fields: Vec<(String, Expr)>, span: Span },
    Call { callee: Box<Expr>, args: Vec<Expr>, span: Span },
    Method { recv: Box<Expr>, name: String, args: Vec<Expr>, span: Span },
}

impl Expr {
    /// Where the expression stands.
    pub open spec fn place(self) -> Span {
        match self {
            Expr::Int(_, span) => span,
            Expr::Float(_, span) => span,
            Expr::Str(_, span) => span,
            Expr::Bool(_, span) => span,
            Expr::Ident(_, span) => span,
            Expr::Unary { span, .. } => span,
            Expr::Binary { span, .. } => span,
            Expr::Field { span, .. } => span,
            Expr::Try { span, .. } => span,
            Expr::MakeOk(_, span) => span,
            Expr::MakeErr(_, span) => span,
            Expr::Record { span, .. } => span,
            Expr::Call { span, .. } => span,
            Expr::Method { span, .. } => span,
        }
    }

    /// Where the expression stands.
    pub fn span(&self) -> (r: Span)
        ensures
            r == self.place(),
    {
        match self {
            Expr::Int(_, span) => *span,
            Expr::Float(_, span) => *span,
            Expr::Str(_, span) => *span,
            Expr::Bool(_, span) => *span,
            Expr::Ident(_, span) => *span,
            Expr::Unary { span, .. } => *span,
            Expr::Binary { span, .. } => *span,
            Expr::Field { span, .. } => *span,
            Expr::Try { span, .. } => *span,
            Expr::MakeOk(_, span) => *span,
            Expr::MakeErr(_, span) => *span,
            Expr::Record { span, .. } => *span,
            Expr::Call { span, .. } => *span,
            Expr::Method { span, .. } => *span,
        }
    }
}

#[derive(Debug)]
pub enum Stmt {
    Let { name: String, value: Expr, span: Span },
    Return { value: Option<Expr>, span: Span },
    Ensure { cond: Expr, els: Option<Expr>, span: Span },
    If { cond: Expr, then: Block, els: Option<Block>, span: Span },
    Expr(Expr),
}

#[derive(Debug)]
pub struct Block {
    pub stmts: Vec<Stmt>,
}

/// A type as it is written.
#[derive(Debug)]
pub enum TypeExpr {
    Record { fields: Vec<(String, TypeExpr)>, span: Span },
    Name { name: String, args: Vec<TypeExpr>, span: Span },
}

impl TypeExpr {
    /// Where the type is written.
    pub open spec fn place(self) -> Span {
        match self {
            TypeExpr::Record { span, .. } => span,
            TypeExpr::Name { span, .. } => span,
        }
    }

    /// Where the type is written.
    pub fn span(&self) -> (r: Span)
        ensures
            r == self.place(),
    {
        match self {
            TypeExpr::Record { span, .. } => *span,
            TypeExpr::Name { span, .. } => *span,
        }
    }
}

#[derive(Debug)]
pub struct Param {
    pub name: String,
    pub ty: TypeExpr,
}

#[derive(Debug)]
pub struct EffectName {
    pub name: String,
    pub span: Span,
}

/// `effects [a, b]`: `list_span` covers what stands between the brackets,
/// `full_span` the whole clause.
#[derive(Debug)]
pub struct EffectClause {
    pub effects: Vec<EffectName>,
    pub list_span: Span,
    pub full_span: Span,
}

#[derive(Debug)]
pub struct FnDecl {
    pub name: String,
    pub name_span: Span,
    pub params: Vec<Param>,
    pub ret: Option<TypeExpr>,
    pub effects: Option<EffectClause>,
    /// The offset of the `{` that opens the body.
    pub brace_offset: usize,
    pub body: Block,
}

#[derive(Debug)]
pub struct TestDecl {
    pub name: String,
    pub body: Block,
}

#[derive(Debug)]
pub struct TypeDecl {
    pub name: String,
    pub ty: TypeExpr,
}

#[derive(Debug)]
pub enum Item {
    Fn(FnDecl),
    Test(TestDecl),
    Type(TypeDecl),
}

/// One parsed file. `last_import_end` is the offset behind the last import, and
/// zero where there is none.
#[derive(Debug)]
pub struct Module {
    pub items: Vec<Item>,
    pub last_import_end: usize,
}

/// An expression stands where it is written: its place is the span it was given.
pub proof fn law_expressions_stand_where_written(e: Expr, span: Span)
    ensures
        (match e {
            Expr::Int(_, s) => s == span,
            Expr::Float(_, s) => s == span,
            Expr::Str(_, s) => s == span,
            Expr::Bool(_, s) => s == span,
            Expr::Ident(_, s) => s == span,
            Expr::MakeOk(_, s) => s == span,
            Expr::MakeErr(_, s) => s == span,
            Expr::Unary { span: s, .. } => s == span,
            Expr::Binary { span: s, .. } => s == span,
            Expr::Field { span: s, .. } => s == span,
            Expr::Try { span: s, .. } => s == span,
            Expr::Record { span: s, .. } => s == span,
            Expr::Call { span: s, .. } => s == span,
            Expr::Method { span: s, .. } => s == span,
        }) <==> e.place() == span,
{
}

/// A type stands where it is written.
pub proof fn law_types_stand_where_written(t: TypeExpr, at: Span)
    ensures
        (match t {
            TypeExpr::Record { span, .. } => span == at,
            TypeExpr::Name { span, .. } => span == at,
        }) <==> t.place() == at,
{
}

} // verus!
