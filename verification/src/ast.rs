//! The syntax tree of a program, and its model as plain values: strings become
//! character sequences and vectors become sequences.
use vstd::prelude::*;

verus! {

pub enum Type {
    I32,
    StringType,
    Array(Box<Type>, usize),
}

#[derive(Clone, Copy, PartialEq, Eq, Structural)]
pub enum UnaryOp {
    Neg,
    Not,
    BitNot,
}

#[derive(Clone, Copy, PartialEq, Eq, Structural)]
pub enum BinaryOp {
    Add,
    Sub,
    Mul,
    Div,
    Rem,
    Eq,
    NotEq,
    Less,
    LessEq,
    Greater,
    GreaterEq,
    And,
    Or,
    BitAnd,
    BitOr,
    Xor,
}

pub enum Expr {
    Number(i32),
    String(String),
    Variable(String),
    UnaryOp(UnaryOp, Box<Expr>),
    BinaryOp(Box<Expr>, BinaryOp, Box<Expr>),
    FunctionCall(String, Vec<Expr>),
    ArrayInit(Vec<Expr>),
    ArrayAccess(String, Box<Expr>),
    Grouping(Box<Expr>),
}

pub enum Statement {
    Let(String, Type, Expr),
    Assign(String, Option<Box<Expr>>, Expr),
    If(Expr, Block, Option<Block>),
    While(Expr, Block),
    Return(Option<Expr>),
    Expr(Expr),
}

pub struct Block {
    pub statements: Vec<Statement>,
}

pub struct Param {
    pub name: String,
    pub typ: Type,
}

pub struct FunctionDecl {
    pub name: String,
    pub params: Vec<Param>,
    pub return_type: Option<Type>,
    pub body: Block,
}

pub struct Program {
    pub functions: Vec<FunctionDecl>,
    pub statements: Vec<Statement>,
}

/// An expression as plain values.
pub enum AExpr {
    Number(i32),
    Str(Seq<char>),
    Variable(Seq<char>),
    Unary(UnaryOp, Box<AExpr>),
    Binary(Box<AExpr>, BinaryOp, Box<AExpr>),
    Call(Seq<char>, Seq<AExpr>),
    ArrayInit(Seq<AExpr>),
    ArrayAccess(Seq<char>, Box<AExpr>),
    Grouping(Box<AExpr>),
}

/// A statement as plain values; a block is the sequence of its statements.
pub enum AStmt {
    Let(Seq<char>, Type, AExpr),
    Assign(Seq<char>, Option<AExpr>, AExpr),
    If(AExpr, Seq<AStmt>, Option<Seq<AStmt>>),
    While(AExpr, Seq<AStmt>),
    Return(Option<AExpr>),
    Expr(AExpr),
}

/// A parameter as plain values.
pub struct AParam {
    pub name: Seq<char>,
    pub typ: Type,
}

/// A function declaration as plain values.
pub struct AFunc {
    pub name: Seq<char>,
    pub params: Seq<AParam>,
    pub return_type: Option<Type>,
    pub body: Seq<AStmt>,
}

/// A program as plain values.
pub struct AProgram {
    pub functions: Seq<AFunc>,
    pub statements: Seq<AStmt>,
}

impl Expr {
    pub open spec fn view(&self) -> AExpr
        decreases self,
    {
        match self {
            Expr::Number(n) => AExpr::Number(*n),
            Expr::String(s) => AExpr::Str(s@),
            Expr::Variable(s) => AExpr::Variable(s@),
            Expr::UnaryOp(op, e) => AExpr::Unary(*op, Box::new((**e).view())),
            Expr::BinaryOp(l, op, r) => AExpr::Binary(Box::new((**l).view()), *op, Box::new((**r).view())),
            Expr::FunctionCall(n, args) => AExpr::Call(n@, exprs_view(args@)),
            Expr::ArrayInit(elems) => AExpr::ArrayInit(exprs_view(elems@)),
            Expr::ArrayAccess(n, e) => AExpr::ArrayAccess(n@, Box::new((**e).view())),
            Expr::Grouping(e) => AExpr::Grouping(Box::new((**e).view())),
        }
    }
}

/// The models of a sequence of expressions.
pub open spec fn exprs_view(s: Seq<Expr>) -> Seq<AExpr>
    decreases s,
{
    if s.len() == 0 {
        Seq::empty()
    } else {
        exprs_view(s.subrange(0, s.len() - 1)).push(s[s.len() - 1].view())
    }
}

impl Statement {
    pub open spec fn view(&self) -> AStmt
        decreases self,
    {
        match self {
            Statement::Let(n, t, e) => AStmt::Let(n@, *t, e.view()),
            Statement::Assign(n, i, e) => AStmt::Assign(
                n@,
                match i {
                    Some(b) => Some((**b).view()),
                    None => None,
                },
                e.view(),
            ),
            Statement::If(c, t, e) => AStmt::If(
                c.view(),
                stmts_view(t.statements@),
                match e {
                    Some(b) => Some(stmts_view(b.statements@)),
                    None => None,
                },
            ),
            Statement::While(c, b) => AStmt::While(c.view(), stmts_view(b.statements@)),
            Statement::Return(e) => AStmt::Return(
                match e {
                    Some(x) => Some(x.view()),
                    None => None,
                },
            ),
            Statement::Expr(e) => AStmt::Expr(e.view()),
        }
    }
}

/// The models of a sequence of statements.
pub open spec fn stmts_view(s: Seq<Statement>) -> Seq<AStmt>
    decreases s,
{
    if s.len() == 0 {
        Seq::empty()
    } else {
        stmts_view(s.subrange(0, s.len() - 1)).push(s[s.len() - 1].view())
    }
}

impl Block {
    pub open spec fn view(&self) -> Seq<AStmt> {
        stmts_view(self.statements@)
    }
}

impl Param {
    pub open spec fn view(&self) -> AParam {
        AParam { name: self.name@, typ: self.typ }
    }
}

/// The models of a sequence of parameters.
pub open spec fn params_view(s: Seq<Param>) -> Seq<AParam> {
    Seq::new(s.len(), |i: int| s[i].view())
}

impl FunctionDecl {
    pub open spec fn view(&self) -> AFunc {
        AFunc {
            name: self.name@,
            params: params_view(self.params@),
            return_type: self.return_type,
            body: self.body.view(),
        }
    }
}

/// The models of a sequence of function declarations.
pub open spec fn funcs_view(s: Seq<FunctionDecl>) -> Seq<AFunc> {
    Seq::new(s.len(), |i: int| s[i].view())
}

impl Program {
    pub open spec fn view(&self) -> AProgram {
        AProgram { functions: funcs_view(self.functions@), statements: stmts_view(self.statements@) }
    }
}

/// The models of a sequence of expressions: one per expression, in order.
pub proof fn lemma_exprs_view(s: Seq<Expr>)
    ensures
        exprs_view(s).len() == s.len(),
        forall|i: int| 0 <= i < s.len() ==> #[trigger] exprs_view(s)[i] == s[i].view(),
    decreases s.len(),
{
    if s.len() > 0 {
        lemma_exprs_view(s.subrange(0, s.len() - 1));
    }
}

/// The models of a sequence of statements: one per statement, in order.
pub proof fn lemma_stmts_view(s: Seq<Statement>)
    ensures
        stmts_view(s).len() == s.len(),
        forall|i: int| 0 <= i < s.len() ==> #[trigger] stmts_view(s)[i] == s[i].view(),
    decreases s.len(),
{
    if s.len() > 0 {
        lemma_stmts_view(s.subrange(0, s.len() - 1));
    }
}

} // verus!
