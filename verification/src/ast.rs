use vstd::prelude::*;
use crate::num::Number;
use crate::token::{TokenKind, TokenKindModel};

verus! {

/// A literal as it appears in an expression.
#[derive(Debug, PartialEq)]
pub enum ValueLiteral {
    Number(Number),
    Str(String),
    Bool(bool),
    Null,
}

/// An expression tree. Binary operators carry the token kind that formed
/// them.
#[derive(Debug, PartialEq)]
pub enum Expr {
    Literal(ValueLiteral),
    Variable(String),
    Binary { left: Box<Expr>, operator: TokenKind, right: Box<Expr> },
    Call { callee: Box<Expr>, args: Vec<Expr> },
    Assign { name: String, value: Box<Expr> },
    Array(Vec<Expr>),
    Function { name: String, params: Vec<String>, body: Vec<Stmt> },
}

/// A statement. Bodies are ordered statement sequences owned by the node.
#[derive(Debug, PartialEq)]
pub enum Stmt {
    Let { name: String, value: Expr, is_const: bool, is_exported: bool },
    Function { name: String, params: Vec<String>, body: Vec<Stmt>, is_exported: bool },
    Return(Option<Expr>),
    If { condition: Expr, then_branch: Vec<Stmt>, else_branch: Option<Vec<Stmt>> },
    While { condition: Expr, body: Vec<Stmt> },
    Block(Vec<Stmt>),
    Import(String),
    Expr(Expr),
}

/// The mathematical shape of a literal.
pub enum LiteralModel {
    Number(Number),
    Str(Seq<char>),
    Bool(bool),
    Null,
}

/// The mathematical shape of an expression.
pub enum ExprModel {
    Literal(LiteralModel),
    Variable(Seq<char>),
    Binary { left: Box<ExprModel>, operator: TokenKindModel, right: Box<ExprModel> },
    Call { callee: Box<ExprModel>, args: Seq<ExprModel> },
    Assign { name: Seq<char>, value: Box<ExprModel> },
    Array(Seq<ExprModel>),
    Function { name: Seq<char>, params: Seq<Seq<char>>, body: Seq<StmtModel> },
}

/// The mathematical shape of a statement.
pub enum StmtModel {
    Let { name: Seq<char>, value: ExprModel, is_const: bool, is_exported: bool },
    Function { name: Seq<char>, params: Seq<Seq<char>>, body: Seq<StmtModel>, is_exported: bool },
    Return(Option<ExprModel>),
    If { condition: ExprModel, then_branch: Seq<StmtModel>, else_branch: Option<Seq<StmtModel>> },
    While { condition: ExprModel, body: Seq<StmtModel> },
    Block(Seq<StmtModel>),
    Import(Seq<char>),
    Expr(ExprModel),
}

impl ValueLiteral {
    pub open spec fn model(self) -> LiteralModel {
        match self {
            ValueLiteral::Number(n) => LiteralModel::Number(n),
            ValueLiteral::Str(s) => LiteralModel::Str(s@),
            ValueLiteral::Bool(b) => LiteralModel::Bool(b),
            ValueLiteral::Null => LiteralModel::Null,
        }
    }
}

/// The models of a parameter list.
pub open spec fn params_model(ps: Seq<String>) -> Seq<Seq<char>> {
    ps.map_values(|p: String| p@)
}

impl Expr {
    pub open spec fn model(self) -> ExprModel
        decreases self,
    {
        match self {
            Expr::Literal(l) => ExprModel::Literal(l.model()),
            Expr::Variable(n) => ExprModel::Variable(n@),
            Expr::Binary { left, operator, right } => ExprModel::Binary {
                left: Box::new(left.model()),
                operator: operator@,
                right: Box::new(right.model()),
            },
            Expr::Call { callee, args } => ExprModel::Call {
                callee: Box::new(callee.model()),
                args: exprs_model(args@),
            },
            Expr::Assign { name, value } => ExprModel::Assign {
                name: name@,
                value: Box::new(value.model()),
            },
            Expr::Array(es) => ExprModel::Array(exprs_model(es@)),
            Expr::Function { name, params, body } => ExprModel::Function {
                name: name@,
                params: params_model(params@),
                body: stmts_model(body@),
            },
        }
    }
}

impl Stmt {
    pub open spec fn model(self) -> StmtModel
        decreases self,
    {
        match self {
            Stmt::Let { name, value, is_const, is_exported } => StmtModel::Let {
                name: name@,
                value: value.model(),
                is_const,
                is_exported,
            },
            Stmt::Function { name, params, body, is_exported } => StmtModel::Function {
                name: name@,
                params: params_model(params@),
                body: stmts_model(body@),
                is_exported,
            },
            Stmt::Return(e) => StmtModel::Return(
                match e {
                    Some(x) => Some(x.model()),
                    None => None,
                },
            ),
            Stmt::If { condition, then_branch, else_branch } => StmtModel::If {
                condition: condition.model(),
                then_branch: stmts_model(then_branch@),
                else_branch: match else_branch {
                    Some(b) => Some(stmts_model(b@)),
                    None => None,
                },
            },
            Stmt::While { condition, body } => StmtModel::While {
                condition: condition.model(),
                body: stmts_model(body@),
            },
            Stmt::Block(b) => StmtModel::Block(stmts_model(b@)),
            Stmt::Import(p) => StmtModel::Import(p@),
            Stmt::Expr(e) => StmtModel::Expr(e.model()),
        }
    }
}

/// The models of an expression sequence, in order.
pub open spec fn exprs_model(es: Seq<Expr>) -> Seq<ExprModel>
    decreases es,
{
    if es.len() == 0 {
        Seq::empty()
    } else {
        exprs_model(es.drop_last()).push(es.last().model())
    }
}

/// The models of a statement sequence, in order.
pub open spec fn stmts_model(ss: Seq<Stmt>) -> Seq<StmtModel>
    decreases ss,
{
    if ss.len() == 0 {
        Seq::empty()
    } else {
        stmts_model(ss.drop_last()).push(ss.last().model())
    }
}

/// A model sequence indexes pointwise into the sequence it models.
pub proof fn lemma_exprs_model_len(es: Seq<Expr>)
    ensures
        exprs_model(es).len() == es.len(),
        forall|i: int| 0 <= i < es.len() ==> exprs_model(es)[i] == #[trigger] es[i].model(),
    decreases es,
{
    if es.len() > 0 {
        lemma_exprs_model_len(es.drop_last());
        assert forall|i: int| 0 <= i < es.len() implies exprs_model(es)[i] == #[trigger] es[i].model() by {
            if i < es.len() - 1 {
                assert(es.drop_last()[i] == es[i]);
            } else {
                assert(es.last() == es[i]);
            }
        }
    }
}

pub proof fn lemma_stmts_model_len(ss: Seq<Stmt>)
    ensures
        stmts_model(ss).len() == ss.len(),
        forall|i: int| 0 <= i < ss.len() ==> stmts_model(ss)[i] == #[trigger] ss[i].model(),
    decreases ss,
{
    if ss.len() > 0 {
        lemma_stmts_model_len(ss.drop_last());
        assert forall|i: int| 0 <= i < ss.len() implies stmts_model(ss)[i] == #[trigger] ss[i].model() by {
            if i < ss.len() - 1 {
                assert(ss.drop_last()[i] == ss[i]);
            } else {
                assert(ss.last() == ss[i]);
            }
        }
    }
}

} // verus!
