use vstd::prelude::*;
use vstd::string::StringExecFns;
use crate::num::{Number, spec_render_number, spec_num_is_zero};
use crate::ast::{Stmt, Expr, StmtModel, stmts_model, params_model, lemma_stmts_model_len};

verus! {

/// The host-provided callables the standard modules expose.
#[derive(Debug, Clone, Copy, PartialEq, Eq, Structural)]
pub enum NativeFn {
    /// Stringifies its arguments, space-joined, and emits them with a
    /// trailing newline; returns null.
    Print,
    /// The square root of a number; null for anything else.
    Sqrt,
}

/// An interpreted closure: its name, parameter names, body, and the
/// index of the environment captured at its definition.
#[derive(Debug, PartialEq)]
pub struct Function {
    pub name: String,
    pub params: Vec<String>,
    pub body: Vec<Stmt>,
    pub closure: usize,
}

/// A runtime value: the closed union the evaluator computes with.
#[derive(Debug, PartialEq)]
pub enum Value {
    Num(Number),
    Str(String),
    Bool(bool),
    Null,
    Array(Vec<Value>),
    Native(NativeFn),
    Func(Function),
}

/// The mathematical shape of a closure.
pub struct FunctionModel {
    pub name: Seq<char>,
    pub params: Seq<Seq<char>>,
    pub body: Seq<StmtModel>,
    pub closure: int,
}

/// The mathematical shape of a runtime value.
pub enum ValueModel {
    Num(Number),
    Str(Seq<char>),
    Bool(bool),
    Null,
    Array(Seq<ValueModel>),
    Native(NativeFn),
    Func(FunctionModel),
}

impl Function {
    pub open spec fn model(self) -> FunctionModel {
        FunctionModel {
            name: self.name@,
            params: params_model(self.params@),
            body: stmts_model(self.body@),
            closure: self.closure as int,
        }
    }
}

impl Value {
    pub open spec fn model(self) -> ValueModel
        decreases self,
    {
        match self {
            Value::Num(n) => ValueModel::Num(n),
            Value::Str(s) => ValueModel::Str(s@),
            Value::Bool(b) => ValueModel::Bool(b),
            Value::Null => ValueModel::Null,
            Value::Array(vs) => ValueModel::Array(values_model(vs@)),
            Value::Native(f) => ValueModel::Native(f),
            Value::Func(f) => ValueModel::Func(f.model()),
        }
    }
}

/// The models of a value sequence, in order.
pub open spec fn values_model(vs: Seq<Value>) -> Seq<ValueModel>
    decreases vs,
{
    if vs.len() == 0 {
        Seq::empty()
    } else {
        values_model(vs.drop_last()).push(vs.last().model())
    }
}

pub proof fn lemma_values_model_len(vs: Seq<Value>)
    ensures
        values_model(vs).len() == vs.len(),
        forall|i: int| 0 <= i < vs.len() ==> values_model(vs)[i] == #[trigger] vs[i].model(),
    decreases vs,
{
    if vs.len() > 0 {
        lemma_values_model_len(vs.drop_last());
        assert forall|i: int| 0 <= i < vs.len() implies values_model(vs)[i] == #[trigger] vs[i].model() by {
            if i < vs.len() - 1 {
                assert(vs.drop_last()[i] == vs[i]);
            } else {
                assert(vs.last() == vs[i]);
            }
        }
    }
}

/// Truthiness: false exactly for false, null, a zero number, and the
/// empty string; everything else (arrays and functions included) is true.
pub open spec fn spec_as_bool(v: ValueModel) -> bool {
    match v {
        ValueModel::Bool(b) => b,
        ValueModel::Null => false,
        ValueModel::Num(n) => !spec_num_is_zero(n),
        ValueModel::Str(s) => s.len() != 0,
        _ => true,
    }
}

impl Value {
    /// Truthiness of this value.
    pub fn as_bool(&self) -> (r: bool)
        ensures
            r == spec_as_bool(self.model()),
    {
        match self {
            Value::Bool(b) => *b,
            Value::Null => false,
            Value::Num(n) => !n.is_zero(),
            Value::Str(s) => !s.as_str().is_empty(),
            _ => true,
        }
    }
}

/// How a value prints: numbers in decimal, strings as their text,
/// booleans as `true`/`false`, `null` literally, arrays recursively in
/// brackets with comma-separated elements, and any function as `<fn>`.
pub open spec fn spec_render_value(v: ValueModel) -> Seq<char>
    decreases v, 0int,
{
    match v {
        ValueModel::Num(n) => spec_render_number(n),
        ValueModel::Str(s) => s,
        ValueModel::Bool(b) => if b {
            seq!['t', 'r', 'u', 'e']
        } else {
            seq!['f', 'a', 'l', 's', 'e']
        },
        ValueModel::Null => seq!['n', 'u', 'l', 'l'],
        ValueModel::Array(vs) => seq!['['] + spec_render_elems(vs) + seq![']'],
        ValueModel::Native(_) => seq!['<', 'f', 'n', '>'],
        ValueModel::Func(_) => seq!['<', 'f', 'n', '>'],
    }
}

/// The elements of an array, comma-separated.
pub open spec fn spec_render_elems(vs: Seq<ValueModel>) -> Seq<char>
    decreases vs, 1int,
{
    if vs.len() == 0 {
        Seq::empty()
    } else {
        spec_render_value(vs.first()) + spec_render_rest(vs.drop_first())
    }
}

pub open spec fn spec_render_rest(vs: Seq<ValueModel>) -> Seq<char>
    decreases vs, 1int,
{
    if vs.len() == 0 {
        Seq::empty()
    } else {
        seq![',', ' '] + spec_render_value(vs.first()) + spec_render_rest(vs.drop_first())
    }
}

impl Value {
    /// This value as the text the `print` builtin shows.
    pub fn render(&self) -> (s: String)
        ensures
            s@ == spec_render_value(self.model()),
        decreases self, 0int,
    {
        proof {
            reveal_strlit("true");
            reveal_strlit("false");
            reveal_strlit("null");
            reveal_strlit("<fn>");
            reveal_strlit("[");
            reveal_strlit("]");
            assert(("true"@) =~= seq!['t', 'r', 'u', 'e']);
            assert(("false"@) =~= seq!['f', 'a', 'l', 's', 'e']);
            assert(("null"@) =~= seq!['n', 'u', 'l', 'l']);
            assert(("<fn>"@) =~= seq!['<', 'f', 'n', '>']);
            assert(("["@) =~= seq!['[']);
            assert(("]"@) =~= seq![']']);
        }
        match self {
            Value::Num(n) => n.to_text(),
            Value::Str(s) => s.clone(),
            Value::Bool(b) => if *b {
                String::from_str("true")
            } else {
                String::from_str("false")
            },
            Value::Null => String::from_str("null"),
            Value::Array(vs) => {
                let mut out = String::from_str("[");
                let inner = render_elems(vs);
                out.append(inner.as_str());
                out.append("]");
                out
            },
            Value::Native(_) => String::from_str("<fn>"),
            Value::Func(_) => String::from_str("<fn>"),
        }
    }
}

/// The elements of an array as comma-separated text.
fn render_elems(vs: &Vec<Value>) -> (s: String)
    ensures
        s@ == spec_render_elems(values_model(vs@)),
    decreases vs, 1int,
{
    let ghost m = values_model(vs@);
    proof {
        lemma_values_model_len(vs@);
    }
    if vs.len() == 0 {
        String::new()
    } else {
        let mut out = vs[0].render();
        proof {
            assert(m.first() == vs@[0].model());
        }
        let mut i: usize = 1;
        while i < vs.len()
            invariant
                1 <= i <= vs@.len(),
                m == values_model(vs@),
                m.len() == vs@.len(),
                forall|j: int| 0 <= j < vs@.len() ==> m[j] == #[trigger] vs@[j].model(),
                out@ + spec_render_rest(m.skip(i as int)) == spec_render_elems(m),
            decreases vs@.len() - i,
        {
            proof {
                reveal_strlit(", ");
                assert((", "@) =~= seq![',', ' ']);
                assert(m.skip(i as int).first() == m[i as int]);
                assert(m.skip(i as int).drop_first() =~= m.skip(i + 1));
            }
            out.append(", ");
            let piece = vs[i].render();
            out.append(piece.as_str());
            i = i + 1;
        }
        proof {
            assert(m.skip(vs@.len() as int).len() == 0);
            assert(spec_render_rest(m.skip(vs@.len() as int)) =~= Seq::<char>::empty());
            assert(out@ =~= out@ + Seq::<char>::empty());
        }
        out
    }
}

/// A fresh copy of a string list, value for value.
pub fn clone_strings(v: &Vec<String>) -> (r: Vec<String>)
    ensures
        r@ == v@,
{
    let mut r: Vec<String> = Vec::new();
    let mut i: usize = 0;
    while i < v.len()
        invariant
            i <= v@.len(),
            r@ =~= v@.take(i as int),
        decreases v@.len() - i,
    {
        r.push(v[i].clone());
        proof {
            assert(r@ =~= v@.take(i + 1));
        }
        i = i + 1;
    }
    proof {
        assert(v@.take(v@.len() as int) =~= v@);
    }
    r
}

/// A fresh copy of an expression with the same model.
pub fn clone_expr(e: &Expr) -> (r: Expr)
    ensures
        r.model() == e.model(),
    decreases e, 0int,
{
    match e {
        Expr::Literal(l) => Expr::Literal(
            match l {
                crate::ast::ValueLiteral::Number(n) => crate::ast::ValueLiteral::Number(*n),
                crate::ast::ValueLiteral::Str(s) => crate::ast::ValueLiteral::Str(s.clone()),
                crate::ast::ValueLiteral::Bool(b) => crate::ast::ValueLiteral::Bool(*b),
                crate::ast::ValueLiteral::Null => crate::ast::ValueLiteral::Null,
            },
        ),
        Expr::Variable(n) => Expr::Variable(n.clone()),
        Expr::Binary { left, operator, right } => {
            let l2 = clone_expr(left);
            let r2 = clone_expr(right);
            Expr::Binary {
                left: Box::new(l2),
                operator: crate::parser::clone_kind(operator),
                right: Box::new(r2),
            }
        },
        Expr::Call { callee, args } => {
            let c2 = clone_expr(callee);
            let a2 = clone_exprs(args);
            Expr::Call { callee: Box::new(c2), args: a2 }
        },
        Expr::Assign { name, value } => {
            let v2 = clone_expr(value);
            Expr::Assign { name: name.clone(), value: Box::new(v2) }
        },
        Expr::Array(es) => Expr::Array(clone_exprs(es)),
        Expr::Function { name, params, body } => Expr::Function {
            name: name.clone(),
            params: clone_strings(params),
            body: clone_stmts(body),
        },
    }
}

/// A fresh copy of an expression list, model for model.
pub fn clone_exprs(v: &Vec<Expr>) -> (r: Vec<Expr>)
    ensures
        crate::ast::exprs_model(r@) == crate::ast::exprs_model(v@),
    decreases v, 1int,
{
    let mut r: Vec<Expr> = Vec::new();
    let mut i: usize = 0;
    while i < v.len()
        invariant
            i <= v@.len(),
            r@.len() == i,
            forall|j: int| 0 <= j < i ==> (#[trigger] r@[j]).model() == v@[j].model(),
        decreases v@.len() - i,
    {
        let c = clone_expr(&v[i]);
        r.push(c);
        i = i + 1;
    }
    proof {
        crate::ast::lemma_exprs_model_len(r@);
        crate::ast::lemma_exprs_model_len(v@);
        assert forall|j: int| 0 <= j < r@.len() implies crate::ast::exprs_model(r@)[j]
            == crate::ast::exprs_model(v@)[j] by {
            assert(r@[j].model() == v@[j].model());
        }
        assert(crate::ast::exprs_model(r@) =~= crate::ast::exprs_model(v@));
    }
    r
}

/// A fresh copy of a statement with the same model.
pub fn clone_stmt(s: &Stmt) -> (r: Stmt)
    ensures
        r.model() == s.model(),
    decreases s, 0int,
{
    match s {
        Stmt::Let { name, value, is_const, is_exported } => Stmt::Let {
            name: name.clone(),
            value: clone_expr(value),
            is_const: *is_const,
            is_exported: *is_exported,
        },
        Stmt::Function { name, params, body, is_exported } => Stmt::Function {
            name: name.clone(),
            params: clone_strings(params),
            body: clone_stmts(body),
            is_exported: *is_exported,
        },
        Stmt::Return(e) => Stmt::Return(
            match e {
                Some(x) => Some(clone_expr(x)),
                None => None,
            },
        ),
        Stmt::If { condition, then_branch, else_branch } => Stmt::If {
            condition: clone_expr(condition),
            then_branch: clone_stmts(then_branch),
            else_branch: match else_branch {
                Some(b) => Some(clone_stmts(b)),
                None => None,
            },
        },
        Stmt::While { condition, body } => Stmt::While {
            condition: clone_expr(condition),
            body: clone_stmts(body),
        },
        Stmt::Block(b) => Stmt::Block(clone_stmts(b)),
        Stmt::Import(p) => Stmt::Import(p.clone()),
        Stmt::Expr(e) => Stmt::Expr(clone_expr(e)),
    }
}

/// A fresh copy of a statement list, model for model.
pub fn clone_stmts(v: &Vec<Stmt>) -> (r: Vec<Stmt>)
    ensures
        stmts_model(r@) == stmts_model(v@),
    decreases v, 1int,
{
    let mut r: Vec<Stmt> = Vec::new();
    let mut i: usize = 0;
    while i < v.len()
        invariant
            i <= v@.len(),
            r@.len() == i,
            forall|j: int| 0 <= j < i ==> (#[trigger] r@[j]).model() == v@[j].model(),
        decreases v@.len() - i,
    {
        let c = clone_stmt(&v[i]);
        r.push(c);
        i = i + 1;
    }
    proof {
        lemma_stmts_model_len(r@);
        lemma_stmts_model_len(v@);
        assert forall|j: int| 0 <= j < r@.len() implies stmts_model(r@)[j] == stmts_model(v@)[j] by {
            assert(r@[j].model() == v@[j].model());
        }
        assert(stmts_model(r@) =~= stmts_model(v@));
    }
    r
}

/// A fresh copy of a value with the same model.
pub fn clone_value(v: &Value) -> (r: Value)
    ensures
        r.model() == v.model(),
    decreases v, 0int,
{
    match v {
        Value::Num(n) => Value::Num(*n),
        Value::Str(s) => Value::Str(s.clone()),
        Value::Bool(b) => Value::Bool(*b),
        Value::Null => Value::Null,
        Value::Array(vs) => Value::Array(clone_values(vs)),
        Value::Native(f) => Value::Native(*f),
        Value::Func(f) => Value::Func(
            Function {
                name: f.name.clone(),
                params: clone_strings(&f.params),
                body: clone_stmts(&f.body),
                closure: f.closure,
            },
        ),
    }
}

/// A fresh copy of a value list, model for model.
pub fn clone_values(v: &Vec<Value>) -> (r: Vec<Value>)
    ensures
        values_model(r@) == values_model(v@),
    decreases v, 1int,
{
    let mut r: Vec<Value> = Vec::new();
    let mut i: usize = 0;
    while i < v.len()
        invariant
            i <= v@.len(),
            r@.len() == i,
            forall|j: int| 0 <= j < i ==> (#[trigger] r@[j]).model() == v@[j].model(),
        decreases v@.len() - i,
    {
        let c = clone_value(&v[i]);
        r.push(c);
        i = i + 1;
    }
    proof {
        lemma_values_model_len(r@);
        lemma_values_model_len(v@);
        assert forall|j: int| 0 <= j < r@.len() implies values_model(r@)[j] == values_model(v@)[j] by {
            assert(r@[j].model() == v@[j].model());
        }
        assert(values_model(r@) =~= values_model(v@));
    }
    r
}

} // verus!
