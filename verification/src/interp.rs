use vstd::prelude::*;
use vstd::string::StringExecFns;
use crate::num::{Number, SCALE, spec_add, spec_sub, spec_mul, spec_div, spec_num_eq, spec_num_lt, spec_num_le, spec_render_number};
use crate::token::{TokenKind, TokenKindModel};
use crate::ast::{Expr, Stmt, ExprModel, StmtModel, LiteralModel};
use crate::value::{Value, ValueModel, Function, FunctionModel, NativeFn, values_model, spec_as_bool, spec_render_value, clone_value, clone_stmts, clone_strings, lemma_values_model_len};
use crate::lexer::LexError;
use crate::parser::ParseError;

verus! {

/// A lexical scope: its own bindings, the bindings declared exported,
/// and the index of the enclosing scope in the interpreter's arena.
#[derive(Debug)]
pub struct Env {
    pub values: Vec<(String, Value)>,
    pub exports: Vec<(String, Value)>,
    pub parent: Option<usize>,
}

/// The mathematical shape of a scope.
#[verifier::ext_equal]
pub struct EnvModel {
    pub values: Seq<(Seq<char>, ValueModel)>,
    pub exports: Seq<(Seq<char>, ValueModel)>,
    pub parent: Option<int>,
}

/// The models of a binding list.
pub open spec fn entries_model(s: Seq<(String, Value)>) -> Seq<(Seq<char>, ValueModel)> {
    s.map_values(|p: (String, Value)| (p.0@, p.1.model()))
}

impl Env {
    pub open spec fn model(self) -> EnvModel {
        EnvModel {
            values: entries_model(self.values@),
            exports: entries_model(self.exports@),
            parent: match self.parent {
                Some(p) => Some(p as int),
                None => None,
            },
        }
    }

    /// A fresh scope with no enclosing scope.
    pub fn new() -> (e: Env)
        ensures
            e.model().values == Seq::<(Seq<char>, ValueModel)>::empty(),
            e.model().exports == Seq::<(Seq<char>, ValueModel)>::empty(),
            e.model().parent is None,
    {
        let e = Env { values: Vec::new(), exports: Vec::new(), parent: None };
        proof {
            assert(e.model().values =~= Seq::<(Seq<char>, ValueModel)>::empty());
            assert(e.model().exports =~= Seq::<(Seq<char>, ValueModel)>::empty());
        }
        e
    }

    /// A fresh scope inside the given enclosing scope.
    pub fn new_with_parent(parent: Option<usize>) -> (e: Env)
        ensures
            e.model().values == Seq::<(Seq<char>, ValueModel)>::empty(),
            e.model().exports == Seq::<(Seq<char>, ValueModel)>::empty(),
            e.model().parent == (match parent {
                Some(p) => Some(p as int),
                None => None::<int>,
            }),
    {
        let e = Env { values: Vec::new(), exports: Vec::new(), parent };
        proof {
            assert(e.model().values =~= Seq::<(Seq<char>, ValueModel)>::empty());
            assert(e.model().exports =~= Seq::<(Seq<char>, ValueModel)>::empty());
        }
        e
    }

    /// Insert or shadow a binding in this scope's own mapping only.
    pub fn define(&mut self, name: String, val: Value)
        ensures
            final(self).model().values == old(self).model().values.push((name@, val.model())),
            final(self).model().exports == old(self).model().exports,
            final(self).model().parent == old(self).model().parent,
    {
        let ghost pre = self.values@;
        self.values.push((name, val));
        proof {
            assert(entries_model(self.values@) =~= entries_model(pre).push(
                (self.values@.last().0@, self.values@.last().1.model()),
            ));
        }
    }

    /// Insert a binding and record it as exported.
    pub fn define_export(&mut self, name: String, val: Value)
        ensures
            final(self).model().values == old(self).model().values.push((name@, val.model())),
            final(self).model().exports == old(self).model().exports.push((name@, val.model())),
            final(self).model().parent == old(self).model().parent,
    {
        let ghost prev = self.values@;
        let ghost pree = self.exports@;
        let name2 = name.clone();
        let val2 = clone_value(&val);
        self.exports.push((name2, val2));
        self.values.push((name, val));
        proof {
            assert(entries_model(self.values@) =~= entries_model(prev).push(
                (self.values@.last().0@, self.values@.last().1.model()),
            ));
            assert(entries_model(self.exports@) =~= entries_model(pree).push(
                (self.exports@.last().0@, self.exports@.last().1.model()),
            ));
        }
    }

    /// The bindings declared exported, as fresh copies.
    pub fn exported_values(&self) -> (r: Vec<(String, Value)>)
        ensures
            entries_model(r@) == self.model().exports,
    {
        clone_entries(&self.exports)
    }
}

/// The latest binding for `name`, searching this list from its end.
pub open spec fn lookup_entries(s: Seq<(Seq<char>, ValueModel)>, name: Seq<char>) -> Option<
    ValueModel,
>
    decreases s.len(),
{
    if s.len() == 0 {
        None
    } else if s.last().0 == name {
        Some(s.last().1)
    } else {
        lookup_entries(s.drop_last(), name)
    }
}

/// The list with its latest binding for `name` replaced by `val`.
pub open spec fn update_entries(
    s: Seq<(Seq<char>, ValueModel)>,
    name: Seq<char>,
    val: ValueModel,
) -> Seq<(Seq<char>, ValueModel)>
    decreases s.len(),
{
    if s.len() == 0 {
        s
    } else if s.last().0 == name {
        s.update(s.len() - 1, (s.last().0, val))
    } else {
        update_entries(s.drop_last(), name, val).push(s.last())
    }
}

/// Every scope's parent was created before it: parent indices strictly
/// decrease, so every lookup walk ends.
pub open spec fn envs_wf(envs: Seq<EnvModel>) -> bool {
    forall|j: int|
        0 <= j < envs.len() ==> match (#[trigger] envs[j]).parent {
            Some(p) => 0 <= p < j,
            None => true,
        }
}

/// The value of `name` from scope `e` outward through parent links
/// (walks only well-founded links; absent otherwise).
pub open spec fn lookup_chain(envs: Seq<EnvModel>, e: int, name: Seq<char>) -> Option<ValueModel>
    decreases e,
{
    if e < 0 || e >= envs.len() {
        None
    } else {
        match lookup_entries(envs[e].values, name) {
            Some(v) => Some(v),
            None => match envs[e].parent {
                Some(p) => if 0 <= p < e {
                    lookup_chain(envs, p, name)
                } else {
                    None
                },
                None => None,
            },
        }
    }
}

/// Overwrite `name` in the innermost scope of the chain that owns it;
/// absent if no scope in the chain does (assignment never creates a
/// binding).
pub open spec fn assign_chain(
    envs: Seq<EnvModel>,
    e: int,
    name: Seq<char>,
    val: ValueModel,
) -> Option<Seq<EnvModel>>
    decreases e,
{
    if e < 0 || e >= envs.len() {
        None
    } else if lookup_entries(envs[e].values, name) is Some {
        Some(
            envs.update(
                e,
                EnvModel {
                    values: update_entries(envs[e].values, name, val),
                    ..envs[e]
                },
            ),
        )
    } else {
        match envs[e].parent {
            Some(p) => if 0 <= p < e {
                assign_chain(envs, p, name, val)
            } else {
                None
            },
            None => None,
        }
    }
}

/// The arena with `name` freshly bound in scope `e` (and only there).
pub open spec fn define_in(
    envs: Seq<EnvModel>,
    e: int,
    name: Seq<char>,
    val: ValueModel,
) -> Seq<EnvModel> {
    if 0 <= e < envs.len() {
        envs.update(e, EnvModel { values: envs[e].values.push((name, val)), ..envs[e] })
    } else {
        envs
    }
}

/// A fresh copy of a binding list, model for model.
pub fn clone_entries(v: &Vec<(String, Value)>) -> (r: Vec<(String, Value)>)
    ensures
        entries_model(r@) == entries_model(v@),
{
    let mut r: Vec<(String, Value)> = Vec::new();
    let mut i: usize = 0;
    while i < v.len()
        invariant
            i <= v@.len(),
            r@.len() == i,
            forall|j: int|
                0 <= j < i ==> (#[trigger] r@[j]).0@ == v@[j].0@ && r@[j].1.model()
                    == v@[j].1.model(),
        decreases v@.len() - i,
    {
        let name = v[i].0.clone();
        let val = clone_value(&v[i].1);
        r.push((name, val));
        i = i + 1;
    }
    proof {
        assert(entries_model(r@) =~= entries_model(v@));
    }
    r
}

/// Which shape a value has, for diagnostics.
#[derive(Debug, Clone, Copy, PartialEq, Eq, Structural)]
pub enum ValueKind {
    NumberKind,
    StringKind,
    BoolKind,
    NullKind,
    ArrayKind,
    NativeKind,
    FunctionKind,
}

pub open spec fn spec_value_kind(v: ValueModel) -> ValueKind {
    match v {
        ValueModel::Num(_) => ValueKind::NumberKind,
        ValueModel::Str(_) => ValueKind::StringKind,
        ValueModel::Bool(_) => ValueKind::BoolKind,
        ValueModel::Null => ValueKind::NullKind,
        ValueModel::Array(_) => ValueKind::ArrayKind,
        ValueModel::Native(_) => ValueKind::NativeKind,
        ValueModel::Func(_) => ValueKind::FunctionKind,
    }
}

pub fn value_kind(v: &Value) -> (k: ValueKind)
    ensures
        k == spec_value_kind(v.model()),
{
    match v {
        Value::Num(_) => ValueKind::NumberKind,
        Value::Str(_) => ValueKind::StringKind,
        Value::Bool(_) => ValueKind::BoolKind,
        Value::Null => ValueKind::NullKind,
        Value::Array(_) => ValueKind::ArrayKind,
        Value::Native(_) => ValueKind::NativeKind,
        Value::Func(_) => ValueKind::FunctionKind,
    }
}

/// A recoverable runtime failure: it propagates to the interpreter's
/// caller, which reports it and goes on (or exits non-zero).
#[derive(Debug, PartialEq)]
pub enum RuntimeError {
    /// A read or assignment of a name no scope in the chain owns.
    UndefinedVariable(String),
    /// A binary operator applied to operand shapes outside its table.
    UnsupportedOp { left: ValueKind, op: TokenKind, right: ValueKind },
    /// An import path neither loaded as a module nor known as a source.
    UnknownModule(String),
    /// An imported source failed to scan.
    ImportLex(LexError),
    /// An imported source failed to parse.
    ImportParse(ParseError),
}

/// An unrecoverable condition, kept apart from the recoverable tier.
#[derive(Debug, Clone, Copy, PartialEq, Eq, Structural)]
pub enum FatalError {
    /// A call of a value that is not callable.
    NotCallable,
    /// The step budget ran out (the stand-in for exhausting the call
    /// stack or looping without end).
    OutOfFuel,
}

/// Either tier of failure.
#[derive(Debug, PartialEq)]
pub enum Failure {
    Error(RuntimeError),
    Fatal(FatalError),
}

pub enum RuntimeErrorModel {
    UndefinedVariable(Seq<char>),
    UnsupportedOp { left: ValueKind, op: TokenKindModel, right: ValueKind },
    UnknownModule(Seq<char>),
    ImportLex(LexError),
    ImportParse(ParseError),
}

pub enum FailureModel {
    Error(RuntimeErrorModel),
    Fatal(FatalError),
}

impl RuntimeError {
    pub open spec fn model(self) -> RuntimeErrorModel {
        match self {
            RuntimeError::UndefinedVariable(n) => RuntimeErrorModel::UndefinedVariable(n@),
            RuntimeError::UnsupportedOp { left, op, right } => RuntimeErrorModel::UnsupportedOp {
                left,
                op: op@,
                right,
            },
            RuntimeError::UnknownModule(n) => RuntimeErrorModel::UnknownModule(n@),
            RuntimeError::ImportLex(e) => RuntimeErrorModel::ImportLex(e),
            RuntimeError::ImportParse(e) => RuntimeErrorModel::ImportParse(e),
        }
    }
}

impl Failure {
    pub open spec fn model(self) -> FailureModel {
        match self {
            Failure::Error(e) => FailureModel::Error(e.model()),
            Failure::Fatal(f) => FailureModel::Fatal(f),
        }
    }
}

/// The control signal threading up through block execution: the value a
/// `return` carries to its enclosing call.
#[derive(Debug, PartialEq)]
pub enum RuntimeControl {
    Return(Value),
}

pub enum ControlModel {
    Return(ValueModel),
}

impl RuntimeControl {
    pub open spec fn model(self) -> ControlModel {
        match self {
            RuntimeControl::Return(v) => ControlModel::Return(v.model()),
        }
    }
}

/// The binary-operator table: arithmetic and the compound-assignment
/// operator kinds on numbers, `+` as concatenation when a string is
/// involved (numbers stringified), comparisons on numbers, equality on
/// numbers and on strings; every other combination is a recoverable
/// error naming both operand shapes and the operator.
pub open spec fn spec_binop(l: ValueModel, op: TokenKindModel, r: ValueModel) -> Result<
    ValueModel,
    FailureModel,
> {
    match (l, op, r) {
        (ValueModel::Num(a), TokenKindModel::Plus, ValueModel::Num(b)) => Ok(
            ValueModel::Num(spec_add(a, b)),
        ),
        (ValueModel::Num(a), TokenKindModel::Minus, ValueModel::Num(b)) => Ok(
            ValueModel::Num(spec_sub(a, b)),
        ),
        (ValueModel::Num(a), TokenKindModel::Star, ValueModel::Num(b)) => Ok(
            ValueModel::Num(spec_mul(a, b)),
        ),
        (ValueModel::Num(a), TokenKindModel::Slash, ValueModel::Num(b)) => Ok(
            ValueModel::Num(spec_div(a, b)),
        ),
        (ValueModel::Num(a), TokenKindModel::PlusEqual, ValueModel::Num(b)) => Ok(
            ValueModel::Num(spec_add(a, b)),
        ),
        (ValueModel::Num(a), TokenKindModel::MinusEqual, ValueModel::Num(b)) => Ok(
            ValueModel::Num(spec_sub(a, b)),
        ),
        (ValueModel::Num(a), TokenKindModel::StarEqual, ValueModel::Num(b)) => Ok(
            ValueModel::Num(spec_mul(a, b)),
        ),
        (ValueModel::Num(a), TokenKindModel::SlashEqual, ValueModel::Num(b)) => Ok(
            ValueModel::Num(spec_div(a, b)),
        ),
        (ValueModel::Str(a), TokenKindModel::Plus, ValueModel::Str(b)) => Ok(ValueModel::Str(a + b)),
        (ValueModel::Str(a), TokenKindModel::Plus, ValueModel::Num(b)) => Ok(
            ValueModel::Str(a + spec_render_number(b)),
        ),
        (ValueModel::Num(a), TokenKindModel::Plus, ValueModel::Str(b)) => Ok(
            ValueModel::Str(spec_render_number(a) + b),
        ),
        (ValueModel::Num(a), TokenKindModel::Greater, ValueModel::Num(b)) => Ok(
            ValueModel::Bool(spec_num_lt(b, a)),
        ),
        (ValueModel::Num(a), TokenKindModel::GreaterEqual, ValueModel::Num(b)) => Ok(
            ValueModel::Bool(spec_num_le(b, a)),
        ),
        (ValueModel::Num(a), TokenKindModel::Less, ValueModel::Num(b)) => Ok(
            ValueModel::Bool(spec_num_lt(a, b)),
        ),
        (ValueModel::Num(a), TokenKindModel::LessEqual, ValueModel::Num(b)) => Ok(
            ValueModel::Bool(spec_num_le(a, b)),
        ),
        (ValueModel::Num(a), TokenKindModel::EqualEqual, ValueModel::Num(b)) => Ok(
            ValueModel::Bool(spec_num_eq(a, b)),
        ),
        (ValueModel::Num(a), TokenKindModel::BangEqual, ValueModel::Num(b)) => Ok(
            ValueModel::Bool(!spec_num_eq(a, b)),
        ),
        (ValueModel::Str(a), TokenKindModel::EqualEqual, ValueModel::Str(b)) => Ok(
            ValueModel::Bool(a == b),
        ),
        _ => Err(
            FailureModel::Error(
                RuntimeErrorModel::UnsupportedOp {
                    left: spec_value_kind(l),
                    op,
                    right: spec_value_kind(r),
                },
            ),
        ),
    }
}

/// Apply a binary operator to two evaluated operands.
pub fn eval_binary(l: Value, op: &TokenKind, r: Value) -> (res: Result<Value, Failure>)
    ensures
        match res {
            Ok(v) => spec_binop(l.model(), op@, r.model()) == Ok::<ValueModel, FailureModel>(
                v.model(),
            ),
            Err(f) => spec_binop(l.model(), op@, r.model()) == Err::<ValueModel, FailureModel>(
                f.model(),
            ),
        },
{
    match (l, op, r) {
        (Value::Num(a), TokenKind::Plus, Value::Num(b)) => Ok(Value::Num(a.add(b))),
        (Value::Num(a), TokenKind::Minus, Value::Num(b)) => Ok(Value::Num(a.sub(b))),
        (Value::Num(a), TokenKind::Star, Value::Num(b)) => Ok(Value::Num(a.mul(b))),
        (Value::Num(a), TokenKind::Slash, Value::Num(b)) => Ok(Value::Num(a.div(b))),
        (Value::Num(a), TokenKind::PlusEqual, Value::Num(b)) => Ok(Value::Num(a.add(b))),
        (Value::Num(a), TokenKind::MinusEqual, Value::Num(b)) => Ok(Value::Num(a.sub(b))),
        (Value::Num(a), TokenKind::StarEqual, Value::Num(b)) => Ok(Value::Num(a.mul(b))),
        (Value::Num(a), TokenKind::SlashEqual, Value::Num(b)) => Ok(Value::Num(a.div(b))),
        (Value::Str(a), TokenKind::Plus, Value::Str(b)) => {
            let mut s = a;
            s.append(b.as_str());
            Ok(Value::Str(s))
        },
        (Value::Str(a), TokenKind::Plus, Value::Num(b)) => {
            let mut s = a;
            let t = b.to_text();
            s.append(t.as_str());
            Ok(Value::Str(s))
        },
        (Value::Num(a), TokenKind::Plus, Value::Str(b)) => {
            let mut s = a.to_text();
            s.append(b.as_str());
            Ok(Value::Str(s))
        },
        (Value::Num(a), TokenKind::Greater, Value::Num(b)) => Ok(Value::Bool(b.lt(a))),
        (Value::Num(a), TokenKind::GreaterEqual, Value::Num(b)) => Ok(Value::Bool(b.le(a))),
        (Value::Num(a), TokenKind::Less, Value::Num(b)) => Ok(Value::Bool(a.lt(b))),
        (Value::Num(a), TokenKind::LessEqual, Value::Num(b)) => Ok(Value::Bool(a.le(b))),
        (Value::Num(a), TokenKind::EqualEqual, Value::Num(b)) => Ok(Value::Bool(a.num_eq(b))),
        (Value::Num(a), TokenKind::BangEqual, Value::Num(b)) => {
            let eq = a.num_eq(b);
            Ok(Value::Bool(!eq))
        },
        (Value::Str(a), TokenKind::EqualEqual, Value::Str(b)) => Ok(Value::Bool(a == b)),
        (lv, o, rv) => {
            let lk = value_kind(&lv);
            let rk = value_kind(&rv);
            Err(
                Failure::Error(
                    RuntimeError::UnsupportedOp {
                        left: lk,
                        op: crate::parser::clone_kind(o),
                        right: rk,
                    },
                ),
            )
        },
    }
}

/// The integer square root by quartering: zero for zero, else doubled
/// from the root of a quarter and corrected upward when the next value
/// still fits.
pub open spec fn spec_isqrt(n: int) -> int
    decreases n,
{
    if n <= 0 {
        0
    } else {
        let r = 2 * spec_isqrt(n / 4);
        if (r + 1) * (r + 1) <= n {
            r + 1
        } else {
            r
        }
    }
}

/// The integer square root is exactly the root: its square fits and the
/// next square does not.
pub proof fn lemma_isqrt_correct(n: int)
    requires
        n >= 0,
    ensures
        spec_isqrt(n) >= 0,
        spec_isqrt(n) * spec_isqrt(n) <= n,
        n < (spec_isqrt(n) + 1) * (spec_isqrt(n) + 1),
    decreases n,
{
    if n > 0 {
        lemma_isqrt_correct(n / 4);
        let s = spec_isqrt(n / 4);
        let r = 2 * s;
        assert(spec_isqrt(n) == if (r + 1) * (r + 1) <= n {
            r + 1
        } else {
            r
        });
        assert(r * r == 4 * (s * s)) by (nonlinear_arith)
            requires
                r == 2 * s,
        ;
        assert(4 * (s * s) <= 4 * (n / 4)) by (nonlinear_arith)
            requires
                s * s <= n / 4,
        ;
        assert(4 * (n / 4) <= n);
        assert(n < 4 * ((n / 4) + 1));
        assert(4 * ((n / 4) + 1) <= 4 * ((s + 1) * (s + 1))) by (nonlinear_arith)
            requires
                (n / 4) + 1 <= (s + 1) * (s + 1),
        ;
        assert(4 * ((s + 1) * (s + 1)) == (r + 2) * (r + 2)) by (nonlinear_arith)
            requires
                r == 2 * s,
        ;
    }
}

/// The integer square root, as `spec_isqrt` describes.
pub fn isqrt(n: u128) -> (r: u128)
    ensures
        r as int == spec_isqrt(n as int),
    decreases n,
{
    if n == 0 {
        0
    } else {
        proof {
            lemma_isqrt_correct(n as int);
            lemma_isqrt_correct(n as int / 4);
        }
        let s = isqrt(n / 4);
        proof {
            assert(spec_isqrt(n as int / 4) < 0x8000_0000_0000_0000) by (nonlinear_arith)
                requires
                    spec_isqrt(n as int / 4) >= 0,
                    spec_isqrt(n as int / 4) * spec_isqrt(n as int / 4) <= n as int / 4,
                    n as int / 4 < 0x4000_0000_0000_0000_0000_0000_0000_0000,
            ;
        }
        let r = 2 * s;
        match (r + 1).checked_mul(r + 1) {
            Some(sq) => {
                if sq <= n {
                    r + 1
                } else {
                    r
                }
            },
            None => r,
        }
    }
}

/// The square root of a number: exact on the scaled value where the
/// radicand can stay in scaled units, at whole-unit precision otherwise;
/// not-a-number for negative values and not-a-number, infinity for
/// positive infinity.
pub open spec fn spec_sqrt(n: Number) -> Number {
    match n {
        Number::Nan => Number::Nan,
        Number::PosInf => Number::PosInf,
        Number::NegInf => Number::Nan,
        Number::Finite { neg, mag } => {
            if neg && mag != 0 {
                Number::Nan
            } else if mag <= u128::MAX as int / SCALE as int {
                Number::Finite { neg: false, mag: spec_isqrt(mag * SCALE) as u128 }
            } else {
                Number::Finite { neg: false, mag: (spec_isqrt(mag as int) * 1000) as u128 }
            }
        },
    }
}

pub fn sqrt_number(n: Number) -> (r: Number)
    ensures
        r == spec_sqrt(n),
{
    match n {
        Number::Nan => Number::Nan,
        Number::PosInf => Number::PosInf,
        Number::NegInf => Number::Nan,
        Number::Finite { neg, mag } => {
            if neg && mag != 0 {
                Number::Nan
            } else if mag <= u128::MAX / SCALE {
                proof {
                    crate::num::lemma_mag_rescale(mag as int);
                    lemma_isqrt_correct(mag as int * SCALE as int);
                }
                Number::Finite { neg: false, mag: isqrt(mag * SCALE) }
            } else {
                proof {
                    lemma_isqrt_correct(mag as int);
                    lemma_isqrt_small(mag as int);
                }
                let root = isqrt(mag);
                Number::Finite { neg: false, mag: root * 1000 }
            }
        },
    }
}

/// A module the loader capability recognizes: its path and the bindings
/// it registers.
#[derive(Debug)]
pub struct Module {
    pub path: String,
    pub exports: Vec<(String, Value)>,
}

pub struct ModuleModel {
    pub path: Seq<char>,
    pub exports: Seq<(Seq<char>, ValueModel)>,
}

impl Module {
    pub open spec fn model(self) -> ModuleModel {
        ModuleModel { path: self.path@, exports: entries_model(self.exports@) }
    }
}

/// The whole interpreter state, mathematically: the scope arena, the
/// current scope, the set of already-imported paths, the injected
/// modules, the preloaded import sources, and everything printed so far.
#[verifier::ext_equal]
pub struct StateModel {
    pub envs: Seq<EnvModel>,
    pub cur: int,
    pub imported: Seq<Seq<char>>,
    pub modules: Seq<ModuleModel>,
    pub sources: Seq<(Seq<char>, Seq<char>)>,
    pub output: Seq<char>,
}

pub open spec fn contains_str(s: Seq<Seq<char>>, x: Seq<char>) -> bool {
    exists|i: int| 0 <= i < s.len() && s[i] == x
}

/// The exports of the first module with the given path.
pub open spec fn find_module(ms: Seq<ModuleModel>, p: Seq<char>) -> Option<
    Seq<(Seq<char>, ValueModel)>,
>
    decreases ms.len(),
{
    if ms.len() == 0 {
        None
    } else if ms.first().path == p {
        Some(ms.first().exports)
    } else {
        find_module(ms.drop_first(), p)
    }
}

/// The first preloaded source registered under the given path.
pub open spec fn find_source(ss: Seq<(Seq<char>, Seq<char>)>, p: Seq<char>) -> Option<Seq<char>>
    decreases ss.len(),
{
    if ss.len() == 0 {
        None
    } else if ss.first().0 == p {
        Some(ss.first().1)
    } else {
        find_source(ss.drop_first(), p)
    }
}

/// Parameters bound positionally: surplus arguments are dropped, missing
/// ones leave their parameter unbound.
pub open spec fn bind_args(params: Seq<Seq<char>>, args: Seq<ValueModel>) -> Seq<
    (Seq<char>, ValueModel),
>
    decreases params.len(),
{
    if params.len() == 0 || args.len() == 0 {
        Seq::empty()
    } else {
        seq![(params.first(), args.first())] + bind_args(params.drop_first(), args.drop_first())
    }
}

/// Each entry defined into scope `e`, in order.
pub open spec fn define_all(
    envs: Seq<EnvModel>,
    e: int,
    entries: Seq<(Seq<char>, ValueModel)>,
    i: int,
) -> Seq<EnvModel>
    decreases entries.len() - i,
{
    if i < 0 || i >= entries.len() {
        envs
    } else {
        define_all(define_in(envs, e, entries[i].0, entries[i].1), e, entries, i + 1)
    }
}

/// The print builtin's text: arguments space-joined.
pub open spec fn spec_join_args(args: Seq<ValueModel>) -> Seq<char>
    decreases args,
{
    if args.len() == 0 {
        Seq::empty()
    } else {
        spec_render_value(args.first()) + spec_join_rest(args.drop_first())
    }
}

pub open spec fn spec_join_rest(args: Seq<ValueModel>) -> Seq<char>
    decreases args,
{
    if args.len() == 0 {
        Seq::empty()
    } else {
        seq![' '] + spec_render_value(args.first()) + spec_join_rest(args.drop_first())
    }
}

/// What a host callable does: print renders its arguments space-joined
/// with a trailing newline onto the output and returns null; sqrt takes
/// the root of a first numeric argument and is null otherwise.
pub open spec fn spec_native(st: StateModel, f: NativeFn, args: Seq<ValueModel>) -> (
    StateModel,
    ValueModel,
) {
    match f {
        NativeFn::Print => (
            StateModel { output: st.output + spec_join_args(args) + seq!['\n'], ..st },
            ValueModel::Null,
        ),
        NativeFn::Sqrt => (
            st,
            if args.len() >= 1 && args[0] is Num {
                ValueModel::Num(spec_sqrt(args[0]->Num_0))
            } else {
                ValueModel::Null
            },
        ),
    }
}

/// Evaluating an expression: the new state and the value, or the first
/// failure. Every recursive step spends one unit of fuel; exhausted fuel
/// is the fatal out-of-budget condition.
#[verifier::opaque]
pub open spec fn spec_eval(st: StateModel, e: ExprModel, fuel: nat) -> (
    StateModel,
    Result<ValueModel, FailureModel>,
)
    decreases fuel,
{
    if fuel == 0 {
        (st, Err(FailureModel::Fatal(FatalError::OutOfFuel)))
    } else {
        let f = (fuel - 1) as nat;
        match e {
            ExprModel::Literal(l) => (
                st,
                Ok(
                    match l {
                        LiteralModel::Number(n) => ValueModel::Num(n),
                        LiteralModel::Str(s) => ValueModel::Str(s),
                        LiteralModel::Bool(b) => ValueModel::Bool(b),
                        LiteralModel::Null => ValueModel::Null,
                    },
                ),
            ),
            ExprModel::Variable(n) => match lookup_chain(st.envs, st.cur, n) {
                Some(v) => (st, Ok(v)),
                None => (st, Err(FailureModel::Error(RuntimeErrorModel::UndefinedVariable(n)))),
            },
            ExprModel::Binary { left, operator, right } => {
                let (st1, r1) = spec_eval(st, *left, f);
                match r1 {
                    Err(e1) => (st1, Err(e1)),
                    Ok(lv) => {
                        let (st2, r2) = spec_eval(st1, *right, f);
                        match r2 {
                            Err(e2) => (st2, Err(e2)),
                            Ok(rv) => (st2, spec_binop(lv, operator, rv)),
                        }
                    },
                }
            },
            ExprModel::Call { callee, args } => {
                let (st1, r1) = spec_eval(st, *callee, f);
                match r1 {
                    Err(e1) => (st1, Err(e1)),
                    Ok(cv) => {
                        let (st2, r2) = spec_eval_args(st1, args, 0, f);
                        match r2 {
                            Err(e2) => (st2, Err(e2)),
                            Ok(avs) => spec_do_call(st2, cv, avs, f),
                        }
                    },
                }
            },
            ExprModel::Assign { name, value } => {
                let (st1, r1) = spec_eval(st, *value, f);
                match r1 {
                    Err(e1) => (st1, Err(e1)),
                    Ok(v) => match assign_chain(st1.envs, st1.cur, name, v) {
                        Some(envs2) => (StateModel { envs: envs2, ..st1 }, Ok(ValueModel::Null)),
                        None => (
                            st1,
                            Err(FailureModel::Error(RuntimeErrorModel::UndefinedVariable(name))),
                        ),
                    },
                }
            },
            ExprModel::Array(es) => {
                let (st1, r1) = spec_eval_args(st, es, 0, f);
                match r1 {
                    Err(e1) => (st1, Err(e1)),
                    Ok(vs) => (st1, Ok(ValueModel::Array(vs))),
                }
            },
            ExprModel::Function { name, params, body } => (
                st,
                Ok(ValueModel::Func(FunctionModel { name, params, body, closure: st.cur })),
            ),
        }
    }
}

/// Evaluating an argument list left to right from index `i`.
#[verifier::opaque]
pub open spec fn spec_eval_args(st: StateModel, es: Seq<ExprModel>, i: int, fuel: nat) -> (
    StateModel,
    Result<Seq<ValueModel>, FailureModel>,
)
    decreases fuel,
{
    if fuel == 0 {
        (st, Err(FailureModel::Fatal(FatalError::OutOfFuel)))
    } else {
        let f = (fuel - 1) as nat;
        if i < 0 || i >= es.len() {
            (st, Ok(Seq::empty()))
        } else {
            let (st1, r1) = spec_eval(st, es[i], f);
            match r1 {
                Err(e1) => (st1, Err(e1)),
                Ok(v) => {
                    let (st2, r2) = spec_eval_args(st1, es, i + 1, f);
                    match r2 {
                        Err(e2) => (st2, Err(e2)),
                        Ok(rest) => (st2, Ok(seq![v] + rest)),
                    }
                },
            }
        }
    }
}

/// Calling an evaluated callee on evaluated arguments. A closure call
/// runs the body in a fresh scope whose parent is the captured scope;
/// the caller's scope is restored afterwards, error or not. Calling
/// anything not callable is the distinct fatal condition.
#[verifier::opaque]
pub open spec fn spec_do_call(
    st: StateModel,
    callee: ValueModel,
    args: Seq<ValueModel>,
    fuel: nat,
) -> (StateModel, Result<ValueModel, FailureModel>)
    decreases fuel,
{
    if fuel == 0 {
        (st, Err(FailureModel::Fatal(FatalError::OutOfFuel)))
    } else {
        let f = (fuel - 1) as nat;
        match callee {
            ValueModel::Native(nf) => {
                let (st1, v) = spec_native(st, nf, args);
                (st1, Ok(v))
            },
            ValueModel::Func(fm) => {
                let parent: Option<int> = if 0 <= fm.closure < st.envs.len() {
                    Some(fm.closure)
                } else {
                    None
                };
                let newenv = EnvModel {
                    values: bind_args(fm.params, args),
                    exports: Seq::empty(),
                    parent,
                };
                let st1 = StateModel {
                    envs: st.envs.push(newenv),
                    cur: st.envs.len() as int,
                    ..st
                };
                let (st2, r) = spec_exec_stmts(st1, fm.body, 0, f);
                let st3 = StateModel { cur: st.cur, ..st2 };
                match r {
                    Err(e) => (st3, Err(e)),
                    Ok(Some(ControlModel::Return(v))) => (st3, Ok(v)),
                    Ok(None) => (st3, Ok(ValueModel::Null)),
                }
            },
            _ => (st, Err(FailureModel::Fatal(FatalError::NotCallable))),
        }
    }
}

/// Executing statements in order from index `i`, stopping at the first
/// control signal or failure.
#[verifier::opaque]
pub open spec fn spec_exec_stmts(st: StateModel, ss: Seq<StmtModel>, i: int, fuel: nat) -> (
    StateModel,
    Result<Option<ControlModel>, FailureModel>,
)
    decreases fuel,
{
    if fuel == 0 {
        (st, Err(FailureModel::Fatal(FatalError::OutOfFuel)))
    } else {
        let f = (fuel - 1) as nat;
        if i < 0 || i >= ss.len() {
            (st, Ok(None))
        } else {
            let (st1, r) = spec_exec_stmt(st, ss[i], f);
            match r {
                Err(e) => (st1, Err(e)),
                Ok(Some(c)) => (st1, Ok(Some(c))),
                Ok(None) => spec_exec_stmts(st1, ss, i + 1, f),
            }
        }
    }
}

/// Executing one statement. Bodies of `if`, `while` and bare blocks run
/// in the enclosing scope (no fresh scope); the return signal propagates
/// through all of them.
#[verifier::opaque]
pub open spec fn spec_exec_stmt(st: StateModel, s: StmtModel, fuel: nat) -> (
    StateModel,
    Result<Option<ControlModel>, FailureModel>,
)
    decreases fuel,
{
    if fuel == 0 {
        (st, Err(FailureModel::Fatal(FatalError::OutOfFuel)))
    } else {
        let f = (fuel - 1) as nat;
        match s {
            StmtModel::Let { name, value, .. } => {
                let (st1, r) = spec_eval(st, value, f);
                match r {
                    Err(e) => (st1, Err(e)),
                    Ok(v) => (
                        StateModel { envs: define_in(st1.envs, st1.cur, name, v), ..st1 },
                        Ok(None),
                    ),
                }
            },
            StmtModel::Function { name, params, body, .. } => (
                StateModel {
                    envs: define_in(
                        st.envs,
                        st.cur,
                        name,
                        ValueModel::Func(
                            FunctionModel { name, params, body, closure: st.cur },
                        ),
                    ),
                    ..st
                },
                Ok(None),
            ),
            StmtModel::Expr(e) => {
                let (st1, r) = spec_eval(st, e, f);
                match r {
                    Err(er) => (st1, Err(er)),
                    Ok(_) => (st1, Ok(None)),
                }
            },
            StmtModel::Return(oe) => match oe {
                Some(e) => {
                    let (st1, r) = spec_eval(st, e, f);
                    match r {
                        Err(er) => (st1, Err(er)),
                        Ok(v) => (st1, Ok(Some(ControlModel::Return(v)))),
                    }
                },
                None => (st, Ok(Some(ControlModel::Return(ValueModel::Null)))),
            },
            StmtModel::If { condition, then_branch, else_branch } => {
                let (st1, r) = spec_eval(st, condition, f);
                match r {
                    Err(er) => (st1, Err(er)),
                    Ok(cv) => {
                        if spec_as_bool(cv) {
                            spec_exec_stmts(st1, then_branch, 0, f)
                        } else {
                            match else_branch {
                                Some(b) => spec_exec_stmts(st1, b, 0, f),
                                None => (st1, Ok(None)),
                            }
                        }
                    },
                }
            },
            StmtModel::While { condition, body } => spec_while(st, condition, body, f),
            StmtModel::Block(b) => spec_exec_stmts(st, b, 0, f),
            StmtModel::Import(p) => spec_import(st, p, f),
        }
    }
}

/// A while loop: re-evaluate the condition, run the body, and go round
/// again, one unit of fuel per iteration; the return signal stops it.
#[verifier::opaque]
pub open spec fn spec_while(st: StateModel, cond: ExprModel, body: Seq<StmtModel>, fuel: nat) -> (
    StateModel,
    Result<Option<ControlModel>, FailureModel>,
)
    decreases fuel,
{
    if fuel == 0 {
        (st, Err(FailureModel::Fatal(FatalError::OutOfFuel)))
    } else {
        let f = (fuel - 1) as nat;
        let (st1, r) = spec_eval(st, cond, f);
        match r {
            Err(er) => (st1, Err(er)),
            Ok(cv) => {
                if !spec_as_bool(cv) {
                    (st1, Ok(None))
                } else {
                    let (st2, r2) = spec_exec_stmts(st1, body, 0, f);
                    match r2 {
                        Err(er) => (st2, Err(er)),
                        Ok(Some(c)) => (st2, Ok(Some(c))),
                        Ok(None) => spec_while(st2, cond, body, f),
                    }
                }
            },
        }
    }
}

/// Importing a path: an already-imported path is a silent no-op; a
/// module the loader capability recognizes registers its bindings into
/// the current scope; otherwise a preloaded source is scanned, parsed
/// and run in an isolated parentless scope whose top-level bindings are
/// then all copied into the importer's scope; an unknown path is a
/// recoverable error naming it. The importer's scope is restored even
/// when the module fails.
pub open spec fn spec_import(st: StateModel, path: Seq<char>, fuel: nat) -> (
    StateModel,
    Result<Option<ControlModel>, FailureModel>,
)
    decreases fuel,
{
    if fuel == 0 {
        (st, Err(FailureModel::Fatal(FatalError::OutOfFuel)))
    } else {
        let f = (fuel - 1) as nat;
        if contains_str(st.imported, path) {
            (st, Ok(None))
        } else {
            match find_module(st.modules, path) {
                Some(exports) => (
                    StateModel {
                        envs: define_all(st.envs, st.cur, exports, 0),
                        imported: st.imported.push(path),
                        ..st
                    },
                    Ok(None),
                ),
                None => match find_source(st.sources, path) {
                    None => (
                        st,
                        Err(FailureModel::Error(RuntimeErrorModel::UnknownModule(path))),
                    ),
                    Some(src) => match crate::lexer::spec_scan(src) {
                        Err(le) => (st, Err(FailureModel::Error(RuntimeErrorModel::ImportLex(le)))),
                        Ok(toks) => match crate::parser::spec_parse(toks) {
                            Err(pe) => (
                                st,
                                Err(FailureModel::Error(RuntimeErrorModel::ImportParse(pe))),
                            ),
                            Ok(ss) => {
                                let n = st.envs.len() as int;
                                let st1 = StateModel {
                                    envs: st.envs.push(
                                        EnvModel {
                                            values: Seq::empty(),
                                            exports: Seq::empty(),
                                            parent: None,
                                        },
                                    ),
                                    cur: n,
                                    ..st
                                };
                                let (st2, r) = spec_exec_stmts(st1, ss, 0, f);
                                match r {
                                    Err(e) => (StateModel { cur: st.cur, ..st2 }, Err(e)),
                                    Ok(_) => {
                                        let merged = if 0 <= n < st2.envs.len() {
                                            define_all(st2.envs, st.cur, st2.envs[n].values, 0)
                                        } else {
                                            st2.envs
                                        };
                                        (
                                            StateModel {
                                                envs: merged,
                                                cur: st.cur,
                                                imported: st2.imported.push(path),
                                                ..st2
                                            },
                                            Ok(None),
                                        )
                                    },
                                }
                            },
                        },
                    },
                },
            }
        }
    }
}

/// Running a program: statements in order; a return at the top level
/// simply halts the remaining statements.
#[verifier::opaque]
pub open spec fn spec_interpret(st: StateModel, ss: Seq<StmtModel>, i: int, fuel: nat) -> (
    StateModel,
    Result<(), FailureModel>,
)
    decreases fuel,
{
    if fuel == 0 {
        (st, Err(FailureModel::Fatal(FatalError::OutOfFuel)))
    } else {
        let f = (fuel - 1) as nat;
        if i < 0 || i >= ss.len() {
            (st, Ok(()))
        } else {
            let (st1, r) = spec_exec_stmt(st, ss[i], f);
            match r {
                Err(e) => (st1, Err(e)),
                Ok(Some(_)) => (st1, Ok(())),
                Ok(None) => spec_interpret(st1, ss, i + 1, f),
            }
        }
    }
}

/// Where `j` is the latest binding of `name`, looking up finds exactly
/// that binding and updating replaces exactly that slot.
proof fn lemma_entry_found(
    s: Seq<(Seq<char>, ValueModel)>,
    name: Seq<char>,
    val: ValueModel,
    j: int,
)
    requires
        0 <= j < s.len(),
        s[j].0 == name,
        forall|k: int| j < k < s.len() ==> (#[trigger] s[k]).0 != name,
    ensures
        lookup_entries(s, name) == Some(s[j].1),
        update_entries(s, name, val) == s.update(j, (s[j].0, val)),
    decreases s.len(),
{
    if j == s.len() - 1 {
        assert(s.last() == s[j]);
        assert(s.update(j, (s[j].0, val)) =~= s.update(s.len() - 1, (s.last().0, val)));
    } else {
        assert(s.last().0 != name);
        assert(s.drop_last()[j] == s[j]);
        assert(forall|k: int|
            j < k < s.drop_last().len() ==> (#[trigger] s.drop_last()[k]).0 != name);
        lemma_entry_found(s.drop_last(), name, val, j);
        assert(update_entries(s, name, val) == update_entries(s.drop_last(), name, val).push(
            s.last(),
        ));
        assert(s.drop_last().update(j, (s[j].0, val)).push(s.last()) =~= s.update(
            j,
            (s[j].0, val),
        ));
    }
}

/// Where no binding carries `name`, looking it up finds nothing.
proof fn lemma_entry_absent(s: Seq<(Seq<char>, ValueModel)>, name: Seq<char>)
    requires
        forall|k: int| 0 <= k < s.len() ==> (#[trigger] s[k]).0 != name,
    ensures
        lookup_entries(s, name) is None,
    decreases s.len(),
{
    if s.len() > 0 {
        assert(s.last() == s[s.len() - 1]);
        assert(forall|k: int|
            0 <= k < s.drop_last().len() ==> (#[trigger] s.drop_last()[k]).0 != name);
        lemma_entry_absent(s.drop_last(), name);
    }
}

/// Replace one element of a list.
fn vec_set<T>(v: &mut Vec<T>, i: usize, x: T)
    requires
        i < old(v)@.len(),
    ensures
        final(v)@ == old(v)@.update(i as int, x),
{
    let slot = &mut v[i];
    *slot = x;
}

/// The latest binding for `name` in this list, as a fresh copy.
fn lookup_in(entries: &Vec<(String, Value)>, name: &String) -> (r: Option<Value>)
    ensures
        match r {
            Some(v) => lookup_entries(entries_model(entries@), name@) == Some(v.model()),
            None => lookup_entries(entries_model(entries@), name@) is None,
        },
{
    let ghost em = entries_model(entries@);
    let mut j = entries.len();
    while j > 0
        invariant
            j <= entries@.len(),
            em == entries_model(entries@),
            em.len() == entries@.len(),
            forall|k: int| j <= k < em.len() ==> (#[trigger] em[k]).0 != name@,
        decreases j,
    {
        j = j - 1;
        if entries[j].0 == *name {
            proof {
                assert(em[j as int].0 == name@);
                lemma_entry_found(em, name@, em[j as int].1, j as int);
            }
            return Some(clone_value(&entries[j].1));
        }
        proof {
            assert(em[j as int] == (entries@[j as int].0@, entries@[j as int].1.model()));
        }
    }
    proof {
        lemma_entry_absent(em, name@);
    }
    None
}

/// The position of the latest binding for `name`, if any.
fn find_last(entries: &Vec<(String, Value)>, name: &String) -> (r: Option<usize>)
    ensures
        match r {
            Some(j) => j < entries@.len() && entries_model(entries@)[j as int].0 == name@ && forall|
                k: int,
            | j < k < entries@.len() ==> (#[trigger] entries_model(entries@)[k]).0 != name@,
            None => forall|k: int|
                0 <= k < entries@.len() ==> (#[trigger] entries_model(entries@)[k]).0 != name@,
        },
{
    let ghost em = entries_model(entries@);
    let mut j = entries.len();
    while j > 0
        invariant
            j <= entries@.len(),
            em == entries_model(entries@),
            em.len() == entries@.len(),
            forall|k: int| j <= k < em.len() ==> (#[trigger] em[k]).0 != name@,
        decreases j,
    {
        j = j - 1;
        if entries[j].0 == *name {
            proof {
                assert(em[j as int] == (entries@[j as int].0@, entries@[j as int].1.model()));
            }
            return Some(j);
        }
        proof {
            assert(em[j as int] == (entries@[j as int].0@, entries@[j as int].1.model()));
        }
    }
    None
}

/// A root of a magnitude in range stays small enough to rescale.
proof fn lemma_isqrt_small(n: int)
    requires
        0 <= n <= u128::MAX,
    ensures
        spec_isqrt(n) * 1000 <= u128::MAX,
{
    lemma_isqrt_correct(n);
    let r = spec_isqrt(n);
    assert(r < 0x1_0000_0000_0000_0000) by (nonlinear_arith)
        requires
            r >= 0,
            r * r <= n,
            n <= u128::MAX,
    ;
}

pub proof fn lemma_bind_args(params: Seq<Seq<char>>, args: Seq<ValueModel>)
    ensures
        bind_args(params, args).len() == (if params.len() < args.len() {
            params.len()
        } else {
            args.len()
        }),
        forall|i: int|
            0 <= i < bind_args(params, args).len() ==> #[trigger] bind_args(params, args)[i] == (
            params[i],
            args[i],
            ),
    decreases params.len(),
{
    if params.len() > 0 && args.len() > 0 {
        lemma_bind_args(params.drop_first(), args.drop_first());
        assert forall|i: int|
            0 <= i < bind_args(params, args).len() implies #[trigger] bind_args(params, args)[i]
            == (params[i], args[i]) by {
            if i > 0 {
                assert(bind_args(params, args)[i] == bind_args(
                    params.drop_first(),
                    args.drop_first(),
                )[i - 1]);
                assert(params.drop_first()[i - 1] == params[i]);
                assert(args.drop_first()[i - 1] == args[i]);
            }
        }
    }
}

/// Parameters bound positionally to fresh copies of the arguments.
fn bind_args_exec(params: &Vec<String>, args: &Vec<Value>) -> (r: Vec<(String, Value)>)
    ensures
        entries_model(r@) == bind_args(crate::ast::params_model(params@), values_model(args@)),
{
    let ghost pm = crate::ast::params_model(params@);
    let ghost am = values_model(args@);
    proof {
        lemma_bind_args(pm, am);
        lemma_values_model_len(args@);
    }
    let n = if params.len() < args.len() {
        params.len()
    } else {
        args.len()
    };
    let mut r: Vec<(String, Value)> = Vec::new();
    let mut i: usize = 0;
    while i < n
        invariant
            i <= n,
            n == (if params@.len() < args@.len() {
                params@.len()
            } else {
                args@.len()
            }),
            pm == crate::ast::params_model(params@),
            am == values_model(args@),
            am.len() == args@.len(),
            forall|k: int| 0 <= k < args@.len() ==> am[k] == #[trigger] args@[k].model(),
            r@.len() == i,
            forall|k: int|
                0 <= k < i ==> (#[trigger] r@[k]).0@ == pm[k] && r@[k].1.model() == am[k],
        decreases n - i,
    {
        let name = params[i].clone();
        let val = clone_value(&args[i]);
        r.push((name, val));
        i = i + 1;
    }
    proof {
        lemma_bind_args(pm, am);
        assert(entries_model(r@) =~= bind_args(pm, am));
    }
    r
}

/// The print builtin's space-joined text for an argument list.
fn join_args(args: &Vec<Value>) -> (s: String)
    ensures
        s@ == spec_join_args(values_model(args@)),
{
    let ghost m = values_model(args@);
    proof {
        lemma_values_model_len(args@);
    }
    if args.len() == 0 {
        String::new()
    } else {
        let mut out = args[0].render();
        proof {
            assert(m.first() == args@[0].model());
        }
        let mut i: usize = 1;
        while i < args.len()
            invariant
                1 <= i <= args@.len(),
                m == values_model(args@),
                m.len() == args@.len(),
                forall|j: int| 0 <= j < args@.len() ==> m[j] == #[trigger] args@[j].model(),
                out@ + spec_join_rest(m.skip(i as int)) == spec_join_args(m),
            decreases args@.len() - i,
        {
            proof {
                reveal_strlit(" ");
                assert((" "@) =~= seq![' ']);
                assert(m.skip(i as int).first() == m[i as int]);
                assert(m.skip(i as int).drop_first() =~= m.skip(i + 1));
            }
            out.append(" ");
            let piece = args[i].render();
            out.append(piece.as_str());
            i = i + 1;
        }
        proof {
            assert(m.skip(args@.len() as int).len() == 0);
            assert(spec_join_rest(m.skip(args@.len() as int)) =~= Seq::<char>::empty());
            assert(out@ =~= out@ + Seq::<char>::empty());
        }
        out
    }
}

/// The tree-walking evaluator: the scope arena, the current scope, the
/// imported-path set, the injected loader modules, the preloaded import
/// sources, and the text printed so far.
#[derive(Debug)]
pub struct Interpreter {
    pub envs: Vec<Env>,
    pub env: usize,
    pub imported: Vec<String>,
    pub modules: Vec<Module>,
    pub sources: Vec<(String, String)>,
    pub output: String,
}

impl Interpreter {
    pub open spec fn model(self) -> StateModel {
        StateModel {
            envs: self.envs@.map_values(|e: Env| e.model()),
            cur: self.env as int,
            imported: self.imported@.map_values(|s: String| s@),
            modules: self.modules@.map_values(|m: Module| m.model()),
            sources: self.sources@.map_values(|p: (String, String)| (p.0@, p.1@)),
            output: self.output@,
        }
    }

    /// The interpreter's invariant: the current scope exists and every
    /// scope's parent came before it.
    pub open spec fn wf(self) -> bool {
        (self.env as int) < self.envs@.len() && envs_wf(self.model().envs)
    }

    /// A fresh interpreter over one root scope, with the given loader
    /// modules and preloaded import sources.
    pub fn new(modules: Vec<Module>, sources: Vec<(String, String)>) -> (it: Interpreter)
        ensures
            it.wf(),
            it.model().envs =~= seq![
                EnvModel {
                    values: Seq::<(Seq<char>, ValueModel)>::empty(),
                    exports: Seq::<(Seq<char>, ValueModel)>::empty(),
                    parent: None,
                },
            ],
            it.model().cur == 0,
            it.model().imported =~= Seq::<Seq<char>>::empty(),
            it.model().modules == modules@.map_values(|m: Module| m.model()),
            it.model().sources == sources@.map_values(|p: (String, String)| (p.0@, p.1@)),
            it.model().output =~= Seq::<char>::empty(),
    {
        let mut envs: Vec<Env> = Vec::new();
        envs.push(Env::new());
        let it = Interpreter {
            envs,
            env: 0,
            imported: Vec::new(),
            modules,
            sources,
            output: String::new(),
        };
        proof {
            assert(it.model().envs =~= seq![it.envs@[0].model()]);
            assert(it.model().imported =~= Seq::<Seq<char>>::empty());
        }
        it
    }

    /// The value of `name` from scope `e` outward, as a fresh copy.
    pub fn lookup_var(&self, e: usize, name: &String) -> (r: Option<Value>)
        requires
            self.wf(),
            e < self.envs@.len(),
        ensures
            match r {
                Some(v) => lookup_chain(self.model().envs, e as int, name@) == Some(v.model()),
                None => lookup_chain(self.model().envs, e as int, name@) is None,
            },
        decreases e,
    {
        proof {
            assert(self.model().envs[e as int] == self.envs@[e as int].model());
        }
        let own = lookup_in(&self.envs[e].values, name);
        match own {
            Some(v) => Some(v),
            None => {
                match self.envs[e].parent {
                    Some(p) => {
                        proof {
                            assert(self.model().envs[e as int].parent == Some(p as int));
                        }
                        if p < e {
                            self.lookup_var(p, name)
                        } else {
                            None
                        }
                    },
                    None => None,
                }
            },
        }
    }

    /// Overwrite `name` in the innermost scope of the chain that owns
    /// it; whether any scope did.
    pub fn assign_var(&mut self, e: usize, name: &String, val: Value) -> (r: bool)
        requires
            old(self).wf(),
            e < old(self).envs@.len(),
        ensures
            final(self).wf(),
            final(self).env == old(self).env,
            final(self).envs@.len() == old(self).envs@.len(),
            r ==> assign_chain(old(self).model().envs, e as int, name@, val.model()) == Some(
                final(self).model().envs,
            ),
            !r ==> assign_chain(old(self).model().envs, e as int, name@, val.model()) is None
                && final(self).model() == old(self).model(),
            final(self).model() == (StateModel { envs: final(self).model().envs, ..old(self).model() }),
        decreases e,
    {
        let ghost m0 = self.model();
        let ghost vm = val.model();
        proof {
            assert(m0.envs[e as int] == self.envs@[e as int].model());
        }
        match find_last(&self.envs[e].values, name) {
            Some(j) => {
                let ghost em = entries_model(self.envs@[e as int].values@);
                proof {
                    lemma_entry_found(em, name@, vm, j as int);
                }
                let key = self.envs[e].values[j].0.clone();
                let ghost pre = self.envs@[e as int].values@;
                let en = &mut self.envs[e];
                vec_set(&mut en.values, j, (key, val));
                proof {
                    let newe = self.envs@[e as int].values@;
                    assert(newe[j as int].0@ == em[j as int].0);
                    assert(newe[j as int].1.model() == vm);
                    assert forall|k: int|
                        0 <= k < newe.len() implies entries_model(newe)[k] == em.update(
                        j as int,
                        (em[j as int].0, vm),
                    )[k] by {
                        if k != j as int {
                            assert(newe[k] == pre[k]);
                            assert(em[k] == (pre[k].0@, pre[k].1.model()));
                        }
                    }
                    assert(entries_model(newe) =~= em.update(j as int, (em[j as int].0, vm)));
                    assert(self.model().envs =~= m0.envs.update(
                        e as int,
                        self.envs@[e as int].model(),
                    ));
                    assert(self.envs@[e as int].model() =~= (EnvModel {
                        values: update_entries(m0.envs[e as int].values, name@, vm),
                        ..m0.envs[e as int]
                    }));
                    assert(self.model() =~= (StateModel { envs: self.model().envs, ..m0 }));
                    assert forall|jj: int|
                        0 <= jj < self.model().envs.len() implies match (
                    #[trigger] self.model().envs[jj]).parent {
                        Some(p) => 0 <= p < jj,
                        None => true,
                    } by {
                        assert(m0.envs[jj].parent == self.model().envs[jj].parent);
                    }
                }
                true
            },
            None => {
                proof {
                    lemma_entry_absent(entries_model(self.envs@[e as int].values@), name@);
                }
                match self.envs[e].parent {
                    Some(p) => {
                        proof {
                            assert(self.model().envs[e as int].parent == Some(p as int));
                        }
                        if p < e {
                            self.assign_var(p, name, val)
                        } else {
                            false
                        }
                    },
                    None => false,
                }
            },
        }
    }

    /// Bind `name` in scope `e` alone.
    pub fn define_var(&mut self, e: usize, name: String, val: Value)
        requires
            old(self).wf(),
            e < old(self).envs@.len(),
        ensures
            final(self).wf(),
            final(self).env == old(self).env,
            final(self).envs@.len() == old(self).envs@.len(),
            final(self).model() == (StateModel {
                envs: define_in(old(self).model().envs, e as int, name@, val.model()),
                ..old(self).model()
            }),
    {
        let ghost m0 = self.model();
        let ghost nm = name@;
        let ghost vm = val.model();
        proof {
            assert(m0.envs[e as int] == self.envs@[e as int].model());
        }
        let en = &mut self.envs[e];
        en.define(name, val);
        proof {
            assert(self.model().envs =~= m0.envs.update(
                e as int,
                self.envs@[e as int].model(),
            ));
            assert(self.envs@[e as int].model() == (EnvModel {
                values: m0.envs[e as int].values.push((nm, vm)),
                ..m0.envs[e as int]
            }));
            assert(self.model().envs =~= define_in(m0.envs, e as int, nm, vm));
            assert(self.model() =~= (StateModel { envs: self.model().envs, ..m0 }));
            assert forall|j: int|
                0 <= j < self.model().envs.len() implies match (
            #[trigger] self.model().envs[j]).parent {
                Some(p) => 0 <= p < j,
                None => true,
            } by {
                assert(m0.envs[j].parent == self.model().envs[j].parent);
            }
        }
    }

    /// Whether `path` was imported before (by exact text).
    pub fn contains_path(&self, path: &String) -> (r: bool)
        ensures
            r == contains_str(self.model().imported, path@),
    {
        let ghost im = self.model().imported;
        let mut i: usize = 0;
        while i < self.imported.len()
            invariant
                i <= self.imported@.len(),
                im == self.model().imported,
                im.len() == self.imported@.len(),
                forall|k: int| 0 <= k < i ==> im[k] != path@,
            decreases self.imported@.len() - i,
        {
            proof {
                assert(im[i as int] == self.imported@[i as int]@);
            }
            if self.imported[i] == *path {
                proof {
                    assert(contains_str(im, path@));
                }
                return true;
            }
            i = i + 1;
        }
        proof {
            assert(!contains_str(im, path@));
        }
        false
    }

    /// The exports of the first loader module under `path`, as copies.
    pub fn find_module_exec(&self, path: &String) -> (r: Option<Vec<(String, Value)>>)
        ensures
            match r {
                Some(es) => find_module(self.model().modules, path@) == Some(entries_model(es@)),
                None => find_module(self.model().modules, path@) is None,
            },
    {
        let ghost mm = self.model().modules;
        proof {
            assert(mm.skip(0) =~= mm);
        }
        let mut i: usize = 0;
        while i < self.modules.len()
            invariant
                i <= self.modules@.len(),
                mm == self.model().modules,
                mm.len() == self.modules@.len(),
                find_module(mm, path@) == find_module(mm.skip(i as int), path@),
            decreases self.modules@.len() - i,
        {
            proof {
                assert(mm.skip(i as int).first() == mm[i as int]);
                assert(mm[i as int] == self.modules@[i as int].model());
                assert(mm.skip(i as int).drop_first() =~= mm.skip(i + 1));
            }
            if self.modules[i].path == *path {
                return Some(clone_entries(&self.modules[i].exports));
            }
            i = i + 1;
        }
        proof {
            assert(mm.skip(self.modules@.len() as int).len() == 0);
        }
        None
    }

    /// The first preloaded source under `path`, as a copy.
    pub fn find_source_exec(&self, path: &String) -> (r: Option<String>)
        ensures
            match r {
                Some(s) => find_source(self.model().sources, path@) == Some(s@),
                None => find_source(self.model().sources, path@) is None,
            },
    {
        let ghost sm = self.model().sources;
        proof {
            assert(sm.skip(0) =~= sm);
        }
        let mut i: usize = 0;
        while i < self.sources.len()
            invariant
                i <= self.sources@.len(),
                sm == self.model().sources,
                sm.len() == self.sources@.len(),
                find_source(sm, path@) == find_source(sm.skip(i as int), path@),
            decreases self.sources@.len() - i,
        {
            proof {
                assert(sm.skip(i as int).first() == sm[i as int]);
                assert(sm[i as int] == (self.sources@[i as int].0@, self.sources@[i as int].1@));
                assert(sm.skip(i as int).drop_first() =~= sm.skip(i + 1));
            }
            if self.sources[i].0 == *path {
                return Some(self.sources[i].1.clone());
            }
            i = i + 1;
        }
        proof {
            assert(sm.skip(self.sources@.len() as int).len() == 0);
        }
        None
    }

    /// Each entry defined into scope `e`, in order.
    pub fn define_entries(&mut self, e: usize, entries: &Vec<(String, Value)>, i: usize)
        requires
            old(self).wf(),
            e < old(self).envs@.len(),
        ensures
            final(self).wf(),
            final(self).env == old(self).env,
            final(self).envs@.len() == old(self).envs@.len(),
            final(self).model() == (StateModel {
                envs: define_all(
                    old(self).model().envs,
                    e as int,
                    entries_model(entries@),
                    i as int,
                ),
                ..old(self).model()
            }),
        decreases entries@.len() - i,
    {
        let ghost m0 = self.model();
        let ghost em = entries_model(entries@);
        if i < entries.len() {
            proof {
                assert(em[i as int] == (entries@[i as int].0@, entries@[i as int].1.model()));
            }
            let name = entries[i].0.clone();
            let val = clone_value(&entries[i].1);
            self.define_var(e, name, val);
            self.define_entries(e, entries, i + 1);
            proof {
                assert(self.model() =~= (StateModel {
                    envs: define_all(m0.envs, e as int, em, i as int),
                    ..m0
                }));
            }
        } else {
            proof {
                assert(self.model() =~= (StateModel {
                    envs: define_all(m0.envs, e as int, em, i as int),
                    ..m0
                }));
            }
        }
    }
}

/// Executing a statement sequence in a chosen scope: with no scope
/// given, the caller's scope is reused; with one, it is entered for the
/// span of the block and restored afterwards.
pub open spec fn spec_exec_block(
    st: StateModel,
    ss: Seq<StmtModel>,
    oenv: Option<int>,
    fuel: nat,
) -> (StateModel, Result<Option<ControlModel>, FailureModel>) {
    match oenv {
        None => spec_exec_stmts(st, ss, 0, fuel),
        Some(e) => {
            let st1 = StateModel { cur: e, ..st };
            let (st2, r) = spec_exec_stmts(st1, ss, 0, fuel);
            (StateModel { cur: st.cur, ..st2 }, r)
        },
    }
}

impl Interpreter {
    /// Evaluate one expression, as `spec_eval` describes.
    #[verifier::rlimit(50)]
    #[verifier::spinoff_prover]
    pub fn evaluate(&mut self, expr: &Expr, fuel: u64) -> (r: Result<Value, Failure>)
        requires
            old(self).wf(),
        ensures
            final(self).wf(),
            final(self).envs@.len() >= old(self).envs@.len(),
            ({
                let (stm, rm) = spec_eval(old(self).model(), expr.model(), fuel as nat);
                final(self).model() == stm && (match r {
                    Ok(v) => rm == Ok::<ValueModel, FailureModel>(v.model()),
                    Err(f) => rm == Err::<ValueModel, FailureModel>(f.model()),
                })
            }),
        decreases fuel, 1int,
    {
        proof {
            reveal(spec_eval);
        }
        if fuel == 0 {
            return Err(Failure::Fatal(FatalError::OutOfFuel));
        }
        let f = fuel - 1;
        match expr {
            Expr::Literal(l) => match l {
                crate::ast::ValueLiteral::Number(n) => Ok(Value::Num(*n)),
                crate::ast::ValueLiteral::Str(s) => Ok(Value::Str(s.clone())),
                crate::ast::ValueLiteral::Bool(b) => Ok(Value::Bool(*b)),
                crate::ast::ValueLiteral::Null => Ok(Value::Null),
            },
            Expr::Variable(n) => {
                let e = self.env;
                match self.lookup_var(e, n) {
                    Some(v) => Ok(v),
                    None => Err(Failure::Error(RuntimeError::UndefinedVariable(n.clone()))),
                }
            },
            Expr::Binary { left, operator, right } => {
                let lv = match self.evaluate(&**left, f) {
                    Err(er) => {
                        return Err(er);
                    },
                    Ok(v) => v,
                };
                let rv = match self.evaluate(&**right, f) {
                    Err(er) => {
                        return Err(er);
                    },
                    Ok(v) => v,
                };
                eval_binary(lv, operator, rv)
            },
            Expr::Call { callee, args } => {
                let cv = match self.evaluate(&**callee, f) {
                    Err(er) => {
                        return Err(er);
                    },
                    Ok(v) => v,
                };
                let avs = match self.eval_args(args, 0, f) {
                    Err(er) => {
                        return Err(er);
                    },
                    Ok(vs) => vs,
                };
                self.do_call(cv, avs, f)
            },
            Expr::Assign { name, value } => {
                let v = match self.evaluate(&**value, f) {
                    Err(er) => {
                        return Err(er);
                    },
                    Ok(v) => v,
                };
                let e = self.env;
                if self.assign_var(e, name, v) {
                    Ok(Value::Null)
                } else {
                    Err(Failure::Error(RuntimeError::UndefinedVariable(name.clone())))
                }
            },
            Expr::Array(es) => {
                let vs = match self.eval_args(es, 0, f) {
                    Err(er) => {
                        return Err(er);
                    },
                    Ok(vs) => vs,
                };
                Ok(Value::Array(vs))
            },
            Expr::Function { name, params, body } => {
                let func = Function {
                    name: name.clone(),
                    params: clone_strings(params),
                    body: clone_stmts(body),
                    closure: self.env,
                };
                Ok(Value::Func(func))
            },
        }
    }

    /// Evaluate an argument list left to right from index `i`.
    #[verifier::rlimit(50)]
    #[verifier::spinoff_prover]
    pub fn eval_args(&mut self, es: &Vec<Expr>, i: usize, fuel: u64) -> (r: Result<
        Vec<Value>,
        Failure,
    >)
        requires
            old(self).wf(),
        ensures
            final(self).wf(),
            final(self).envs@.len() >= old(self).envs@.len(),
            ({
                let (stm, rm) = spec_eval_args(
                    old(self).model(),
                    crate::ast::exprs_model(es@),
                    i as int,
                    fuel as nat,
                );
                final(self).model() == stm && (match r {
                    Ok(vs) => rm == Ok::<Seq<ValueModel>, FailureModel>(values_model(vs@)),
                    Err(f) => rm == Err::<Seq<ValueModel>, FailureModel>(f.model()),
                })
            }),
        decreases fuel, 1int,
    {
        proof {
            reveal(spec_eval_args);
            crate::ast::lemma_exprs_model_len(es@);
        }
        if fuel == 0 {
            return Err(Failure::Fatal(FatalError::OutOfFuel));
        }
        let f = fuel - 1;
        if i >= es.len() {
            let vs: Vec<Value> = Vec::new();
            proof {
                assert(values_model(vs@) =~= Seq::<ValueModel>::empty());
            }
            Ok(vs)
        } else {
            let v = match self.evaluate(&es[i], f) {
                Err(er) => {
                    return Err(er);
                },
                Ok(v) => v,
            };
            let mut rest = match self.eval_args(es, i + 1, f) {
                Err(er) => {
                    return Err(er);
                },
                Ok(vs) => vs,
            };
            let ghost vm = v.model();
            let ghost rest0 = rest@;
            let mut vs: Vec<Value> = Vec::new();
            vs.push(v);
            vs.append(&mut rest);
            proof {
                assert(vs@ =~= seq![vs@[0]] + rest0);
                lemma_values_model_len(vs@);
                lemma_values_model_len(rest0);
                assert forall|k: int|
                    0 <= k < vs@.len() implies values_model(vs@)[k] == (seq![vm] + values_model(
                    rest0,
                ))[k] by {
                    if k == 0 {
                        assert(values_model(vs@)[0] == vs@[0].model());
                    } else {
                        assert(vs@[k] == rest0[k - 1]);
                        assert(values_model(vs@)[k] == vs@[k].model());
                        assert(values_model(rest0)[k - 1] == rest0[k - 1].model());
                    }
                }
                assert(values_model(vs@) =~= seq![vm] + values_model(rest0));
            }
            Ok(vs)
        }
    }

    /// Call an evaluated callee on evaluated arguments, as
    /// `spec_do_call` describes.
    #[verifier::rlimit(50)]
    #[verifier::spinoff_prover]
    pub fn do_call(&mut self, callee: Value, args: Vec<Value>, fuel: u64) -> (r: Result<
        Value,
        Failure,
    >)
        requires
            old(self).wf(),
        ensures
            final(self).wf(),
            final(self).envs@.len() >= old(self).envs@.len(),
            ({
                let (stm, rm) = spec_do_call(
                    old(self).model(),
                    callee.model(),
                    values_model(args@),
                    fuel as nat,
                );
                final(self).model() == stm && (match r {
                    Ok(v) => rm == Ok::<ValueModel, FailureModel>(v.model()),
                    Err(f) => rm == Err::<ValueModel, FailureModel>(f.model()),
                })
            }),
        decreases fuel, 1int,
    {
        proof {
            reveal(spec_do_call);
        }
        if fuel == 0 {
            return Err(Failure::Fatal(FatalError::OutOfFuel));
        }
        let f = fuel - 1;
        match callee {
            Value::Native(nf) => {
                let v = self.call_native(nf, args);
                Ok(v)
            },
            Value::Func(func) => {
                let ghost m0 = self.model();
                let parent: Option<usize> = if func.closure < self.envs.len() {
                    Some(func.closure)
                } else {
                    None
                };
                let bound = bind_args_exec(&func.params, &args);
                let newenv = Env { values: bound, exports: Vec::new(), parent };
                let idx = self.envs.len();
                self.envs.push(newenv);
                let saved = self.env;
                self.env = idx;
                proof {
                    assert(self.model().envs =~= m0.envs.push(self.envs@.last().model()));
                    assert(self.envs@.last().model().values == bind_args(
                        func.model().params,
                        values_model(args@),
                    ));
                    assert(self.envs@.last().model().exports =~= Seq::<
                        (Seq<char>, ValueModel),
                    >::empty());
                    assert forall|j: int|
                        0 <= j < self.model().envs.len() implies match (
                    #[trigger] self.model().envs[j]).parent {
                        Some(p) => 0 <= p < j,
                        None => true,
                    } by {
                        if j < m0.envs.len() {
                            assert(self.model().envs[j] == m0.envs[j]);
                        }
                    }
                    assert(self.model() =~= (StateModel {
                        envs: self.model().envs,
                        cur: idx as int,
                        ..m0
                    }));
                }
                let res = self.exec_stmts(&func.body, 0, f);
                self.env = saved;
                proof {
                    assert(self.model() =~= (StateModel { cur: saved as int, ..self.model() }));
                }
                match res {
                    Err(e) => Err(e),
                    Ok(Some(RuntimeControl::Return(v))) => Ok(v),
                    Ok(None) => Ok(Value::Null),
                }
            },
            _ => Err(Failure::Fatal(FatalError::NotCallable)),
        }
    }

    /// Run a host callable.
    #[verifier::rlimit(50)]
    #[verifier::spinoff_prover]
    pub fn call_native(&mut self, nf: NativeFn, args: Vec<Value>) -> (v: Value)
        requires
            old(self).wf(),
        ensures
            final(self).wf(),
            final(self).envs@.len() >= old(self).envs@.len(),
            ({
                let (stm, vm) = spec_native(old(self).model(), nf, values_model(args@));
                final(self).model() == stm && v.model() == vm
            }),
    {
        let ghost m0 = self.model();
        match nf {
            NativeFn::Print => {
                let text = join_args(&args);
                self.output.append(text.as_str());
                proof {
                    reveal_strlit("\n");
                    assert(("\n"@) =~= seq!['\n']);
                }
                self.output.append("\n");
                proof {
                    assert(self.model() =~= (StateModel {
                        output: m0.output + spec_join_args(values_model(args@)) + seq!['\n'],
                        ..m0
                    }));
                }
                Value::Null
            },
            NativeFn::Sqrt => {
                proof {
                    lemma_values_model_len(args@);
                    if args@.len() >= 1 {
                        assert(values_model(args@)[0] == args@[0].model());
                    }
                }
                if args.len() >= 1 {
                    match &args[0] {
                        Value::Num(n) => Value::Num(sqrt_number(*n)),
                        _ => Value::Null,
                    }
                } else {
                    Value::Null
                }
            },
        }
    }

    /// Execute statements in order from index `i`, as `spec_exec_stmts`
    /// describes.
    #[verifier::rlimit(50)]
    #[verifier::spinoff_prover]
    pub fn exec_stmts(&mut self, ss: &Vec<Stmt>, i: usize, fuel: u64) -> (r: Result<
        Option<RuntimeControl>,
        Failure,
    >)
        requires
            old(self).wf(),
        ensures
            final(self).wf(),
            final(self).envs@.len() >= old(self).envs@.len(),
            ({
                let (stm, rm) = spec_exec_stmts(
                    old(self).model(),
                    crate::ast::stmts_model(ss@),
                    i as int,
                    fuel as nat,
                );
                final(self).model() == stm && (match r {
                    Ok(None) => rm == Ok::<Option<ControlModel>, FailureModel>(None),
                    Ok(Some(c)) => rm == Ok::<Option<ControlModel>, FailureModel>(Some(c.model())),
                    Err(f) => rm == Err::<Option<ControlModel>, FailureModel>(f.model()),
                })
            }),
        decreases fuel, 1int,
    {
        proof {
            reveal(spec_exec_stmts);
            crate::ast::lemma_stmts_model_len(ss@);
        }
        if fuel == 0 {
            return Err(Failure::Fatal(FatalError::OutOfFuel));
        }
        let f = fuel - 1;
        if i >= ss.len() {
            Ok(None)
        } else {
            match self.execute(&ss[i], f) {
                Err(e) => Err(e),
                Ok(Some(c)) => Ok(Some(c)),
                Ok(None) => self.exec_stmts(ss, i + 1, f),
            }
        }
    }

    /// Execute one statement, as `spec_exec_stmt` describes.
    #[verifier::rlimit(50)]
    #[verifier::spinoff_prover]
    pub fn execute(&mut self, stmt: &Stmt, fuel: u64) -> (r: Result<
        Option<RuntimeControl>,
        Failure,
    >)
        requires
            old(self).wf(),
        ensures
            final(self).wf(),
            final(self).envs@.len() >= old(self).envs@.len(),
            ({
                let (stm, rm) = spec_exec_stmt(old(self).model(), stmt.model(), fuel as nat);
                final(self).model() == stm && (match r {
                    Ok(None) => rm == Ok::<Option<ControlModel>, FailureModel>(None),
                    Ok(Some(c)) => rm == Ok::<Option<ControlModel>, FailureModel>(Some(c.model())),
                    Err(f) => rm == Err::<Option<ControlModel>, FailureModel>(f.model()),
                })
            }),
        decreases fuel, 2int,
    {
        proof {
            reveal(spec_exec_stmt);
        }
        if fuel == 0 {
            return Err(Failure::Fatal(FatalError::OutOfFuel));
        }
        let f = fuel - 1;
        match stmt {
            Stmt::Let { name, value, .. } => {
                let v = match self.evaluate(value, f) {
                    Err(er) => {
                        return Err(er);
                    },
                    Ok(v) => v,
                };
                let e = self.env;
                self.define_var(e, name.clone(), v);
                Ok(None)
            },
            Stmt::Function { name, params, body, .. } => {
                let func = Function {
                    name: name.clone(),
                    params: clone_strings(params),
                    body: clone_stmts(body),
                    closure: self.env,
                };
                let e = self.env;
                self.define_var(e, name.clone(), Value::Func(func));
                Ok(None)
            },
            Stmt::Expr(e) => {
                match self.evaluate(e, f) {
                    Err(er) => Err(er),
                    Ok(_) => Ok(None),
                }
            },
            Stmt::Return(oe) => match oe {
                Some(e) => {
                    let v = match self.evaluate(e, f) {
                        Err(er) => {
                            return Err(er);
                        },
                        Ok(v) => v,
                    };
                    Ok(Some(RuntimeControl::Return(v)))
                },
                None => Ok(Some(RuntimeControl::Return(Value::Null))),
            },
            Stmt::If { condition, then_branch, else_branch } => {
                let cv = match self.evaluate(condition, f) {
                    Err(er) => {
                        return Err(er);
                    },
                    Ok(v) => v,
                };
                if cv.as_bool() {
                    self.exec_stmts(then_branch, 0, f)
                } else {
                    match else_branch {
                        Some(b) => self.exec_stmts(b, 0, f),
                        None => Ok(None),
                    }
                }
            },
            Stmt::While { condition, body } => self.run_while(condition, body, f),
            Stmt::Block(b) => self.exec_stmts(b, 0, f),
            Stmt::Import(p) => self.execute_import(p, f),
        }
    }

    /// Run a while loop, one unit of fuel per iteration, as `spec_while`
    /// describes.
    #[verifier::rlimit(50)]
    #[verifier::spinoff_prover]
    pub fn run_while(&mut self, cond: &Expr, body: &Vec<Stmt>, fuel: u64) -> (r: Result<
        Option<RuntimeControl>,
        Failure,
    >)
        requires
            old(self).wf(),
        ensures
            final(self).wf(),
            final(self).envs@.len() >= old(self).envs@.len(),
            ({
                let (stm, rm) = spec_while(
                    old(self).model(),
                    cond.model(),
                    crate::ast::stmts_model(body@),
                    fuel as nat,
                );
                final(self).model() == stm && (match r {
                    Ok(None) => rm == Ok::<Option<ControlModel>, FailureModel>(None),
                    Ok(Some(c)) => rm == Ok::<Option<ControlModel>, FailureModel>(Some(c.model())),
                    Err(f) => rm == Err::<Option<ControlModel>, FailureModel>(f.model()),
                })
            }),
        decreases fuel, 1int,
    {
        proof {
            reveal(spec_while);
        }
        if fuel == 0 {
            return Err(Failure::Fatal(FatalError::OutOfFuel));
        }
        let f = fuel - 1;
        let cv = match self.evaluate(cond, f) {
            Err(er) => {
                return Err(er);
            },
            Ok(v) => v,
        };
        if !cv.as_bool() {
            Ok(None)
        } else {
            match self.exec_stmts(body, 0, f) {
                Err(er) => Err(er),
                Ok(Some(c)) => Ok(Some(c)),
                Ok(None) => self.run_while(cond, body, f),
            }
        }
    }

    /// Import a path, as `spec_import` describes.
    #[verifier::rlimit(50)]
    #[verifier::spinoff_prover]
    pub fn execute_import(&mut self, path: &String, fuel: u64) -> (r: Result<
        Option<RuntimeControl>,
        Failure,
    >)
        requires
            old(self).wf(),
        ensures
            final(self).wf(),
            final(self).envs@.len() >= old(self).envs@.len(),
            ({
                let (stm, rm) = spec_import(old(self).model(), path@, fuel as nat);
                final(self).model() == stm && (match r {
                    Ok(None) => rm == Ok::<Option<ControlModel>, FailureModel>(None),
                    Ok(Some(c)) => rm == Ok::<Option<ControlModel>, FailureModel>(Some(c.model())),
                    Err(f) => rm == Err::<Option<ControlModel>, FailureModel>(f.model()),
                })
            }),
        decreases fuel, 1int,
    {
        if fuel == 0 {
            return Err(Failure::Fatal(FatalError::OutOfFuel));
        }
        let f = fuel - 1;
        let ghost m0 = self.model();
        if self.contains_path(path) {
            return Ok(None);
        }
        match self.find_module_exec(path) {
            Some(exports) => {
                let e = self.env;
                self.define_entries(e, &exports, 0);
                self.imported.push(path.clone());
                proof {
                    assert(self.model().imported =~= m0.imported.push(path@));
                    assert(self.model() =~= (StateModel {
                        envs: define_all(m0.envs, m0.cur, entries_model(exports@), 0),
                        imported: m0.imported.push(path@),
                        ..m0
                    }));
                }
                Ok(None)
            },
            None => {
                match self.find_source_exec(path) {
                    None => Err(Failure::Error(RuntimeError::UnknownModule(path.clone()))),
                    Some(src) => {
                        match crate::lexer::scan(src.as_str()) {
                            Err(le) => Err(Failure::Error(RuntimeError::ImportLex(le))),
                            Ok(tokens) => {
                                match crate::parser::parse(tokens) {
                                    Err(pe) => Err(Failure::Error(RuntimeError::ImportParse(pe))),
                                    Ok(stmts) => {
                                        let n = self.envs.len();
                                        self.envs.push(Env::new());
                                        let saved = self.env;
                                        self.env = n;
                                        proof {
                                            assert(self.model().envs =~= m0.envs.push(
                                                self.envs@.last().model(),
                                            ));
                                            assert forall|j: int|
                                                0 <= j < self.model().envs.len() implies match (
                                            #[trigger] self.model().envs[j]).parent {
                                                Some(p) => 0 <= p < j,
                                                None => true,
                                            } by {
                                                if j < m0.envs.len() {
                                                    assert(self.model().envs[j] == m0.envs[j]);
                                                }
                                            }
                                            assert(self.model() =~= (StateModel {
                                                envs: self.model().envs,
                                                cur: n as int,
                                                ..m0
                                            }));
                                        }
                                        let res = self.exec_stmts(&stmts, 0, f);
                                        self.env = saved;
                                        proof {
                                            assert(self.model() =~= (StateModel {
                                                cur: saved as int,
                                                ..self.model()
                                            }));
                                        }
                                        match res {
                                            Err(e2) => Err(e2),
                                            Ok(_) => {
                                                let merged = clone_entries(&self.envs[n].values);
                                                proof {
                                                    assert(self.model().envs[n as int]
                                                        == self.envs@[n as int].model());
                                                }
                                                let e = self.env;
                                                let ghost m2 = self.model();
                                                self.define_entries(e, &merged, 0);
                                                self.imported.push(path.clone());
                                                proof {
                                                    assert(self.model().imported =~= m2
                                                        .imported.push(path@));
                                                    assert(self.model() =~= (StateModel {
                                                        envs: define_all(
                                                            m2.envs,
                                                            saved as int,
                                                            m2.envs[n as int].values,
                                                            0,
                                                        ),
                                                        imported: m2.imported.push(path@),
                                                        ..m2
                                                    }));
                                                }
                                                Ok(None)
                                            },
                                        }
                                    },
                                }
                            },
                        }
                    },
                }
            },
        }
    }

    /// Execute a statement sequence, optionally in a chosen scope that
    /// is entered for the block and restored afterwards.
    #[verifier::rlimit(50)]
    #[verifier::spinoff_prover]
    pub fn execute_block(&mut self, statements: &Vec<Stmt>, env: Option<usize>, fuel: u64) -> (r:
        Result<Option<RuntimeControl>, Failure>)
        requires
            old(self).wf(),
            match env {
                Some(e) => e < old(self).envs@.len(),
                None => true,
            },
        ensures
            final(self).wf(),
            final(self).envs@.len() >= old(self).envs@.len(),
            ({
                let (stm, rm) = spec_exec_block(
                    old(self).model(),
                    crate::ast::stmts_model(statements@),
                    match env {
                        Some(e) => Some(e as int),
                        None => None,
                    },
                    fuel as nat,
                );
                final(self).model() == stm && (match r {
                    Ok(None) => rm == Ok::<Option<ControlModel>, FailureModel>(None),
                    Ok(Some(c)) => rm == Ok::<Option<ControlModel>, FailureModel>(Some(c.model())),
                    Err(f) => rm == Err::<Option<ControlModel>, FailureModel>(f.model()),
                })
            }),
        decreases fuel, 2int,
    {
        match env {
            None => self.exec_stmts(statements, 0, fuel),
            Some(e) => {
                let ghost m0 = self.model();
                let saved = self.env;
                self.env = e;
                proof {
                    assert(self.model() =~= (StateModel { cur: e as int, ..m0 }));
                }
                let r = self.exec_stmts(statements, 0, fuel);
                self.env = saved;
                proof {
                    assert(self.model() =~= (StateModel { cur: saved as int, ..self.model() }));
                }
                r
            },
        }
    }

    /// Run a program from statement `i`: a return at the top level halts
    /// the remaining statements, as `spec_interpret` describes.
    #[verifier::rlimit(50)]
    #[verifier::spinoff_prover]
    pub fn interpret_from(&mut self, statements: &Vec<Stmt>, i: usize, fuel: u64) -> (r: Result<
        (),
        Failure,
    >)
        requires
            old(self).wf(),
        ensures
            final(self).wf(),
            final(self).envs@.len() >= old(self).envs@.len(),
            ({
                let (stm, rm) = spec_interpret(
                    old(self).model(),
                    crate::ast::stmts_model(statements@),
                    i as int,
                    fuel as nat,
                );
                final(self).model() == stm && (match r {
                    Ok(_) => rm == Ok::<(), FailureModel>(()),
                    Err(f) => rm == Err::<(), FailureModel>(f.model()),
                })
            }),
        decreases fuel, 2int,
    {
        proof {
            reveal(spec_interpret);
            crate::ast::lemma_stmts_model_len(statements@);
        }
        if fuel == 0 {
            return Err(Failure::Fatal(FatalError::OutOfFuel));
        }
        let f = fuel - 1;
        if i >= statements.len() {
            Ok(())
        } else {
            match self.execute(&statements[i], f) {
                Err(e) => Err(e),
                Ok(Some(_)) => Ok(()),
                Ok(None) => self.interpret_from(statements, i + 1, f),
            }
        }
    }

    /// Run a whole program under the given step budget.
    pub fn interpret(&mut self, statements: &Vec<Stmt>, fuel: u64) -> (r: Result<(), Failure>)
        requires
            old(self).wf(),
        ensures
            final(self).wf(),
            ({
                let (stm, rm) = spec_interpret(
                    old(self).model(),
                    crate::ast::stmts_model(statements@),
                    0,
                    fuel as nat,
                );
                final(self).model() == stm && (match r {
                    Ok(_) => rm == Ok::<(), FailureModel>(()),
                    Err(f) => rm == Err::<(), FailureModel>(f.model()),
                })
            }),
    {
        self.interpret_from(statements, 0, fuel)
    }

    /// Run a whole program under the given step budget.
    pub fn run(&mut self, statements: &Vec<Stmt>, fuel: u64) -> (r: Result<(), Failure>)
        requires
            old(self).wf(),
        ensures
            final(self).wf(),
            ({
                let (stm, rm) = spec_interpret(
                    old(self).model(),
                    crate::ast::stmts_model(statements@),
                    0,
                    fuel as nat,
                );
                final(self).model() == stm && (match r {
                    Ok(_) => rm == Ok::<(), FailureModel>(()),
                    Err(f) => rm == Err::<(), FailureModel>(f.model()),
                })
            }),
    {
        self.interpret_from(statements, 0, fuel)
    }
}

/// Importing a path that is already in the imported set is observably a
/// no-op: the state comes back untouched, side effects and all.
pub proof fn lemma_import_already_seen(st: StateModel, path: Seq<char>, fuel: nat)
    requires
        fuel > 0,
        contains_str(st.imported, path),
    ensures
        spec_import(st, path, fuel) == (st, Ok::<Option<ControlModel>, FailureModel>(None)),
{
}

/// A successful import leaves its path in the imported set.
pub proof fn lemma_import_marks_path(st: StateModel, path: Seq<char>, fuel: nat)
    requires
        fuel > 0,
        spec_import(st, path, fuel).1 is Ok,
    ensures
        contains_str(spec_import(st, path, fuel).0.imported, path),
{
    reveal_with_fuel(spec_import, 3);
    reveal_with_fuel(spec_exec_stmts, 2);
    if contains_str(st.imported, path) {
    } else {
        match find_module(st.modules, path) {
            Some(_) => {
                let im2 = st.imported.push(path);
                assert(im2[st.imported.len() as int] == path);
                assert(spec_import(st, path, fuel).0.imported == im2);
            },
            None => match find_source(st.sources, path) {
                None => {},
                Some(src) => match crate::lexer::spec_scan(src) {
                    Err(_) => {},
                    Ok(toks) => match crate::parser::spec_parse(toks) {
                        Err(_) => {},
                        Ok(ss) => {
                            let n = st.envs.len() as int;
                            let st1 = StateModel {
                                envs: st.envs.push(
                                    EnvModel {
                                        values: Seq::empty(),
                                        exports: Seq::empty(),
                                        parent: None,
                                    },
                                ),
                                cur: n,
                                ..st
                            };
                            let st2 = spec_exec_stmts(st1, ss, 0, (fuel - 1) as nat).0;
                            let im2 = st2.imported.push(path);
                            assert(im2[st2.imported.len() as int] == path);
                            assert(spec_import(st, path, fuel).0.imported == im2);
                        },
                    },
                },
            },
        }
    }
}

/// Importing the same module path twice registers its bindings exactly
/// once: after any successful import, importing the path again returns
/// the state unchanged.
pub proof fn lemma_import_twice(st: StateModel, path: Seq<char>, f1: nat, f2: nat)
    requires
        f1 > 0,
        f2 > 0,
        spec_import(st, path, f1).1 is Ok,
    ensures
        spec_import(spec_import(st, path, f1).0, path, f2) == (
            spec_import(st, path, f1).0,
            Ok::<Option<ControlModel>, FailureModel>(None),
        ),
{
    lemma_import_marks_path(st, path, f1);
    lemma_import_already_seen(spec_import(st, path, f1).0, path, f2);
}

/// Reading an undefined variable is a recoverable error carrying the
/// variable's own name, and nothing else changes.
pub proof fn lemma_undefined_variable_recoverable(st: StateModel, n: Seq<char>, fuel: nat)
    requires
        fuel > 0,
        lookup_chain(st.envs, st.cur, n) is None,
    ensures
        spec_eval(st, ExprModel::Variable(n), fuel) == (
            st,
            Err::<ValueModel, FailureModel>(
                FailureModel::Error(RuntimeErrorModel::UndefinedVariable(n)),
            ),
        ),
{
    reveal(spec_eval);
}

/// Calling a number as if it were a function is the fatal non-callable
/// condition, a class apart from every recoverable error.
pub proof fn lemma_call_number_fatal(
    st: StateModel,
    n: Number,
    args: Seq<ValueModel>,
    fuel: nat,
)
    requires
        fuel > 0,
    ensures
        spec_do_call(st, ValueModel::Num(n), args, fuel) == (
            st,
            Err::<ValueModel, FailureModel>(FailureModel::Fatal(FatalError::NotCallable)),
        ),
{
    reveal(spec_do_call);
}




} // verus!
