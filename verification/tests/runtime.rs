use coda::lexer::scan;
use coda::parser::parse;
use coda::num::Number;
use coda::value::{Value, NativeFn};
use coda::interp::{Interpreter, Failure, RuntimeError, FatalError, ValueKind, Env};
use coda::token::TokenKind;
use coda::builtins;

const FUEL: u64 = 1_000_000;

fn num(units: i64) -> Value {
    let neg = units < 0;
    let mag = (units.unsigned_abs() as u128) * 1_000_000;
    Value::Num(Number::Finite { neg: neg && mag != 0, mag })
}

fn run_program(src: &str, sources: Vec<(String, String)>) -> (Interpreter, Result<(), Failure>) {
    let tokens = scan(src).expect("scan failed");
    let stmts = parse(tokens).expect("parse failed");
    let mut it = Interpreter::new(builtins::modules(), sources);
    let r = it.interpret(&stmts, FUEL);
    (it, r)
}

fn var(it: &Interpreter, name: &str) -> Value {
    it.lookup_var(it.env, &name.to_string()).expect("variable missing")
}

#[test]
fn addition_of_numbers() {
    let (it, r) = run_program("let r = 1 + 2", vec![]);
    r.unwrap();
    assert_eq!(var(&it, "r"), num(3));
}

#[test]
fn string_plus_number() {
    let (it, r) = run_program("let r = \"a\" + 1", vec![]);
    r.unwrap();
    assert_eq!(var(&it, "r"), Value::Str("a1".to_string()));
}

#[test]
fn number_plus_string() {
    let (it, r) = run_program("let r = 1 + \"a\"", vec![]);
    r.unwrap();
    assert_eq!(var(&it, "r"), Value::Str("1a".to_string()));
}

#[test]
fn compound_assignment_updates_binding() {
    let (it, r) = run_program("let x = 1 x += 2", vec![]);
    r.unwrap();
    assert_eq!(var(&it, "x"), num(3));
}

#[test]
fn arithmetic_mix() {
    let (it, r) = run_program("let r = 2 * 3.5 - 1 / 4", vec![]);
    r.unwrap();
    // 7 - 0.25
    assert_eq!(var(&it, "r"), Value::Num(Number::Finite { neg: false, mag: 6_750_000 }));
}

#[test]
fn recursion_computes_factorial() {
    let src = "fn fact(n) { if n <= 1 { return 1 } return n * fact(n - 1) } let r = fact(5)";
    let (it, r) = run_program(src, vec![]);
    r.unwrap();
    assert_eq!(var(&it, "r"), num(120));
}

#[test]
fn closures_capture_by_reference_and_stay_independent() {
    let src = "\
fn counter() { let n = 0 fn inc() { n = n + 1 return n } return inc }\n\
let c1 = counter()\n\
let c2 = counter()\n\
let a = c1()\n\
let b = c1()\n\
let c = c2()";
    let (it, r) = run_program(src, vec![]);
    r.unwrap();
    assert_eq!(var(&it, "a"), num(1));
    assert_eq!(var(&it, "b"), num(2));
    assert_eq!(var(&it, "c"), num(1));
}

#[test]
fn division_by_zero_is_infinity() {
    let (it, r) = run_program("let r = 1 / 0", vec![]);
    r.unwrap();
    assert_eq!(var(&it, "r"), Value::Num(Number::PosInf));
    assert_eq!(var(&it, "r").render(), "inf".to_string());
}

#[test]
fn zero_over_zero_is_not_a_number() {
    let (it, r) = run_program("let r = 0 / 0", vec![]);
    r.unwrap();
    assert_eq!(var(&it, "r"), Value::Num(Number::Nan));
    assert_eq!(var(&it, "r").render(), "NaN".to_string());
}

#[test]
fn undefined_variable_is_recoverable_and_names_it() {
    let (_it, r) = run_program("mystery", vec![]);
    match r {
        Err(Failure::Error(RuntimeError::UndefinedVariable(n))) => {
            assert_eq!(n, "mystery".to_string());
        }
        other => panic!("unexpected outcome {:?}", other),
    }
}

#[test]
fn calling_a_number_is_fatal() {
    let (_it, r) = run_program("let x = 1 x(2)", vec![]);
    match r {
        Err(Failure::Fatal(FatalError::NotCallable)) => {}
        other => panic!("unexpected outcome {:?}", other),
    }
}

#[test]
fn unsupported_operands_name_both_kinds() {
    let (_it, r) = run_program("let r = [1] + 1", vec![]);
    match r {
        Err(Failure::Error(RuntimeError::UnsupportedOp { left, op, right })) => {
            assert_eq!(left, ValueKind::ArrayKind);
            assert_eq!(op, TokenKind::Plus);
            assert_eq!(right, ValueKind::NumberKind);
        }
        other => panic!("unexpected outcome {:?}", other),
    }
}

#[test]
fn comparisons_and_equality() {
    let (it, r) = run_program(
        "let a = 2 > 1 let b = 1 >= 2 let c = \"x\" == \"x\" let d = 1 == 2",
        vec![],
    );
    r.unwrap();
    assert_eq!(var(&it, "a"), Value::Bool(true));
    assert_eq!(var(&it, "b"), Value::Bool(false));
    assert_eq!(var(&it, "c"), Value::Bool(true));
    assert_eq!(var(&it, "d"), Value::Bool(false));
}

#[test]
fn while_loop_counts() {
    let (it, r) = run_program("let i = 0 while i < 5 { i = i + 1 }", vec![]);
    r.unwrap();
    assert_eq!(var(&it, "i"), num(5));
}

#[test]
fn endless_loop_runs_out_of_budget() {
    let tokens = scan("while true { }").unwrap();
    let stmts = parse(tokens).unwrap();
    let mut it = Interpreter::new(vec![], vec![]);
    match it.interpret(&stmts, 2_000) {
        Err(Failure::Fatal(FatalError::OutOfFuel)) => {}
        other => panic!("unexpected outcome {:?}", other),
    }
}

#[test]
fn return_at_top_level_halts_the_rest() {
    let (it, r) = run_program("let a = 1 return 9 let b = 2", vec![]);
    r.unwrap();
    assert_eq!(var(&it, "a"), num(1));
    assert!(it.lookup_var(it.env, &"b".to_string()).is_none());
}

#[test]
fn chained_calls() {
    let src = "fn f() { fn g() { return 7 } return g } let r = f()()";
    let (it, r) = run_program(src, vec![]);
    r.unwrap();
    assert_eq!(var(&it, "r"), num(7));
}

#[test]
fn print_renders_arrays() {
    let (it, r) = run_program("import std.io print([1, 2, 3])", vec![]);
    r.unwrap();
    assert_eq!(it.output, "[1, 2, 3]\n".to_string());
}

#[test]
fn print_joins_arguments_with_spaces() {
    let (it, r) = run_program(
        "import std.io print(1.5, \"x\", true, null, [\"a\"])",
        vec![],
    );
    r.unwrap();
    assert_eq!(it.output, "1.5 x true null [a]\n".to_string());
}

#[test]
fn importing_a_module_twice_runs_it_once() {
    let module = "import std.io print(\"loaded\")".to_string();
    let sources = vec![("m".to_string(), module)];
    let (it, r) = run_program("import \"m\" import \"m\"", sources);
    r.unwrap();
    assert_eq!(it.output, "loaded\n".to_string());
}

#[test]
fn import_copies_module_bindings() {
    let module = "let answer = 42 fn twice(x) { return x * 2 }".to_string();
    let sources = vec![("lib".to_string(), module)];
    let (it, r) = run_program("import \"lib\" let r = twice(answer)", sources);
    r.unwrap();
    assert_eq!(var(&it, "r"), num(84));
}

#[test]
fn import_isolates_module_from_importer() {
    // the module cannot read the importer's variables while it runs
    let module = "let peek = hidden".to_string();
    let sources = vec![("spy".to_string(), module)];
    let (_it, r) = run_program("let hidden = 1 import \"spy\"", sources);
    match r {
        Err(Failure::Error(RuntimeError::UndefinedVariable(n))) => {
            assert_eq!(n, "hidden".to_string());
        }
        other => panic!("unexpected outcome {:?}", other),
    }
}

#[test]
fn unknown_import_is_recoverable() {
    let (_it, r) = run_program("import nowhere", vec![]);
    match r {
        Err(Failure::Error(RuntimeError::UnknownModule(p))) => {
            assert_eq!(p, "nowhere".to_string());
        }
        other => panic!("unexpected outcome {:?}", other),
    }
}

#[test]
fn broken_import_surfaces_scan_and_parse_errors() {
    let sources = vec![
        ("bad_lex".to_string(), "$".to_string()),
        ("bad_parse".to_string(), "let".to_string()),
    ];
    let (_it, r) = run_program("import \"bad_lex\"", sources.clone());
    match r {
        Err(Failure::Error(RuntimeError::ImportLex(_))) => {}
        other => panic!("unexpected outcome {:?}", other),
    }
    let (_it2, r2) = run_program("import \"bad_parse\"", sources);
    match r2 {
        Err(Failure::Error(RuntimeError::ImportParse(_))) => {}
        other => panic!("unexpected outcome {:?}", other),
    }
}

#[test]
fn math_module_gives_roots_and_constants() {
    let (it, r) = run_program("import std.math let r = sqrt(9) let p = pi", vec![]);
    r.unwrap();
    assert_eq!(var(&it, "r"), num(3));
    assert_eq!(var(&it, "p"), Value::Num(Number::Finite { neg: false, mag: 3_141_592 }));
}

#[test]
fn sqrt_of_non_number_is_null() {
    let (it, r) = run_program("import std.math let r = sqrt(\"x\")", vec![]);
    r.unwrap();
    assert_eq!(var(&it, "r"), Value::Null);
}

#[test]
fn truthiness_table() {
    let src = "\
let a = 0 let ta = true let ra = null\n\
if a { ta = 1 } else { ta = 2 }\n\
if \"\" { ra = 1 } else { ra = 2 }\n\
let arr = [] let rb = 0\n\
if arr { rb = 1 } else { rb = 2 }";
    let (it, r) = run_program(src, vec![]);
    r.unwrap();
    assert_eq!(var(&it, "ta"), num(2));
    assert_eq!(var(&it, "ra"), num(2));
    assert_eq!(var(&it, "rb"), num(1));
}

#[test]
fn bodies_share_the_enclosing_scope() {
    // a let inside a while body lands in the outer scope
    let (it, r) = run_program("let i = 0 while i < 1 { let inner = 7 i = i + 1 }", vec![]);
    r.unwrap();
    assert_eq!(var(&it, "inner"), num(7));
}

#[test]
fn number_rendering() {
    assert_eq!(Number::Finite { neg: false, mag: 1_500_000 }.to_text(), "1.5".to_string());
    assert_eq!(Number::Finite { neg: false, mag: 0 }.to_text(), "0".to_string());
    assert_eq!(Number::Finite { neg: true, mag: 2_500_000 }.to_text(), "-2.5".to_string());
    assert_eq!(Number::Finite { neg: false, mag: 10_000_000 }.to_text(), "10".to_string());
    assert_eq!(Number::Finite { neg: false, mag: 123 }.to_text(), "0.000123".to_string());
    assert_eq!(Number::NegInf.to_text(), "-inf".to_string());
}

#[test]
fn std_loader_registers_known_modules() {
    let mut env = Env::new();
    assert_eq!(builtins::std_loader(&"std.io".to_string(), &mut env), Ok(true));
    assert_eq!(builtins::std_loader(&"other".to_string(), &mut env), Ok(false));
    match builtins::std_loader(&"std.unknown".to_string(), &mut env) {
        Err(RuntimeError::UnknownModule(p)) => assert_eq!(p, "std.unknown".to_string()),
        other => panic!("unexpected outcome {:?}", other),
    }
    assert!(builtins::get_module(&"std.math".to_string()).is_some());
    assert!(builtins::get_module(&"elsewhere".to_string()).is_none());
}

#[test]
fn native_values_render_as_functions() {
    assert_eq!(Value::Native(NativeFn::Print).render(), "<fn>".to_string());
}
