use vstd::prelude::*;
use vstd::string::StringExecFns;
use vstd::string::StrSliceExecFns;
use crate::num::Number;
use crate::value::{Value, ValueModel, NativeFn};
use crate::interp::{Env, Module, ModuleModel, entries_model, RuntimeError};

verus! {

/// The bindings `std.io` registers: the `print` builtin.
pub open spec fn spec_io_exports() -> Seq<(Seq<char>, ValueModel)> {
    seq![(seq!['p', 'r', 'i', 'n', 't'], ValueModel::Native(NativeFn::Print))]
}

/// The number bound to `pi` (six decimal places).
pub open spec fn spec_pi() -> ValueModel {
    ValueModel::Num(Number::Finite { neg: false, mag: 3141592 })
}

/// The number bound to `e` (six decimal places).
pub open spec fn spec_e() -> ValueModel {
    ValueModel::Num(Number::Finite { neg: false, mag: 2718281 })
}

/// The bindings `std.math` registers: `pi`, `e` and `sqrt`.
pub open spec fn spec_math_exports() -> Seq<(Seq<char>, ValueModel)> {
    seq![
        (seq!['p', 'i'], spec_pi()),
        (seq!['e'], spec_e()),
        (seq!['s', 'q', 'r', 't'], ValueModel::Native(NativeFn::Sqrt)),
    ]
}

/// What importing plain `std` registers: everything of both modules.
pub open spec fn spec_std_exports() -> Seq<(Seq<char>, ValueModel)> {
    spec_math_exports() + spec_io_exports()
}

fn io_exports() -> (r: Vec<(String, Value)>)
    ensures
        entries_model(r@) == spec_io_exports(),
{
    proof {
        reveal_strlit("print");
        assert(("print"@) =~= seq!['p', 'r', 'i', 'n', 't']);
    }
    let mut r: Vec<(String, Value)> = Vec::new();
    r.push((String::from_str("print"), Value::Native(NativeFn::Print)));
    proof {
        assert(entries_model(r@) =~= spec_io_exports());
    }
    r
}

fn math_exports() -> (r: Vec<(String, Value)>)
    ensures
        entries_model(r@) == spec_math_exports(),
{
    proof {
        reveal_strlit("pi");
        reveal_strlit("e");
        reveal_strlit("sqrt");
        assert(("pi"@) =~= seq!['p', 'i']);
        assert(("e"@) =~= seq!['e']);
        assert(("sqrt"@) =~= seq!['s', 'q', 'r', 't']);
    }
    let mut r: Vec<(String, Value)> = Vec::new();
    r.push((String::from_str("pi"), Value::Num(Number::Finite { neg: false, mag: 3141592 })));
    r.push((String::from_str("e"), Value::Num(Number::Finite { neg: false, mag: 2718281 })));
    r.push((String::from_str("sqrt"), Value::Native(NativeFn::Sqrt)));
    proof {
        assert(entries_model(r@) =~= spec_math_exports());
    }
    r
}

fn std_exports() -> (r: Vec<(String, Value)>)
    ensures
        entries_model(r@) == spec_std_exports(),
{
    let mut r = math_exports();
    let mut io = io_exports();
    let ghost rm = entries_model(r@);
    let ghost im = entries_model(io@);
    r.append(&mut io);
    proof {
        assert(entries_model(r@) =~= rm + im);
    }
    r
}

/// The standard modules a fresh interpreter should know: `std`,
/// `std.math` and `std.io`, with exactly the bindings above.
pub fn modules() -> (r: Vec<Module>)
    ensures
        r@.len() == 3,
        r@[0].model() == (ModuleModel { path: seq!['s', 't', 'd'], exports: spec_std_exports() }),
        r@[1].model() == (ModuleModel {
            path: seq!['s', 't', 'd', '.', 'm', 'a', 't', 'h'],
            exports: spec_math_exports(),
        }),
        r@[2].model() == (ModuleModel {
            path: seq!['s', 't', 'd', '.', 'i', 'o'],
            exports: spec_io_exports(),
        }),
{
    proof {
        reveal_strlit("std");
        reveal_strlit("std.math");
        reveal_strlit("std.io");
        assert(("std"@) =~= seq!['s', 't', 'd']);
        assert(("std.math"@) =~= seq!['s', 't', 'd', '.', 'm', 'a', 't', 'h']);
        assert(("std.io"@) =~= seq!['s', 't', 'd', '.', 'i', 'o']);
    }
    let mut r: Vec<Module> = Vec::new();
    r.push(Module { path: String::from_str("std"), exports: std_exports() });
    r.push(Module { path: String::from_str("std.math"), exports: math_exports() });
    r.push(Module { path: String::from_str("std.io"), exports: io_exports() });
    r
}

/// Register every standard binding straight into a scope.
pub fn register(env: &mut Env)
    ensures
        final(env).model().values == old(env).model().values + spec_std_exports(),
        final(env).model().exports == old(env).model().exports,
        final(env).model().parent == old(env).model().parent,
{
    let items = std_exports();
    define_all_exec(env, &items);
}

/// The standard module registered under `path`, if any.
pub fn get_module(path: &String) -> (r: Option<Module>)
    ensures
        match r {
            Some(m) => (path@ == seq!['s', 't', 'd', '.', 'm', 'a', 't', 'h'] && m.model()
                == (ModuleModel {
                path: seq!['s', 't', 'd', '.', 'm', 'a', 't', 'h'],
                exports: spec_math_exports(),
            })) || (path@ == seq!['s', 't', 'd', '.', 'i', 'o'] && m.model() == (ModuleModel {
                path: seq!['s', 't', 'd', '.', 'i', 'o'],
                exports: spec_io_exports(),
            })),
            None => path@ != seq!['s', 't', 'd', '.', 'm', 'a', 't', 'h'] && path@ != seq![
                's',
                't',
                'd',
                '.',
                'i',
                'o',
            ],
        },
{
    proof {
        reveal_strlit("std.math");
        reveal_strlit("std.io");
        assert(("std.math"@) =~= seq!['s', 't', 'd', '.', 'm', 'a', 't', 'h']);
        assert(("std.io"@) =~= seq!['s', 't', 'd', '.', 'i', 'o']);
    }
    if *path == String::from_str("std.math") {
        Some(Module { path: String::from_str("std.math"), exports: math_exports() })
    } else if *path == String::from_str("std.io") {
        Some(Module { path: String::from_str("std.io"), exports: io_exports() })
    } else {
        None
    }
}

/// The loader capability over the standard modules: registers a
/// recognized `std.` path's bindings into the given scope and says so;
/// declines paths outside `std.`; an unrecognized `std.` path is the
/// unknown-module error.
pub fn std_loader(path: &String, env: &mut Env) -> (r: Result<bool, RuntimeError>)
    ensures
        ({
            let mp = seq!['s', 't', 'd', '.', 'm', 'a', 't', 'h'];
            let ip = seq!['s', 't', 'd', '.', 'i', 'o'];
            match r {
                Ok(b) => if b {
                    (path@ == mp && final(env).model().values == old(env).model().values
                        + spec_math_exports()) || (path@ == ip && final(env).model().values == old(
                        env,
                    ).model().values + spec_io_exports())
                } else {
                    final(env).model() == old(env).model() && path@ != mp && path@ != ip
                },
                Err(e) => final(env).model() == old(env).model() && e
                    == RuntimeError::UnknownModule(*path) && path@ != mp && path@ != ip,
            }
        }),
{
    proof {
        reveal_strlit("std.math");
        reveal_strlit("std.io");
        assert(("std.math"@) =~= seq!['s', 't', 'd', '.', 'm', 'a', 't', 'h']);
        assert(("std.io"@) =~= seq!['s', 't', 'd', '.', 'i', 'o']);
    }
    if *path == String::from_str("std.math") {
        let items = math_exports();
        define_all_exec(env, &items);
        Ok(true)
    } else if *path == String::from_str("std.io") {
        let items = io_exports();
        define_all_exec(env, &items);
        Ok(true)
    } else if has_std_dot_prefix(path) {
        Err(RuntimeError::UnknownModule(path.clone()))
    } else {
        Ok(false)
    }
}

/// Whether the path begins with `std.`.
fn has_std_dot_prefix(path: &String) -> (r: bool)
    ensures
        r == (path@.len() >= 4 && path@.subrange(0, 4) == seq!['s', 't', 'd', '.']),
{
    let s = path.as_str();
    let n = s.unicode_len();
    if n < 4 {
        return false;
    }
    let c0 = s.get_char(0);
    let c1 = s.get_char(1);
    let c2 = s.get_char(2);
    let c3 = s.get_char(3);
    let r = c0 == 's' && c1 == 't' && c2 == 'd' && c3 == '.';
    proof {
        if r {
            assert(path@.subrange(0, 4) =~= seq!['s', 't', 'd', '.']);
        } else {
            assert(path@.len() >= 4 && path@.subrange(0, 4) =~= seq![
                path@[0],
                path@[1],
                path@[2],
                path@[3],
            ]);
        }
    }
    r
}

/// Define every entry of a list into a scope, in order.
fn define_all_exec(env: &mut Env, items: &Vec<(String, Value)>)
    ensures
        final(env).model().values == old(env).model().values + entries_model(items@),
        final(env).model().exports == old(env).model().exports,
        final(env).model().parent == old(env).model().parent,
{
    let ghost m0 = env.model().values;
    let mut i: usize = 0;
    while i < items.len()
        invariant
            i <= items@.len(),
            env.model().values =~= m0 + entries_model(items@).take(i as int),
            env.model().exports == old(env).model().exports,
            env.model().parent == old(env).model().parent,
            m0 == old(env).model().values,
        decreases items@.len() - i,
    {
        let name = items[i].0.clone();
        let val = crate::value::clone_value(&items[i].1);
        proof {
            assert(entries_model(items@)[i as int] == (items@[i as int].0@, items@[
                i as int].1.model()));
        }
        env.define(name, val);
        proof {
            assert(env.model().values =~= m0 + entries_model(items@).take(i + 1));
        }
        i = i + 1;
    }
    proof {
        assert(entries_model(items@).take(items@.len() as int) =~= entries_model(items@));
    }
}

} // verus!
