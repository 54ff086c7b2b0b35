//! The functions that every application finds in its context.
use vstd::prelude::*;

use crate::vm::{bind, Context, Expression, Native, Value};

verus! {

/// `e` is the name `name`, applied to nothing.
pub open spec fn is_name(e: Expression, name: &str) -> bool {
    match e {
        Expression::Application(n, args) => n == name && args@.len() == 0,
        _ => false,
    }
}

/// `e` is the literal number `k`.
pub open spec fn is_number(e: Expression, k: i64) -> bool {
    match e {
        Expression::Litteral(v) => match *v {
            Value::Number(m) => m == k,
            _ => false,
        },
        _ => false,
    }
}

/// `e` applies `name` to the two arguments `a` and `b` describe.
pub open spec fn is_call2(
    e: Expression,
    name: &str,
    a: spec_fn(Expression) -> bool,
    b: spec_fn(Expression) -> bool,
) -> bool {
    match e {
        Expression::Application(n, args) => n == name && args@.len() == 2 && a(args@[0]) && b(
            args@[1],
        ),
        _ => false,
    }
}

/// `v` is `abs`: the function of `x` that gives `(sub 0 x)` when `(lt x 0)`,
/// and `x` otherwise.
pub open spec fn is_abs(v: Value) -> bool {
    match v {
        Value::Function(names, Expression::Branch(c, t, f)) => {
            &&& names@ == seq!["x"]
            &&& is_call2(*c, "lt", |e| is_name(e, "x"), |e| is_number(e, 0))
            &&& is_call2(*t, "sub", |e| is_number(e, 0), |e| is_name(e, "x"))
            &&& is_name(*f, "x")
        },
        _ => false,
    }
}

/// Binds the native `add`, `sub` and `lt`, and `abs`, written in the
/// expression language, in `ctx`.
pub fn setup<'a>(ctx: &mut Context<'a>)
    ensures
        exists|abs: Value<'a>|
            {
                &&& is_abs(abs)
                &&& final(ctx).bindings() == bind(
                    bind(
                        bind(
                            bind(old(ctx).bindings(), "add", Value::NativeFunction(Native::Add)),
                            "sub",
                            Value::NativeFunction(Native::Sub),
                        ),
                        "lt",
                        Value::NativeFunction(Native::Lt),
                    ),
                    "abs",
                    abs,
                )
            },
{
    ctx.insert("add", Value::NativeFunction(Native::Add));
    ctx.insert("sub", Value::NativeFunction(Native::Sub));
    ctx.insert("lt", Value::NativeFunction(Native::Lt));
    let abs = Value::Function(
        &["x"],
        Expression::Branch(
            &Expression::Application(
                "lt",
                &[Expression::Application("x", &[]), Expression::Litteral(&Value::Number(0))],
            ),
            &Expression::Application(
                "sub",
                &[Expression::Litteral(&Value::Number(0)), Expression::Application("x", &[])],
            ),
            &Expression::Application("x", &[]),
        ),
    );
    proof {
        match abs {
            Value::Function(names, Expression::Branch(c, t, f)) => {
                assert(names@ =~= seq!["x"]);
                assert(is_name(*f, "x"));
                match *c {
                    Expression::Application(n, args) => {
                        assert(args@.len() == 2);
                        assert(is_name(args@[0], "x"));
                        assert(is_number(args@[1], 0));
                    },
                    _ => {},
                }
                match *t {
                    Expression::Application(n, args) => {
                        assert(args@.len() == 2);
                        assert(is_number(args@[0], 0));
                        assert(is_name(args@[1], "x"));
                    },
                    _ => {},
                }
            },
            _ => {},
        }
    }
    ctx.insert("abs", abs);
    assert(is_abs(abs));
}

} // verus!
