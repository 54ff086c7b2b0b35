
use kcore::framework::setup;
use kcore::vm::{Context, Error, Expression, Native, Type, Value, MAX_DEPTH};

fn number(r: Result<Value<'_>, Error>) -> i64 {
    match r {
        Ok(Value::Number(n)) => n,
        _ => panic!("not a number"),
    }
}

#[test]
fn calc_evaluates_to_38() {
    let mut ctx = Context::new();
    setup(&mut ctx);
    let expr = kcore::apps::calc();
    assert_eq!(number(ctx.run(&expr)), 38);
}

#[test]
fn abs_of_positive_and_negative() {
    let mut ctx = Context::new();
    setup(&mut ctx);
    static NEG: [Expression<'static>; 1] = [Expression::Litteral(&Value::Number(-7))];
    static POS: [Expression<'static>; 1] = [Expression::Litteral(&Value::Number(5))];
    assert_eq!(number(ctx.run(&Expression::Application("abs", &NEG))), 7);
    assert_eq!(number(ctx.run(&Expression::Application("abs", &POS))), 5);
    // The parameter stays bound after the call.
    assert_eq!(number(ctx.run(&Expression::Application("x", &[]))), 5);
}

#[test]
fn undefined_name() {
    let mut ctx = Context::new();
    assert_eq!(
        ctx.run(&Expression::Application("nope", &[])).err(),
        Some(Error::UndefinedValue)
    );
}

#[test]
fn applying_a_constant_fails() {
    let mut ctx = Context::new();
    ctx.insert("k", Value::Number(1));
    static ARGS: [Expression<'static>; 1] = [Expression::Litteral(&Value::Number(2))];
    assert_eq!(
        ctx.run(&Expression::Application("k", &ARGS)).err(),
        Some(Error::TypeError("Tried to apply a constant"))
    );
}

#[test]
fn argument_count_mismatch() {
    let mut ctx = Context::new();
    static BODY: Expression<'static> = Expression::Application("a", &[]);
    ctx.insert("one", Value::Function(&["a"], BODY));
    ctx.insert("two", Value::Function(&["a", "b"], BODY));
    static ARGS2: [Expression<'static>; 2] = [
        Expression::Litteral(&Value::Number(1)),
        Expression::Litteral(&Value::Number(2)),
    ];
    static ARGS1: [Expression<'static>; 1] = [Expression::Litteral(&Value::Number(1))];
    assert_eq!(
        ctx.run(&Expression::Application("one", &ARGS2)).err(),
        Some(Error::TypeError("Too much arguments"))
    );
    assert_eq!(
        ctx.run(&Expression::Application("two", &ARGS1)).err(),
        Some(Error::TypeError(
            "Not enough arguments, partial applications are not yet supported"
        ))
    );
}

#[test]
fn branch_needs_boolean() {
    let mut ctx = Context::new();
    static ONE: Expression<'static> = Expression::Litteral(&Value::Number(1));
    static YES: Expression<'static> = Expression::Litteral(&Value::Bool(true));
    assert_eq!(
        ctx.run(&Expression::Branch(&ONE, &ONE, &ONE)).err(),
        Some(Error::TypeError("Conditions must be booleans"))
    );
    assert_eq!(number(ctx.run(&Expression::Branch(&YES, &ONE, &YES))), 1);
}

#[test]
fn natives_check_arguments() {
    let mut ctx = Context::new();
    setup(&mut ctx);
    static ONE: [Expression<'static>; 1] = [Expression::Litteral(&Value::Number(1))];
    static MIXED: [Expression<'static>; 2] = [
        Expression::Litteral(&Value::Number(1)),
        Expression::Litteral(&Value::Bool(true)),
    ];
    static BIG: [Expression<'static>; 2] = [
        Expression::Litteral(&Value::Number(i64::MAX)),
        Expression::Litteral(&Value::Number(1)),
    ];
    static LT: [Expression<'static>; 2] = [
        Expression::Litteral(&Value::Number(3)),
        Expression::Litteral(&Value::Number(4)),
    ];
    assert_eq!(
        ctx.run(&Expression::Application("add", &ONE)).err(),
        Some(Error::TypeError("`add` takes 2 arguments"))
    );
    assert_eq!(
        ctx.run(&Expression::Application("sub", &MIXED)).err(),
        Some(Error::TypeError("Only numbers can be `sub`ed"))
    );
    assert_eq!(
        ctx.run(&Expression::Application("add", &BIG)).err(),
        Some(Error::TypeError("Arithmetic overflow"))
    );
    assert!(matches!(ctx.run(&Expression::Application("lt", &LT)), Ok(Value::Bool(true))));
    assert_eq!(number(ctx.run(&Expression::Application("sub", &LT))), -1);
}

#[test]
fn endless_recursion_stops() {
    let mut ctx = Context::new();
    static ARG: [Expression<'static>; 1] = [Expression::Litteral(&Value::Number(0))];
    static BODY: Expression<'static> = Expression::Application("f", &ARG);
    ctx.insert("f", Value::Function(&["x"], BODY));
    assert_eq!(ctx.run(&BODY).err(), Some(Error::TooDeep));
    assert!(MAX_DEPTH > 0);
}

#[test]
fn context_insert_get_remove() {
    let mut ctx = Context::new();
    ctx.insert("a", Value::Number(1));
    ctx.insert("a", Value::Number(2));
    assert!(matches!(ctx.get("a"), Some(Value::Number(2))));
    ctx.remove("a");
    assert!(ctx.get("a").is_none());
}

#[test]
fn values_as_text() {
    assert_eq!(Value::Number(-19).to_string(), "-19");
    assert_eq!(Value::Bool(true).to_string(), "\u{22a4}");
    assert_eq!(Value::Bool(false).to_string(), "\u{22a5}");
    assert_eq!(Value::Ty(Type(3)).to_string(), "#3");
    assert_eq!(Value::NativeFunction(Native::Add).to_string(), "<native fun>");
    assert_eq!(Value::Function(&[], Expression::Application("x", &[])).to_string(), "<fun>");
}
