//! A small interpreter for the expressions that applications are written
//! in: literals, branches, and applications of named functions.
//!
//! Names are looked up in a context. Applying a function binds its
//! parameters in that same context, one after the other as the arguments
//! are evaluated, and the bindings stay there afterwards. Evaluation nests at
//! most `MAX_DEPTH` levels deep.
use vstd::prelude::*;
use vstd::string::{to_string_from_display_ensures, StringExecFns, StringSliceAdditionalSpecFns};

verus! {

/// How deep evaluation may nest before it gives up.
pub const MAX_DEPTH: u64 = 512;

/// A type, by its id.
#[derive(Clone, Copy, Debug, PartialEq, Eq, Structural)]
pub struct Type(pub u64);

/// The functions that the interpreter provides itself.
#[derive(Clone, Copy, Debug, PartialEq, Eq, Structural)]
pub enum Native {
    Add,
    Sub,
    Lt,
}

/// A value.
#[derive(Clone, Copy)]
pub enum Value<'a> {
    Ty(Type),
    Number(i64),
    Bool(bool),
    /// Parameter names and body.
    Function(&'a [&'a str], Expression<'a>),
    NativeFunction(Native),
}

/// An expression.
#[derive(Clone, Copy)]
pub enum Expression<'a> {
    /// A name applied to arguments; with no argument, the name's value.
    Application(&'a str, &'a [Expression<'a>]),
    /// Condition, then-branch, else-branch.
    Branch(&'a Expression<'a>, &'a Expression<'a>, &'a Expression<'a>),
    Litteral(&'a Value<'a>),
}

impl<'a> Value<'a> {
    /// The value as text: `#` and the id for a type, the number in
    /// decimal, a down tack or an up tack for true or false, `<fun>` and
    /// `<native fun>` for functions.
    pub fn to_string(&self) -> (r: String)
        ensures
            match *self {
                Value::Ty(t) => exists|d: String|
                    to_string_from_display_ensures::<u64>(&t.0, d) && r@ == "#"@ + d@,
                Value::Number(x) => to_string_from_display_ensures::<i64>(&x, r),
                Value::Bool(b) => r@ == if b {
                    "\u{22a4}"@
                } else {
                    "\u{22a5}"@
                },
                Value::Function(_, _) => r@ == "<fun>"@,
                Value::NativeFunction(_) => r@ == "<native fun>"@,
            },
    {
        match *self {
            Value::Ty(t) => {
                let digits = t.0.to_string();
                let text = String::from_str("#");
                let r = text.concat(digits.as_str());
                assert(to_string_from_display_ensures::<u64>(&t.0, digits) && r@ == "#"@ + digits@);
                r
            },
            Value::Number(x) => x.to_string(),
            Value::Bool(b) => if b {
                String::from_str("\u{22a4}")
            } else {
                String::from_str("\u{22a5}")
            },
            Value::Function(_, _) => String::from_str("<fun>"),
            Value::NativeFunction(_) => String::from_str("<native fun>"),
        }
    }
}

/// Why evaluation failed.
#[derive(Clone, Copy, Debug, PartialEq, Eq)]
pub enum Error {
    TypeError(&'static str),
    UndefinedValue,
    /// Evaluation nested deeper than `MAX_DEPTH`.
    TooDeep,
}

pub open spec fn too_many_arguments() -> Error {
    Error::TypeError("Too much arguments")
}

pub open spec fn too_few_arguments() -> Error {
    Error::TypeError("Not enough arguments, partial applications are not yet supported")
}

pub open spec fn applied_constant() -> Error {
    Error::TypeError("Tried to apply a constant")
}

pub open spec fn non_boolean_condition() -> Error {
    Error::TypeError("Conditions must be booleans")
}

/// A name bound to a value.
pub type Binding<'a> = (&'a str, Value<'a>);

/// The value bound to `name`: the latest binding with that name wins.
pub open spec fn lookup<'a>(ctx: Seq<Binding<'a>>, name: Seq<u8>) -> Option<Value<'a>>
    decreases ctx.len(),
{
    if ctx.len() == 0 {
        None
    } else if ctx.last().0.spec_bytes() == name {
        Some(ctx.last().1)
    } else {
        lookup(ctx.drop_last(), name)
    }
}

/// The position of the latest binding of `name`.
pub open spec fn position<'a>(ctx: Seq<Binding<'a>>, name: Seq<u8>) -> Option<int>
    decreases ctx.len(),
{
    if ctx.len() == 0 {
        None
    } else if ctx.last().0.spec_bytes() == name {
        Some(ctx.len() - 1)
    } else {
        position(ctx.drop_last(), name)
    }
}

/// The bindings after `name` was bound to `v`: the latest binding of the
/// name gets the new value, or a new binding is added.
pub open spec fn bind<'a>(ctx: Seq<Binding<'a>>, name: &'a str, v: Value<'a>) -> Seq<Binding<'a>> {
    match position(ctx, name.spec_bytes()) {
        Some(i) => ctx.update(i, (ctx[i].0, v)),
        None => ctx.push((name, v)),
    }
}

/// The bindings after `name` was unbound.
pub open spec fn unbind<'a>(ctx: Seq<Binding<'a>>, name: Seq<u8>) -> Seq<Binding<'a>> {
    ctx.filter(|b: Binding<'a>| b.0.spec_bytes() != name)
}

/// What a native function gives on `args`.
pub open spec fn spec_native(f: Native, args: Seq<Value>) -> Result<Value, Error> {
    if args.len() != 2 {
        Err(
            match f {
                Native::Add => Error::TypeError("`add` takes 2 arguments"),
                Native::Sub => Error::TypeError("`sub` takes 2 arguments"),
                Native::Lt => Error::TypeError("`lt` takes 2 arguments"),
            },
        )
    } else {
        match (args[0], args[1]) {
            (Value::Number(a), Value::Number(b)) => match f {
                Native::Add => if i64::MIN <= a + b <= i64::MAX {
                    Ok(Value::Number((a + b) as i64))
                } else {
                    Err(Error::TypeError("Arithmetic overflow"))
                },
                Native::Sub => if i64::MIN <= a - b <= i64::MAX {
                    Ok(Value::Number((a - b) as i64))
                } else {
                    Err(Error::TypeError("Arithmetic overflow"))
                },
                Native::Lt => Ok(Value::Bool(a < b)),
            },
            _ => Err(
                match f {
                    Native::Add => Error::TypeError("Only numbers can be `add`ed"),
                    Native::Sub => Error::TypeError("Only numbers can be `sub`ed"),
                    Native::Lt => Error::TypeError("Only numbers can be `lt`ed"),
                },
            ),
        }
    }
}

/// Evaluates `expr` in `ctx` with `fuel` levels of nesting left: the
/// bindings afterwards, and the value or the error.
pub open spec fn eval<'a>(ctx: Seq<Binding<'a>>, expr: Expression<'a>, fuel: nat) -> (
    Seq<Binding<'a>>,
    Result<Value<'a>, Error>,
)
    decreases fuel, 0nat,
{
    if fuel == 0 {
        (ctx, Err(Error::TooDeep))
    } else {
        match expr {
            Expression::Litteral(v) => (ctx, Ok(*v)),
            Expression::Application(name, args) => match lookup(ctx, name.spec_bytes()) {
                None => (ctx, Err(Error::UndefinedValue)),
                Some(func) => if args@.len() == 0 {
                    (ctx, Ok(func))
                } else {
                    match func {
                        Value::Function(names, body) => {
                            let (c1, r1) = eval_bind(ctx, names@, args@, 0, (fuel - 1) as nat);
                            match r1 {
                                Err(e) => (c1, Err(e)),
                                Ok(()) => if names@.len() > args@.len() {
                                    (c1, Err(too_few_arguments()))
                                } else {
                                    eval(c1, body, (fuel - 1) as nat)
                                },
                            }
                        },
                        Value::NativeFunction(f) => {
                            let (c1, r1) = eval_args(ctx, args@, 0, (fuel - 1) as nat);
                            match r1 {
                                Err(e) => (c1, Err(e)),
                                Ok(vals) => (c1, spec_native(f, vals)),
                            }
                        },
                        _ => (ctx, Err(applied_constant())),
                    }
                },
            },
            Expression::Branch(c, t, f) => {
                let (c1, r) = eval(ctx, *c, (fuel - 1) as nat);
                match r {
                    Err(e) => (c1, Err(e)),
                    Ok(Value::Bool(b)) => if b {
                        eval(c1, *t, (fuel - 1) as nat)
                    } else {
                        eval(c1, *f, (fuel - 1) as nat)
                    },
                    Ok(_) => (c1, Err(non_boolean_condition())),
                }
            },
        }
    }
}

/// Evaluates the arguments from position `i` on, binding each to the
/// parameter at its position as soon as it is known.
pub open spec fn eval_bind<'a>(
    ctx: Seq<Binding<'a>>,
    names: Seq<&'a str>,
    args: Seq<Expression<'a>>,
    i: int,
    fuel: nat,
) -> (Seq<Binding<'a>>, Result<(), Error>)
    decreases fuel, args.len() - i + 1,
{
    if i < 0 || i >= args.len() {
        (ctx, Ok(()))
    } else if i >= names.len() {
        (ctx, Err(too_many_arguments()))
    } else {
        let (c1, r) = eval(ctx, args[i], fuel);
        match r {
            Err(e) => (c1, Err(e)),
            Ok(v) => eval_bind(bind(c1, names[i], v), names, args, i + 1, fuel),
        }
    }
}

/// Evaluates the arguments from position `i` on, collecting their values.
pub open spec fn eval_args<'a>(ctx: Seq<Binding<'a>>, args: Seq<Expression<'a>>, i: int, fuel: nat) -> (
    Seq<Binding<'a>>,
    Result<Seq<Value<'a>>, Error>,
)
    decreases fuel, args.len() - i + 1,
{
    if i < 0 || i >= args.len() {
        (ctx, Ok(Seq::empty()))
    } else {
        let (c1, r) = eval(ctx, args[i], fuel);
        match r {
            Err(e) => (c1, Err(e)),
            Ok(v) => {
                let (c2, rest) = eval_args(c1, args, i + 1, fuel);
                match rest {
                    Err(e) => (c2, Err(e)),
                    Ok(vs) => (c2, Ok(seq![v] + vs)),
                }
            },
        }
    }
}

/// Whether two names have the same bytes.
fn same_name(a: &str, b: &str) -> (r: bool)
    ensures
        r == (a.spec_bytes() == b.spec_bytes()),
{
    let x = a.as_bytes();
    let y = b.as_bytes();
    if x.len() != y.len() {
        return false;
    }
    let mut i: usize = 0;
    while i < x.len()
        invariant
            x@ == a.spec_bytes(),
            y@ == b.spec_bytes(),
            x@.len() == y@.len(),
            i <= x@.len(),
            forall|k: int| 0 <= k < i ==> x@[k] == y@[k],
        decreases x@.len() - i,
    {
        if x[i] != y[i] {
            return false;
        }
        i = i + 1;
    }
    assert(x@ =~= y@);
    true
}

/// A native function applied to `args`.
fn apply_native<'a>(f: Native, args: Vec<Value<'a>>) -> (r: Result<Value<'a>, Error>)
    ensures
        r == spec_native(f, args@),
{
    if args.len() != 2 {
        return Err(
            match f {
                Native::Add => Error::TypeError("`add` takes 2 arguments"),
                Native::Sub => Error::TypeError("`sub` takes 2 arguments"),
                Native::Lt => Error::TypeError("`lt` takes 2 arguments"),
            },
        );
    }
    match (args[0], args[1]) {
        (Value::Number(a), Value::Number(b)) => match f {
            Native::Add => match a.checked_add(b) {
                Some(s) => Ok(Value::Number(s)),
                None => Err(Error::TypeError("Arithmetic overflow")),
            },
            Native::Sub => match a.checked_sub(b) {
                Some(s) => Ok(Value::Number(s)),
                None => Err(Error::TypeError("Arithmetic overflow")),
            },
            Native::Lt => Ok(Value::Bool(a < b)),
        },
        _ => Err(
            match f {
                Native::Add => Error::TypeError("Only numbers can be `add`ed"),
                Native::Sub => Error::TypeError("Only numbers can be `sub`ed"),
                Native::Lt => Error::TypeError("Only numbers can be `lt`ed"),
            },
        ),
    }
}

/// Names bound to values.
pub struct Context<'a> {
    bindings: Vec<Binding<'a>>,
}

impl<'a> Context<'a> {
    /// The bindings, oldest first.
    pub closed spec fn bindings(&self) -> Seq<Binding<'a>> {
        self.bindings@
    }

    /// A context without bindings.
    pub fn new() -> (r: Context<'a>)
        ensures
            r.bindings() == Seq::<Binding<'a>>::empty(),
    {
        Context { bindings: Vec::new() }
    }

    /// Binds `k` to `v`, replacing the value of an earlier binding of `k`.
    pub fn insert(&mut self, k: &'a str, v: Value<'a>)
        ensures
            final(self).bindings() == bind(old(self).bindings(), k, v),
    {
        proof {
            lemma_lookup_position(self.bindings(), k.spec_bytes());
        }
        match self.position(k) {
            Some(i) => {
                let name = self.bindings[i].0;
                self.bindings.set(i, (name, v));
            },
            None => {
                self.bindings.push((k, v));
            },
        }
    }

    /// Removes every binding of `k`.
    pub fn remove(&mut self, k: &'a str)
        ensures
            final(self).bindings() == unbind(old(self).bindings(), k.spec_bytes()),
    {
        let ghost old_bindings = self.bindings@;
        let mut kept: Vec<Binding<'a>> = Vec::new();
        let mut i: usize = 0;
        while i < self.bindings.len()
            invariant
                self.bindings@ == old_bindings,
                i <= old_bindings.len(),
                kept@ == unbind(old_bindings.take(i as int), k.spec_bytes()),
            decreases old_bindings.len() - i,
        {
            let b = self.bindings[i];
            proof {
                assert(old_bindings.take(i + 1) == old_bindings.take(i as int).push(b));
                old_bindings.take(i as int).lemma_filter_push(
                    b,
                    |b: Binding<'a>| b.0.spec_bytes() != k.spec_bytes(),
                );
            }
            if !same_name(b.0, k) {
                kept.push(b);
            }
            i = i + 1;
        }
        assert(old_bindings.take(i as int) =~= old_bindings);
        self.bindings = kept;
    }

    /// The position of the latest binding of `k`.
    fn position(&self, k: &str) -> (r: Option<usize>)
        ensures
            match r {
                Some(i) => position(self.bindings(), k.spec_bytes()) == Some(i as int),
                None => position(self.bindings(), k.spec_bytes()) is None,
            },
    {
        let ghost s = self.bindings@;
        let mut j: usize = self.bindings.len();
        assert(s.take(j as int) =~= s);
        while j > 0
            invariant
                s == self.bindings@,
                j <= s.len(),
                position(s, k.spec_bytes()) == position(s.take(j as int), k.spec_bytes()),
            decreases j,
        {
            assert(s.take(j as int).drop_last() =~= s.take(j - 1));
            if same_name(self.bindings[j - 1].0, k) {
                return Some(j - 1);
            }
            j = j - 1;
        }
        None
    }

    /// The value bound to `k`, if any.
    pub fn get(&self, k: &str) -> (r: Option<Value<'a>>)
        ensures
            r == lookup(self.bindings(), k.spec_bytes()),
    {
        proof {
            lemma_lookup_position(self.bindings(), k.spec_bytes());
        }
        match self.position(k) {
            Some(i) => Some(self.bindings[i].1),
            None => None,
        }
    }

    /// Evaluates `expr`. Bindings made while applying functions stay.
    pub fn run(&mut self, expr: &Expression<'a>) -> (r: Result<Value<'a>, Error>)
        ensures
            (final(self).bindings(), r) == eval(old(self).bindings(), *expr, MAX_DEPTH as nat),
    {
        self.run_with(expr, MAX_DEPTH)
    }

    fn run_with(&mut self, expr: &Expression<'a>, fuel: u64) -> (r: Result<Value<'a>, Error>)
        ensures
            (final(self).bindings(), r) == eval(old(self).bindings(), *expr, fuel as nat),
        decreases fuel, 0nat,
    {
        if fuel == 0 {
            return Err(Error::TooDeep);
        }
        match *expr {
            Expression::Litteral(x) => Ok(*x),
            Expression::Application(name, args) => {
                let func = match self.get(name) {
                    Some(e) => e,
                    None => return Err(Error::UndefinedValue),
                };
                if args.len() == 0 {
                    Ok(func)
                } else {
                    match func {
                        Value::Function(arg_names, body) => {
                            match self.bind_args(arg_names, args, 0, fuel - 1) {
                                Err(e) => Err(e),
                                Ok(()) => {
                                    if arg_names.len() > args.len() {
                                        Err(
                                            Error::TypeError(
                                                "Not enough arguments, partial applications are not yet supported",
                                            ),
                                        )
                                    } else {
                                        self.run_with(&body, fuel - 1)
                                    }
                                },
                            }
                        },
                        Value::NativeFunction(f) => {
                            match self.run_args(args, 0, fuel - 1) {
                                Err(e) => Err(e),
                                Ok(vals) => apply_native(f, vals),
                            }
                        },
                        _ => Err(Error::TypeError("Tried to apply a constant")),
                    }
                }
            },
            Expression::Branch(cond, t, f) => {
                let c = match self.run_with(cond, fuel - 1) {
                    Ok(Value::Bool(c)) => c,
                    Ok(_) => return Err(Error::TypeError("Conditions must be booleans")),
                    Err(e) => return Err(e),
                };
                if c {
                    self.run_with(t, fuel - 1)
                } else {
                    self.run_with(f, fuel - 1)
                }
            },
        }
    }

    /// Evaluates the arguments from position `i` on, binding each to its
    /// parameter.
    fn bind_args(
        &mut self,
        names: &'a [&'a str],
        args: &'a [Expression<'a>],
        i: usize,
        fuel: u64,
    ) -> (r: Result<(), Error>)
        requires
            i <= args@.len(),
        ensures
            (final(self).bindings(), r) == eval_bind(
                old(self).bindings(),
                names@,
                args@,
                i as int,
                fuel as nat,
            ),
        decreases fuel, args@.len() - i + 1,
    {
        if i >= args.len() {
            return Ok(());
        }
        if i >= names.len() {
            return Err(Error::TypeError("Too much arguments"));
        }
        let val = match self.run_with(&args[i], fuel) {
            Ok(v) => v,
            Err(e) => return Err(e),
        };
        self.insert(names[i], val);
        self.bind_args(names, args, i + 1, fuel)
    }

    /// Evaluates the arguments from position `i` on.
    fn run_args(&mut self, args: &'a [Expression<'a>], i: usize, fuel: u64) -> (r: Result<
        Vec<Value<'a>>,
        Error,
    >)
        requires
            i <= args@.len(),
        ensures
            ({
                let (c, e) = eval_args(old(self).bindings(), args@, i as int, fuel as nat);
                &&& final(self).bindings() == c
                &&& match (r, e) {
                    (Ok(v), Ok(s)) => v@ == s,
                    (Err(x), Err(y)) => x == y,
                    _ => false,
                }
            }),
        decreases fuel, args@.len() - i + 1,
    {
        if i >= args.len() {
            return Ok(Vec::new());
        }
        let v = match self.run_with(&args[i], fuel) {
            Ok(v) => v,
            Err(e) => return Err(e),
        };
        let rest = match self.run_args(args, i + 1, fuel) {
            Ok(rest) => rest,
            Err(e) => return Err(e),
        };
        let mut vals: Vec<Value<'a>> = Vec::new();
        vals.push(v);
        let mut k: usize = 0;
        while k < rest.len()
            invariant
                k <= rest@.len(),
                vals@ == seq![v] + rest@.take(k as int),
            decreases rest@.len() - k,
        {
            vals.push(rest[k]);
            k = k + 1;
            assert(vals@ =~= seq![v] + rest@.take(k as int));
        }
        assert(rest@.take(k as int) =~= rest@);
        Ok(vals)
    }
}

/// `lookup` reads the binding at `position`.
proof fn lemma_lookup_position<'a>(ctx: Seq<Binding<'a>>, name: Seq<u8>)
    ensures
        match position(ctx, name) {
            Some(i) => 0 <= i < ctx.len() && lookup(ctx, name) == Some(ctx[i].1),
            None => lookup(ctx, name) is None,
        },
    decreases ctx.len(),
{
    if ctx.len() > 0 && ctx.last().0.spec_bytes() != name {
        lemma_lookup_position(ctx.drop_last(), name);
    }
}

} // verus!
