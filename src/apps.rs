//! The applications that ship with the system.
use vstd::prelude::*;

use crate::vm::Expression::{self, Application, Litteral};
use crate::vm::Value::Number;

verus! {

/// `(add 19 (abs -19))`.
pub fn calc<'a>() -> (r: Expression<'a>)
    ensures
        match r {
            Application(_, args) => {
                &&& args@.len() == 2
                &&& match args@[0] {
                    Litteral(v) => match *v {
                        Number(n) => n == 19,
                        _ => false,
                    },
                    _ => false,
                }
                &&& match args@[1] {
                    Application(_, inner) => inner@.len() == 1 && match inner@[0] {
                        Litteral(v) => match *v {
                            Number(n) => n == -19,
                            _ => false,
                        },
                        _ => false,
                    },
                    _ => false,
                }
            },
            _ => false,
        },
{
    Application("add", &[Litteral(&Number(19)), Application("abs", &[Litteral(&Number(-19))])])
}

} // verus!
