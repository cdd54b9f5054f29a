//! The optimizer of the intermediate representation. It has no
//! optimization yet: it hands the statements back as they are.

use vstd::prelude::*;
use crate::error::{Error, ErrorView};
use crate::lexer::{intermediate_result, Intermediate, StatementView};

verus! {

#[derive(Debug)]
pub struct OptimizerOptions {
    optimize: bool,
}

impl OptimizerOptions {
    /// Whether optimization is asked for.
    pub closed spec fn enabled(&self) -> bool {
        self.optimize
    }

    pub fn new(optimize: bool) -> (r: OptimizerOptions)
        ensures
            r.enabled() == optimize,
    {
        OptimizerOptions { optimize }
    }
}

// optimize intermediate representation
#[derive(Debug)]
pub struct Optimizer {
    code: Intermediate,
    options: OptimizerOptions,
}

impl Optimizer {
    /// The statements to optimize.
    pub closed spec fn code(&self) -> Seq<(usize, StatementView)> {
        self.code@
    }

    /// Whether optimization is asked for.
    pub closed spec fn enabled(&self) -> bool {
        self.options.optimize
    }

    pub fn new(code: Intermediate, options: OptimizerOptions) -> (r: Optimizer)
        ensures
            r.code() == code@,
            r.enabled() == options.enabled(),
    {
        Optimizer { code, options }
    }

    /// The statements, unchanged. Optimization must not be asked for:
    /// there is none.
    pub fn optimize(self) -> (r: Result<Intermediate, Error>)
        requires
            !self.enabled(),
        ensures
            intermediate_result(r) == Ok::<Seq<(usize, StatementView)>, ErrorView>(self.code()),
    {
        Ok(self.code)
    }
}

} // verus!
