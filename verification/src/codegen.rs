//! The intermediate representation: the resolved program, as it is.

use crate::ast::Program;
use vstd::prelude::*;

verus! {

/// The intermediate representation of a program.
#[derive(Debug)]
pub struct IR {
    pub program: Program,
}

/// The intermediate representation of a resolved program: the program
/// itself.
pub fn generate(program: Program) -> (r: Result<IR, String>)
    ensures
        r matches Ok(ir) && ir.program == program,
{
    Ok(IR { program })
}

} // verus!
