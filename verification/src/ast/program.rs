//! The root of the syntax tree.

use vstd::prelude::*;

use super::statement::{SpecStatement, Statement};

verus! {

/// A program: its top-level statements, in source order.
#[derive(Debug, PartialEq, Eq)]
pub struct Program<'a>(pub Vec<Statement<'a>>);

/// A program as a mathematical value.
pub struct SpecProgram(pub Seq<SpecStatement>);

impl<'a> View for Program<'a> {
    type V = SpecProgram;

    open spec fn view(&self) -> SpecProgram {
        SpecProgram(Seq::new(self.0@.len(), |i: int| self.0@[i]@))
    }
}

} // verus!
