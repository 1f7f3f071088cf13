//! Kinds of variables described by source-level debug information.
use vstd::prelude::*;

verus! {

/// Whether a variable is a function argument (with its position) or a local.
#[derive(Clone, Copy, Debug, PartialEq, Eq, Structural)]
pub enum VariableKind {
    ArgumentVariable(usize),
    LocalVariable,
}

} // verus!
