//! The compiler driver's state.

use std::collections::HashMap;

use vstd::prelude::*;

use crate::lexer::Lexer;
use crate::symbol_table::Identifier;

verus! {

/// The state that a compilation carries: the identifiers seen so far, by
/// name, and the scanner over the source text.
#[allow(dead_code)]
pub struct Compiler {
    symbol_table: HashMap<String, Identifier>,
    lexer: Lexer,
}

} // verus!
