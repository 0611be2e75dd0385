use vstd::prelude::*;

verus! {

/// The command that selects infix notation.
pub const MODE_COMMON: &'static str = "--mode common";

/// The command that selects prefix notation.
pub const MODE_POLISH: &'static str = "--mode polish";

/// The command that ends the session.
pub const EXIT_COMMAND: &'static str = "q";

/// The word that stands for the last result in an expression.
pub const MEMORY_FLAG: &'static str = "-R";

/// The notation in which expressions are read.
#[derive(Debug, Clone, Copy, PartialEq, Eq, Structural)]
pub enum Mode {
    /// Infix notation, with precedence and parentheses.
    Common,
    /// Prefix notation.
    Polish,
}

} // verus!
