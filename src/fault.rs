//! The internal failures that end an intercepted call. None of them is
//! recovered: the hook that meets one reports it and stops the process.

use vstd::prelude::*;

verus! {

/// Why an intercepted call cannot be carried out.
#[derive(Clone, Copy, Debug, PartialEq, Eq, Structural)]
pub enum Fault {
    /// No trace destination was configured.
    MissingDestination,
    /// The configured trace destination holds a NUL byte and cannot name a file.
    InvalidDestination,
    /// The dynamic loader found no next definition of the hooked symbol.
    SymbolNotFound,
    /// A creation flag was given with a permission mode outside the legal bits.
    IllegalMode,
}

} // verus!
