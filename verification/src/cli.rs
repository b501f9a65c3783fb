//! Operator-facing options, as plain values. The binary parses its command
//! line into this shape before handing it to the library.

use vstd::prelude::*;

verus! {

/// The options an operator can set for a session.
#[derive(Debug, Clone, Copy)]
pub struct Cli {
    /// Suppress the rendered machine and surface internal signals instead.
    pub debug_mode: bool,
    /// Do not display the growing message while still recording it.
    pub secret_mode: bool,
    /// Show key bindings and instructions.
    pub show_instructions: bool,
    /// Run with animations.
    pub animate: bool,
}

} // verus!
