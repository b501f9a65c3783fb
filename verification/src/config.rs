//! Session configuration derived from the operator's options.

use vstd::prelude::*;

use crate::cli::Cli;

verus! {

/// Session configuration: which presentation features are on.
#[derive(Debug, Clone, Copy)]
pub struct Config {
    debug_mode: bool,
    secret_mode: bool,
    show_instructions: bool,
    animate: bool,
}

impl Config {
    /// Whether debug output was requested.
    pub closed spec fn spec_debug(self) -> bool {
        self.debug_mode
    }

    /// Whether secret mode was requested.
    pub closed spec fn spec_secret(self) -> bool {
        self.secret_mode
    }

    /// Whether instructions were requested.
    pub closed spec fn spec_show_instructions(self) -> bool {
        self.show_instructions
    }

    /// Whether animations were requested.
    pub closed spec fn spec_animate(self) -> bool {
        self.animate
    }

    /// Take the configuration over from the parsed options.
    pub fn new(cli: &Cli) -> (c: Config)
        ensures
            c.spec_debug() == cli.debug_mode,
            c.spec_secret() == cli.secret_mode,
            c.spec_show_instructions() == cli.show_instructions,
            c.spec_animate() == cli.animate,
    {
        Config {
            debug_mode: cli.debug_mode,
            secret_mode: cli.secret_mode,
            show_instructions: cli.show_instructions,
            animate: cli.animate,
        }
    }

    /// Debug mode: suppress the rendered machine, print internal signals.
    pub fn is_debug(&self) -> (r: bool)
        ensures
            r == self.spec_debug(),
    {
        self.debug_mode
    }

    /// Display mode: the machine is rendered unless debugging.
    pub fn is_display(&self) -> (r: bool)
        ensures
            r == !self.spec_debug(),
    {
        !self.debug_mode
    }

    /// Secret mode: the growing message is recorded but not shown.
    pub fn is_secret(&self) -> (r: bool)
        ensures
            r == self.spec_secret(),
    {
        self.secret_mode
    }

    /// Whether to display static help text.
    pub fn should_show_instructions(&self) -> (r: bool)
        ensures
            r == self.spec_show_instructions(),
    {
        self.show_instructions
    }

    /// Whether the presentation delay is on.
    pub fn animate(&self) -> (r: bool)
        ensures
            r == self.spec_animate(),
    {
        self.animate
    }
}

} // verus!
