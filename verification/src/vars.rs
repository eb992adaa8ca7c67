//! The environment variables that a parse may read, as a plain mapping.

use crate::dict::Dict;
use crate::matches::opt_token;
use crate::token::{Token, TokenView};
use vstd::prelude::*;

verus! {

/// Environment variables by name. The engine reads a variable only by the
/// name that an option declares.
#[derive(Debug)]
pub struct EnvVars {
    vars: Dict<Token>,
}

impl View for EnvVars {
    type V = Map<Seq<char>, TokenView>;

    closed spec fn view(&self) -> Map<Seq<char>, TokenView> {
        self.vars@
    }
}

impl EnvVars {
    /// No variable set.
    pub fn new() -> (e: Self)
        ensures
            e@ == Map::<Seq<char>, TokenView>::empty(),
    {
        EnvVars { vars: Dict::new() }
    }

    /// Set the variable `name` to `value`.
    pub fn set(&mut self, name: &str, value: Token)
        ensures
            final(self)@ == old(self)@.insert(name@, value@),
    {
        self.vars.put(name, value);
    }

    /// The value of the variable `name`, if it is set.
    pub fn get(&self, name: &str) -> (r: Option<&Token>)
        ensures
            opt_token(r) == (if self@.contains_key(name@) {
                Some(self@[name@])
            } else {
                None
            }),
    {
        self.vars.get(name)
    }
}

} // verus!
