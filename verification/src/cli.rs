//! Command line arguments for the service: where to listen.

use vstd::prelude::*;
use vstd::string::StringExecFns;

use crate::decimal::{push_decimal, spec_decimal};

verus! {

/// Command line arguments.
#[derive(Debug, Clone)]
pub struct Args {
    /// Address to run the application on.
    pub host: String,
    /// Port number to run the application on.
    pub port: u16,
}

/// The listen address an argument pair stands for: `<HOST>:<PORT>`.
pub open spec fn spec_address(host: Seq<char>, port: u16) -> Seq<char> {
    host + seq![':'] + spec_decimal(port as nat)
}

impl Args {
    /// Returns the formatted address for the application to run on:
    /// `<HOST>:<PORT>`.
    pub fn address(&self) -> (r: String)
        ensures
            r@ == spec_address(self.host@, self.port),
    {
        let mut s = self.host.clone();
        s.append(":");
        push_decimal(&mut s, self.port as u32);
        proof {
            reveal_strlit(":");
            assert(":"@ =~= seq![':']);
            assert(s@ =~= spec_address(self.host@, self.port));
        }
        s
    }
}

} // verus!
