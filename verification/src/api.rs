//! The client-side entry point: holds the address a transport connection is
//! opened against. The connection itself is transport work and lives outside
//! the verified core.
use vstd::prelude::*;
use vstd::string::StringExecFns;

verus! {

/// A handle naming the server endpoint a client connects to.
#[derive(Clone, Debug)]
pub struct AumAPI {
    pub bind: String,
}

impl AumAPI {
    /// A handle for the given endpoint address.
    pub fn new(bind: &str) -> (r: AumAPI)
        ensures
            r.bind@ == bind@,
    {
        AumAPI { bind: String::from_str(bind) }
    }

    /// The endpoint address this handle was created with.
    pub fn bind(&self) -> (r: &String)
        ensures
            r@ == self.bind@,
    {
        &self.bind
    }
}

} // verus!
