//! Domain model for provider-agnostic vulnerability management.

pub mod collections;
pub mod durable_state;
pub mod findings;
pub mod integration;
pub mod inventory;
pub mod operations;
pub mod order;
pub mod scanning;

use vstd::prelude::*;

verus! {

/// Name of the bounded context this library implements.
pub fn context_name() -> (r: &'static str)
    ensures
        r@ == "vulnerability-management"@,
{
    "vulnerability-management"
}

} // verus!
