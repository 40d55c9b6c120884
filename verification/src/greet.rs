//! The greeting handler: a fixed-format greeting built around the caller's name.

use vstd::prelude::*;
use vstd::string::StringExecFns;

verus! {

/// Returns the greeting for `name`: a fixed prefix, the name, and a fixed suffix.
pub fn greet(name: &str) -> (r: String)
    ensures
        r@ == "Hello, "@ + name@ + "! You've been greeted from Rust!"@,
{
    let mut r = String::from_str("Hello, ");
    r.append(name);
    r.append("! You've been greeted from Rust!");
    r
}

} // verus!
