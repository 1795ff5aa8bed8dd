//! The greeting shown to a freshly connected client.

use vstd::prelude::*;
use vstd::string::StringExecFns;

verus! {

/// The welcome line pushed to every new connection.
pub fn welcome_message() -> (r: String)
    ensures
        r@ == "Welcome to the Earthdawn Dice Roll Chat."@,
{
    String::from_str("Welcome to the Earthdawn Dice Roll Chat.")
}

} // verus!
