//! Copilot's sign-in and sign-out requests.

use vstd::prelude::*;

verus! {

/// The `signIn` request.
pub struct SignIn {}

/// The `signOut` request.
pub struct SignOut {}

/// The method name of the `signIn` request.
pub fn sign_in_method() -> (res: &'static str)
    ensures
        res@ == "signIn"@,
{
    "signIn"
}

/// The method name of the `signOut` request.
pub fn sign_out_method() -> (res: &'static str)
    ensures
        res@ == "signOut"@,
{
    "signOut"
}

} // verus!
