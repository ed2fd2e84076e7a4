//! The bearer credential: whether a stored one can be used or a fresh login
//! is owed.
use vstd::prelude::*;

verus! {

/// Relies on `std::path::Path::exists`: whether an entry exists at `path`.
/// The answer depends on the file system, so nothing is promised of it.
#[verifier::external_body]
fn path_exists(path: &str) -> (r: bool) {
    std::path::Path::new(path).exists()
}

/// Whether a credential file is present at `path`.
pub fn token_exists(path: &str) -> (r: bool) {
    path_exists(path)
}

/// Whether a run must log in afresh: when forced to, or when no stored
/// credential is present.
pub fn needs_login(force: bool, credential_present: bool) -> (r: bool)
    ensures
        r == (force || !credential_present),
{
    force || !credential_present
}

/// Whether a run must log in afresh, given the credential file's path.
pub fn must_login(force: bool, token_file: &str) -> (r: bool)
    ensures
        force ==> r,
{
    if force {
        true
    } else {
        needs_login(force, token_exists(token_file))
    }
}

} // verus!
