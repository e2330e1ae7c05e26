//! Credentials held across send operations, and the error taxonomy of the
//! library: transport failures are distinguished from provider rejections.

use vstd::prelude::*;

verus! {

/// Provider credentials. Construction performs no I/O; the value is
/// immutable afterwards and may be shared across any number of calls.
pub struct Client {
    pub access_key: String,
    pub secret: String,
}

impl Client {
    /// Stores the two credential strings unchanged.
    pub fn new(access_key: &str, secret: &str) -> (c: Client)
        ensures
            c.access_key@ == access_key@,
            c.secret@ == secret@,
    {
        Client { access_key: access_key.to_owned(), secret: secret.to_owned() }
    }
}

/// A failed send: either the HTTP layer failed (carrying a description of
/// the underlying cause), or the provider answered with a non-`OK` code
/// (carrying the provider's message).
#[derive(Debug)]
pub enum Error {
    Reqwest(String),
    Internal(String),
}

} // verus!
