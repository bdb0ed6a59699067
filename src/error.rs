use vstd::prelude::*;

verus! {

/// Why an operation of the dispatcher failed.
#[derive(Debug)]
pub enum ShevError {
    /// No row for the given key.
    NotFound(String),
    /// An argument that cannot be read or is out of range.
    InvalidInput(String),
    /// The operation clashes with what is stored (a key that exists, a job
    /// that is already over).
    Conflict(String),
    /// The persistent store failed.
    Storage(String),
}

impl ShevError {
    /// The message carried by the error.
    pub fn message(&self) -> (r: &String)
        ensures
            r == match self {
                ShevError::NotFound(m) => m,
                ShevError::InvalidInput(m) => m,
                ShevError::Conflict(m) => m,
                ShevError::Storage(m) => m,
            },
    {
        match self {
            ShevError::NotFound(m) => m,
            ShevError::InvalidInput(m) => m,
            ShevError::Conflict(m) => m,
            ShevError::Storage(m) => m,
        }
    }
}

/// `prefix`, then `name`, then `suffix`.
pub fn describe(prefix: &str, name: &str, suffix: &str) -> (r: String)
    ensures
        r@ == prefix@ + name@ + suffix@,
{
    let mut out = prefix.to_owned();
    out.append(name);
    out.append(suffix);
    out
}

} // verus!
