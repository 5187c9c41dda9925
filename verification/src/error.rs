use vstd::prelude::*;

verus! {

/// Everything that can go wrong inside the proxy core.
#[derive(Clone, Copy, Debug, PartialEq, Eq, Structural)]
pub enum Error {
    /// The query's shape matches none of the supported combinations.
    InvalidQuery,
    /// A node that must be referenced by name carries no variable name.
    MissingVarName,
    /// A RETURN/SET/REMOVE/DELETE list was given but renders to nothing.
    EmptyItemList,
    /// A returned entity failed integrity verification, carried malformed
    /// ciphertext, or was missing a reserved property.
    Tamper,
    /// A frame or serialized value could not be parsed.
    Malformed,
}

impl Error {
    /// A short diagnostic text for logging at the boundary.
    pub fn message(&self) -> (r: &'static str)
        ensures
            r@.len() > 0,
    {
        proof {
            reveal_strlit("invalid or unsupported cypher query");
            reveal_strlit("a referenced node needs a variable name");
            reveal_strlit("an item list was used but renders to nothing");
            reveal_strlit("data was attacked");
            reveal_strlit("malformed serialized input");
        }
        match self {
            Error::InvalidQuery => "invalid or unsupported cypher query",
            Error::MissingVarName => "a referenced node needs a variable name",
            Error::EmptyItemList => "an item list was used but renders to nothing",
            Error::Tamper => "data was attacked",
            Error::Malformed => "malformed serialized input",
        }
    }
}

} // verus!
