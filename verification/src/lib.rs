//! An encrypted graph-database proxy core.
//!
//! Clients submit structured graph queries; the proxy encrypts every label,
//! property key and property value before dispatching to the backend, and
//! decrypts results with integrity verification before returning them.

use vstd::prelude::*;

pub mod bfs;
pub mod canon;
pub mod crypto;
pub mod cypher;
pub mod digest;
pub mod error;
pub mod graph;
pub mod item;
pub mod node;
pub mod rows;
pub mod strorder;
pub mod util;
pub mod wire;

verus! {

/// The magic first character of every ciphertext token handed to the backend.
pub const MAGIC_PREFIX_CHAR: char = 'a';

/// A token is a ciphertext string carrying the magic prefix.
pub open spec fn has_magic_prefix(s: Seq<char>) -> bool {
    s.len() >= 1 && s[0] == MAGIC_PREFIX_CHAR
}

} // verus!
