//! Why a trie is refused.

use vstd::prelude::*;

verus! {

/// The ways in which a trie can be unfit for flattening or hashing.
#[derive(Clone, Copy, Debug, PartialEq, Eq)]
pub enum TrieError {
    /// The trie holds a node that is neither a branch, a leaf nor empty.
    UnsupportedNode,
    /// The hash of an empty node was asked for.
    EmptyNode,
    /// An arena index lies beyond the arena, or a record refers to a record
    /// that does not precede it.
    BadIndex,
    /// A leaf record of an arena holds an entry that is not a byte.
    BadLeaf,
}

impl TrieError {
    /// A short description of the error.
    pub fn message(&self) -> (text: &'static str)
        ensures
            text@ == match *self {
                TrieError::UnsupportedNode => "unexpected node type"@,
                TrieError::EmptyNode => "unexpected empty node"@,
                TrieError::BadIndex => "arena index out of range"@,
                TrieError::BadLeaf => "arena leaf holds more than bytes"@,
            },
    {
        match self {
            TrieError::UnsupportedNode => "unexpected node type",
            TrieError::EmptyNode => "unexpected empty node",
            TrieError::BadIndex => "arena index out of range",
            TrieError::BadLeaf => "arena leaf holds more than bytes",
        }
    }
}

} // verus!
