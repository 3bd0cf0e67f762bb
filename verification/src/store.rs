//! The named store for quantized sequences.
//!
//! The store itself — files under a directory, one per name — is a
//! collaborator outside this crate; the core only keeps the directory it was
//! given, and hands sequences to it and back as framed byte streams.

use vstd::prelude::*;

verus! {

/// Store for named sequences: remembers the directory the caller chose.
pub struct PhiMemoryStore {
    base_path: String,
}

impl PhiMemoryStore {
    /// The directory the store was created under.
    pub closed spec fn spec_base_path(&self) -> Seq<char> {
        self.base_path@
    }

    /// Create a store under the given directory.
    pub fn new(base_path: String) -> (s: Self)
        ensures
            s.spec_base_path() == base_path@,
    {
        PhiMemoryStore { base_path }
    }

    /// The directory the store was created under.
    pub fn base_path(&self) -> (p: &String)
        ensures
            p@ == self.spec_base_path(),
    {
        &self.base_path
    }
}

} // verus!
