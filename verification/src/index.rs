//! The lookup tables of one invocation.
//!
//! `CredentialIndex` maps an identifier (a directory entry's name) to the
//! path of the file that holds its secret. `SecretStore` maps such a path
//! to the file content that the caller managed to read. Both are built
//! once from a pair list and are read-only afterwards; in both, a later
//! pair with the same key wins, as the last directory entry would.

use vstd::prelude::*;

use crate::assoc::{bytes_eq, lemma_map_of_contains, lemma_map_of_take_step, map_of};

verus! {

/// The identifier-to-path mapping built from a credentials directory's
/// immediate entries.
pub struct CredentialIndex {
    entries: Vec<(Vec<u8>, Vec<u8>)>,
}

impl CredentialIndex {
    pub closed spec fn entry_views(&self) -> Seq<(Seq<u8>, Seq<u8>)> {
        self.entries@.map_values(|p: (Vec<u8>, Vec<u8>)| (p.0@, p.1@))
    }
}

impl View for CredentialIndex {
    type V = Map<Seq<u8>, Seq<u8>>;

    closed spec fn view(&self) -> Map<Seq<u8>, Seq<u8>> {
        map_of(self.entry_views())
    }
}

impl CredentialIndex {
    /// Builds the index from a listing of (entry name, full path) pairs,
    /// in the order the directory was enumerated.
    pub fn from_entries(list: Vec<(Vec<u8>, Vec<u8>)>) -> (r: Self)
        ensures
            r@ == map_of(list@.map_values(|p: (Vec<u8>, Vec<u8>)| (p.0@, p.1@))),
    {
        CredentialIndex { entries: list }
    }

    /// Looks an identifier up; the path of the last pair that carries the
    /// name, `None` for a name no pair carries.
    pub fn lookup(&self, name: &[u8]) -> (r: Option<&Vec<u8>>)
        ensures
            match r {
                Some(p) => self@.dom().contains(name@) && p@ == self@[name@],
                None => !self@.dom().contains(name@),
            },
    {
        let n = self.entries.len();
        let mut found: Option<usize> = None;
        for i in 0..n
            invariant
                n == self.entries.len(),
                match found {
                    Some(j) => {
                        &&& j < i <= n
                        &&& self.entry_views()[j as int].0 == name@
                        &&& map_of(self.entry_views().take(i as int)).dom().contains(name@)
                        &&& map_of(self.entry_views().take(i as int))[name@]
                            == self.entry_views()[j as int].1
                    },
                    None => !map_of(self.entry_views().take(i as int)).dom().contains(name@),
                },
        {
            proof {
                lemma_map_of_take_step(self.entry_views(), i as int);
            }
            if bytes_eq(self.entries[i].0.as_slice(), name) {
                found = Some(i);
            }
        }
        proof {
            assert(self.entry_views().take(n as int) =~= self.entry_views());
        }
        match found {
            Some(j) => Some(&self.entries[j].1),
            None => None,
        }
    }
}

/// The path-to-content mapping of the secret files the caller read before
/// the splice.
pub struct SecretStore {
    entries: Vec<(Vec<u8>, String)>,
}

impl SecretStore {
    pub closed spec fn entry_views(&self) -> Seq<(Seq<u8>, Seq<char>)> {
        self.entries@.map_values(|p: (Vec<u8>, String)| (p.0@, p.1@))
    }
}

impl View for SecretStore {
    type V = Map<Seq<u8>, Seq<char>>;

    closed spec fn view(&self) -> Map<Seq<u8>, Seq<char>> {
        map_of(self.entry_views())
    }
}

impl SecretStore {
    /// Builds the store from (path, content) pairs.
    pub fn from_entries(list: Vec<(Vec<u8>, String)>) -> (r: Self)
        ensures
            r@ == map_of(list@.map_values(|p: (Vec<u8>, String)| (p.0@, p.1@))),
    {
        SecretStore { entries: list }
    }

    /// Looks a path up; the content of the last pair that carries the
    /// path, `None` for a path no pair carries.
    pub fn lookup(&self, path: &[u8]) -> (r: Option<&String>)
        ensures
            match r {
                Some(c) => self@.dom().contains(path@) && c@ == self@[path@],
                None => !self@.dom().contains(path@),
            },
    {
        let n = self.entries.len();
        let mut found: Option<usize> = None;
        for i in 0..n
            invariant
                n == self.entries.len(),
                match found {
                    Some(j) => {
                        &&& j < i <= n
                        &&& self.entry_views()[j as int].0 == path@
                        &&& map_of(self.entry_views().take(i as int)).dom().contains(path@)
                        &&& map_of(self.entry_views().take(i as int))[path@]
                            == self.entry_views()[j as int].1
                    },
                    None => !map_of(self.entry_views().take(i as int)).dom().contains(path@),
                },
        {
            proof {
                lemma_map_of_take_step(self.entry_views(), i as int);
            }
            if bytes_eq(self.entries[i].0.as_slice(), path) {
                found = Some(i);
            }
        }
        proof {
            assert(self.entry_views().take(n as int) =~= self.entry_views());
        }
        match found {
            Some(j) => Some(&self.entries[j].1),
            None => None,
        }
    }
}

/// An identifier is addressable exactly when some pair of the listing the
/// index was built from carries its name: indexing a directory's entries
/// makes nothing else addressable, in particular nothing a subdirectory
/// holds.
pub proof fn lemma_index_domain(list: Seq<(Seq<u8>, Seq<u8>)>, name: Seq<u8>)
    ensures
        map_of(list).dom().contains(name) <==> exists|i: int|
            0 <= i < list.len() && (#[trigger] list[i]).0 == name,
{
    lemma_map_of_contains(list, name);
}

} // verus!
