//! Inode table: the mapping from a unique numeric identifier to an
//! attribute record, together with monotonic identifier allocation and the
//! path-based identifier hash.

use vstd::prelude::*;

use crate::attr::FileAttr;
use crate::attr::ROOT_ID;
use std::collections::HashMap;
use std::collections::hash_map::DefaultHasher;
use std::hash::Hasher;
use vstd::std_specs::hash::DefaultHasherAdditionalSpecFns;
use vstd::string::StringSliceAdditionalSpecFns;

verus! {

broadcast use vstd::std_specs::hash::group_hash_axioms;

/// The truncated, non-zero identifier hash of a path: the low 28 bits of
/// the standard hash of its bytes, plus one.
pub open spec fn spec_generate(bytes: Seq<u8>) -> int {
    (DefaultHasher::spec_finish(seq![bytes]) & 0x0FFF_FFFF) + 1
}

/// Generates a truncated, non-zero inode number hash based on the given
/// path.
pub fn generate(path: &str) -> (r: u64)
    ensures
        r as int == spec_generate(path.spec_bytes()),
        1 <= r <= 0x1000_0000,
{
    let mut hasher = DefaultHasher::new();
    hasher.write(path.as_bytes());
    let full_hash: u64 = hasher.finish();
    proof {
        assert(hasher@ =~= seq![path.spec_bytes()]);
        assert(full_hash & 0x0FFF_FFFF <= 0x0FFF_FFFF) by (bit_vector);
    }
    (full_hash & 0x0FFF_FFFF) + 1
}

/// The mapping from each live identifier to its attribute record, and the
/// monotonic counter the next identifier comes from. Identifiers are never
/// reused, even after deletion.
pub struct InodeTable {
    counter: u64,
    records: HashMap<u64, FileAttr>,
}

impl View for InodeTable {
    type V = Map<u64, FileAttr>;

    closed spec fn view(&self) -> Map<u64, FileAttr> {
        self.records@
    }
}

impl InodeTable {
    /// The value the next allocation returns.
    pub closed spec fn spec_counter(&self) -> u64 {
        self.counter
    }

    /// Every live identifier lies strictly below the counter and above
    /// zero, so allocation always returns a fresh, non-root identifier.
    pub open spec fn wf(&self) -> bool {
        &&& self.spec_counter() > ROOT_ID
        &&& forall|k: u64| #[trigger] self@.contains_key(k) ==> 1 <= k < self.spec_counter()
    }

    /// A table holding only the root record, with the counter seeded to
    /// the value immediately after the reserved root identifier.
    pub fn new(root: FileAttr) -> (r: InodeTable)
        requires
            root.ino == ROOT_ID,
        ensures
            r@ == Map::<u64, FileAttr>::empty().insert(ROOT_ID, root),
            r.spec_counter() == ROOT_ID + 1,
            r.wf(),
    {
        let mut records: HashMap<u64, FileAttr> = HashMap::new();
        records.insert(ROOT_ID, root);
        let r = InodeTable { counter: ROOT_ID + 1, records };
        proof {
            assert(r@ =~= Map::<u64, FileAttr>::empty().insert(ROOT_ID, root));
        }
        r
    }

    /// Whether the counter has room for one more allocation.
    pub fn can_allocate(&self) -> (r: bool)
        ensures
            r == (self.spec_counter() < u64::MAX),
    {
        self.counter < u64::MAX
    }

    /// Returns the next counter value and increments the counter. The
    /// result is never the reserved root identifier and never a value
    /// already in use.
    pub fn allocate(&mut self) -> (r: u64)
        requires
            old(self).wf(),
            old(self).spec_counter() < u64::MAX,
        ensures
            final(self).wf(),
            r == old(self).spec_counter(),
            final(self).spec_counter() == r + 1,
            final(self)@ == old(self)@,
            !final(self)@.contains_key(r),
            r != ROOT_ID,
            r >= 1,
    {
        let r = self.counter;
        self.counter = self.counter + 1;
        proof {
            assert forall|k: u64| #[trigger] self@.contains_key(k) implies 1 <= k
                < self.spec_counter() by {
                assert(old(self)@.contains_key(k));
            }
        }
        r
    }

    /// Stores `attr` under its own identifier, replacing any record that
    /// identifier had.
    pub fn insert(&mut self, attr: FileAttr)
        requires
            old(self).wf(),
            1 <= attr.ino < old(self).spec_counter(),
        ensures
            final(self).wf(),
            final(self)@ == old(self)@.insert(attr.ino, attr),
            final(self).spec_counter() == old(self).spec_counter(),
    {
        self.records.insert(attr.ino, attr);
        proof {
            assert forall|k: u64| #[trigger] self@.contains_key(k) implies 1 <= k
                < self.spec_counter() by {
                if k != attr.ino {
                    assert(old(self)@.contains_key(k));
                }
            }
        }
    }

    /// The record of `ino`, when one is live.
    pub fn get(&self, ino: u64) -> (r: Option<FileAttr>)
        ensures
            match r {
                Some(a) => self@.contains_key(ino) && a == self@[ino],
                None => !self@.contains_key(ino),
            },
    {
        match self.records.get(&ino) {
            Some(a) => Some(*a),
            None => None,
        }
    }

    /// Whether `ino` is live.
    pub fn contains(&self, ino: u64) -> (r: bool)
        ensures
            r == self@.contains_key(ino),
    {
        self.records.contains_key(&ino)
    }

    /// Drops the record of `ino`; removal is unconditional, the link
    /// count is not consulted. Removing an absent identifier changes
    /// nothing.
    pub fn remove(&mut self, ino: u64)
        requires
            old(self).wf(),
        ensures
            final(self).wf(),
            final(self)@ == old(self)@.remove(ino),
            final(self).spec_counter() == old(self).spec_counter(),
    {
        self.records.remove(&ino);
        proof {
            assert(final(self)@ =~= old(self)@.remove(ino));
        }
    }
}

} // verus!
