//! Directory namespace: the (parent identifier, name) -> child identifier
//! bindings, with one name per parent, children listing, emptiness and
//! reverse parent lookup.

use vstd::prelude::*;

use crate::attr::FsError;
use crate::attr::ROOT_ID;

verus! {

/// One directory entry: the binding of a name under a parent directory to
/// a child identifier. Its existence is the sole evidence that the child
/// is reachable.
pub struct DirEntry {
    pub parent: u64,
    pub name: String,
    pub child: u64,
}

/// The mathematical image of one directory entry.
#[verifier::ext_equal]
pub ghost struct EntryV {
    pub parent: u64,
    pub name: Seq<char>,
    pub child: u64,
}

impl View for DirEntry {
    type V = EntryV;

    open spec fn view(&self) -> EntryV {
        EntryV { parent: self.parent, name: self.name@, child: self.child }
    }
}

/// The entry sequence a vector of entries stands for.
pub open spec fn view_of_entries(es: Seq<DirEntry>) -> Seq<EntryV> {
    Seq::new(es.len(), |i: int| es[i]@)
}

/// Whether entry `e` binds `name` under `parent`.
pub open spec fn entry_matches(e: EntryV, parent: u64, name: Seq<char>) -> bool {
    e.parent == parent && e.name == name
}

/// Whether some entry binds `name` under `parent`.
pub open spec fn occupied(s: Seq<EntryV>, parent: u64, name: Seq<char>) -> bool {
    exists|i: int| 0 <= i < s.len() && entry_matches(#[trigger] s[i], parent, name)
}

/// Whether some entry binds `name` under `parent` to exactly `child`.
pub open spec fn has_entry(s: Seq<EntryV>, parent: u64, name: Seq<char>, child: u64) -> bool {
    exists|i: int|
        0 <= i < s.len() && entry_matches(#[trigger] s[i], parent, name) && s[i].child == child
}

/// Whether `dir` has at least one entry below it.
pub open spec fn has_child(s: Seq<EntryV>, dir: u64) -> bool {
    exists|i: int| 0 <= i < s.len() && (#[trigger] s[i]).parent == dir
}

/// Whether some entry points at `child`.
pub open spec fn child_recorded(s: Seq<EntryV>, child: u64) -> bool {
    exists|i: int| 0 <= i < s.len() && (#[trigger] s[i]).child == child
}

/// Whether some entry records `parent` as the parent of `child`.
pub open spec fn recorded_parent_of(s: Seq<EntryV>, child: u64, parent: u64) -> bool {
    exists|i: int|
        0 <= i < s.len() && (#[trigger] s[i]).child == child && s[i].parent == parent
}

/// No two entries bind the same name under the same parent.
pub open spec fn entries_unique(s: Seq<EntryV>) -> bool {
    forall|i: int, j: int|
        0 <= i < j < s.len() ==> !((#[trigger] s[i]).parent == (#[trigger] s[j]).parent
            && s[i].name == s[j].name)
}

/// No two entries point at the same child: every live object is reachable
/// along exactly one name.
pub open spec fn children_distinct(s: Seq<EntryV>) -> bool {
    forall|i: int, j: int|
        0 <= i < j < s.len() ==> (#[trigger] s[i]).child != (#[trigger] s[j]).child
}

/// The child the unique entry for (`parent`, `name`) points at.
pub open spec fn child_of(s: Seq<EntryV>, parent: u64, name: Seq<char>) -> u64 {
    choose|c: u64| has_entry(s, parent, name, c)
}

/// The position of the unique entry for (`parent`, `name`).
pub open spec fn entry_index(s: Seq<EntryV>, parent: u64, name: Seq<char>) -> int {
    choose|i: int| 0 <= i < s.len() && entry_matches(#[trigger] s[i], parent, name)
}

/// The entry sequence with the unique entry for (`parent`, `name`) taken
/// out.
pub open spec fn remove_entry_seq(s: Seq<EntryV>, parent: u64, name: Seq<char>) -> Seq<EntryV> {
    let i = entry_index(s, parent, name);
    s.subrange(0, i) + s.subrange(i + 1, s.len() as int)
}

/// The entries below `dir`, in insertion order.
pub open spec fn spec_children(s: Seq<EntryV>, dir: u64) -> Seq<EntryV> {
    s.filter(|e: EntryV| e.parent == dir)
}

/// The children of `dir` are exactly the entries below `dir`: every
/// element of the children sequence is such an entry, and every such entry
/// appears among the children.
pub proof fn lemma_children_membership(s: Seq<EntryV>, dir: u64)
    ensures
        forall|k: int|
            0 <= k < spec_children(s, dir).len() ==> (#[trigger] spec_children(s, dir)[k]).parent
                == dir && s.contains(spec_children(s, dir)[k]),
        forall|i: int|
            0 <= i < s.len() && (#[trigger] s[i]).parent == dir ==> spec_children(s, dir).contains(
                s[i],
            ),
    decreases s.len(),
{
    reveal(Seq::filter);
    let kids = spec_children(s, dir);
    if s.len() == 0 {
    } else {
        let prefix = s.drop_last();
        lemma_children_membership(prefix, dir);
        let kp = spec_children(prefix, dir);
        assert forall|k: int| 0 <= k < kids.len() implies (#[trigger] kids[k]).parent == dir
            && s.contains(kids[k]) by {
            if k < kp.len() {
                assert(kids[k] == kp[k]);
                let i = choose|i: int| 0 <= i < prefix.len() && prefix[i] == kp[k];
                assert(s[i] == kp[k]);
            } else {
                assert(kids[k] == s.last());
                assert(s[s.len() - 1] == s.last());
            }
        }
        assert forall|i: int| 0 <= i < s.len() && (#[trigger] s[i]).parent == dir implies kids
            .contains(s[i]) by {
            if i < s.len() - 1 {
                assert(prefix[i] == s[i]);
                assert(kp.contains(prefix[i]));
                let k = choose|k: int| 0 <= k < kp.len() && kp[k] == s[i];
                assert(kids[k] == s[i]);
            } else {
                assert(kids[kids.len() - 1] == s[i]);
            }
        }
    }
}

/// Under per-parent name uniqueness, the children of `dir` carry pairwise
/// distinct names.
pub proof fn lemma_children_unique_names(s: Seq<EntryV>, dir: u64)
    requires
        entries_unique(s),
    ensures
        forall|k1: int, k2: int|
            0 <= k1 < k2 < spec_children(s, dir).len() ==> (#[trigger] spec_children(
                s,
                dir,
            )[k1]).name != (#[trigger] spec_children(s, dir)[k2]).name,
    decreases s.len(),
{
    reveal(Seq::filter);
    let kids = spec_children(s, dir);
    if s.len() == 0 {
    } else {
        let prefix = s.drop_last();
        assert(entries_unique(prefix)) by {
            assert forall|i: int, j: int| 0 <= i < j < prefix.len() implies !((#[trigger] prefix[i]).parent
                == (#[trigger] prefix[j]).parent && prefix[i].name == prefix[j].name) by {
                assert(prefix[i] == s[i] && prefix[j] == s[j]);
            }
        }
        lemma_children_unique_names(prefix, dir);
        lemma_children_membership(prefix, dir);
        let kp = spec_children(prefix, dir);
        assert forall|k1: int, k2: int| 0 <= k1 < k2 < kids.len() implies (#[trigger] kids[k1]).name
            != (#[trigger] kids[k2]).name by {
            if k2 < kp.len() {
                assert(kids[k1] == kp[k1] && kids[k2] == kp[k2]);
            } else if kp.len() < kids.len() {
                // the last child is the last entry; an equal name among
                // the earlier children would collide with it in `s`
                assert(kids[k2] == s.last());
                assert(kids[k1] == kp[k1]);
                let i = choose|i: int| 0 <= i < prefix.len() && prefix[i] == kp[k1];
                assert(s[i] == kp[k1]);
                assert(!(s[i].parent == s[s.len() - 1].parent && s[i].name == s[s.len() - 1].name));
            }
        }
    }
}

/// Under uniqueness, the entry recorded for (`parent`, `name`, `c`) is the
/// one `child_of` and `entry_index` denote.
pub proof fn lemma_unique_child_of(s: Seq<EntryV>, parent: u64, name: Seq<char>, c: u64)
    requires
        entries_unique(s),
        has_entry(s, parent, name, c),
    ensures
        occupied(s, parent, name),
        child_of(s, parent, name) == c,
        0 <= entry_index(s, parent, name) < s.len(),
        entry_matches(s[entry_index(s, parent, name)], parent, name),
        s[entry_index(s, parent, name)].child == c,
{
    let i1 = choose|i: int|
        0 <= i < s.len() && entry_matches(#[trigger] s[i], parent, name) && s[i].child == c;
    assert(entry_matches(s[i1], parent, name));
    assert(occupied(s, parent, name));
    let c2 = child_of(s, parent, name);
    assert(has_entry(s, parent, name, c2));
    let i2 = choose|i: int|
        0 <= i < s.len() && entry_matches(#[trigger] s[i], parent, name) && s[i].child == c2;
    let ix = entry_index(s, parent, name);
    assert(0 <= ix < s.len() && entry_matches(s[ix], parent, name));
    if i1 != i2 {
        if i1 < i2 {
            assert(!(s[i1].parent == s[i2].parent && s[i1].name == s[i2].name));
        } else {
            assert(!(s[i2].parent == s[i1].parent && s[i2].name == s[i1].name));
        }
    }
    if ix != i1 {
        if ix < i1 {
            assert(!(s[ix].parent == s[i1].parent && s[ix].name == s[i1].name));
        } else {
            assert(!(s[i1].parent == s[ix].parent && s[i1].name == s[ix].name));
        }
    }
}

/// What taking the unique entry for (`parent`, `name`) out of an entry
/// sequence leaves: one entry fewer, the same bindings elsewhere, the name
/// free again, and both uniqueness invariants kept.
pub proof fn lemma_remove_entry_seq_props(s: Seq<EntryV>, parent: u64, name: Seq<char>)
    requires
        entries_unique(s),
        occupied(s, parent, name),
    ensures
        remove_entry_seq(s, parent, name).len() == s.len() - 1,
        entries_unique(remove_entry_seq(s, parent, name)),
        !occupied(remove_entry_seq(s, parent, name), parent, name),
        forall|p2: u64, n2: Seq<char>|
            #[trigger] occupied(remove_entry_seq(s, parent, name), p2, n2) ==> occupied(s, p2, n2),
        forall|p2: u64, n2: Seq<char>|
            #[trigger] occupied(s, p2, n2) && !(p2 == parent && n2 == name) ==> occupied(
                remove_entry_seq(s, parent, name),
                p2,
                n2,
            ),
        forall|c: u64|
            #[trigger] child_recorded(remove_entry_seq(s, parent, name), c) ==> child_recorded(
                s,
                c,
            ),
        forall|d: u64|
            #[trigger] has_child(remove_entry_seq(s, parent, name), d) ==> has_child(s, d),
        children_distinct(s) ==> children_distinct(remove_entry_seq(s, parent, name)),
        children_distinct(s) ==> !child_recorded(
            remove_entry_seq(s, parent, name),
            child_of(s, parent, name),
        ),
{
    let ix = entry_index(s, parent, name);
    assert(0 <= ix < s.len() && entry_matches(s[ix], parent, name));
    let r = remove_entry_seq(s, parent, name);
    assert(forall|j: int| 0 <= j < ix ==> #[trigger] r[j] == s[j]);
    assert(forall|j: int| ix <= j < r.len() ==> #[trigger] r[j] == s[j + 1]);
    assert forall|p: int, q: int| 0 <= p < q < r.len() implies !((#[trigger] r[p]).parent
        == (#[trigger] r[q]).parent && r[p].name == r[q].name) by {
        let pp = if p < ix {
            p
        } else {
            p + 1
        };
        let qq = if q < ix {
            q
        } else {
            q + 1
        };
        assert(r[p] == s[pp] && r[q] == s[qq]);
    }
    assert forall|j: int| 0 <= j < r.len() implies !entry_matches(
        #[trigger] r[j],
        parent,
        name,
    ) by {
        let jj = if j < ix {
            j
        } else {
            j + 1
        };
        assert(r[j] == s[jj]);
        if jj != ix {
            if jj < ix {
                assert(!(s[jj].parent == s[ix].parent && s[jj].name == s[ix].name));
            } else {
                assert(!(s[ix].parent == s[jj].parent && s[ix].name == s[jj].name));
            }
        }
    }
    assert forall|p2: u64, n2: Seq<char>|
        #[trigger] occupied(s, p2, n2) && !(p2 == parent && n2 == name) implies occupied(
        r,
        p2,
        n2,
    ) by {
        let i = choose|i: int| 0 <= i < s.len() && entry_matches(#[trigger] s[i], parent, name)
            && s[i] == s[i];
        let k = choose|k: int| 0 <= k < s.len() && entry_matches(#[trigger] s[k], p2, n2);
        assert(k != ix);
        let j = if k < ix {
            k
        } else {
            k - 1
        };
        assert(r[j] == s[k]);
        assert(entry_matches(r[j], p2, n2));
    }
    if children_distinct(s) {
        assert forall|p: int, q: int| 0 <= p < q < r.len() implies (#[trigger] r[p]).child != (
        #[trigger] r[q]).child by {
            let pp = if p < ix {
                p
            } else {
                p + 1
            };
            let qq = if q < ix {
                q
            } else {
                q + 1
            };
            assert(r[p] == s[pp] && r[q] == s[qq]);
        }
        assert(has_entry(s, parent, name, s[ix].child));
        let c = child_of(s, parent, name);
        assert(has_entry(s, parent, name, c));
        lemma_unique_child_of(s, parent, name, c);
        assert(s[ix].child == c);
        assert forall|j: int| 0 <= j < r.len() implies (#[trigger] r[j]).child != c by {
            let jj = if j < ix {
                j
            } else {
                j + 1
            };
            assert(r[j] == s[jj]);
            if jj != ix {
                if jj < ix {
                    assert(s[jj].child != s[ix].child);
                } else {
                    assert(s[ix].child != s[jj].child);
                }
            }
        }
    }
}

/// The directory namespace: every (parent, name) -> child binding of the
/// mount, in insertion order.
pub struct Namespace {
    entries: Vec<DirEntry>,
}

impl View for Namespace {
    type V = Seq<EntryV>;

    closed spec fn view(&self) -> Seq<EntryV> {
        view_of_entries(self.entries@)
    }
}

impl Namespace {
    /// One name per parent: no two entries collide.
    pub open spec fn wf(&self) -> bool {
        entries_unique(self@)
    }

    /// An empty namespace.
    pub fn new() -> (r: Namespace)
        ensures
            r@ == Seq::<EntryV>::empty(),
            r.wf(),
    {
        let r = Namespace { entries: Vec::new() };
        proof {
            assert(r@ =~= Seq::<EntryV>::empty());
        }
        r
    }

    /// Exact-match resolution of `name` under `parent`.
    pub fn lookup(&self, parent: u64, name: &str) -> (r: Option<u64>)
        ensures
            match r {
                Some(c) => has_entry(self@, parent, name@, c),
                None => !occupied(self@, parent, name@),
            },
    {
        let name_s: String = name.to_owned();
        let n = self.entries.len();
        let mut i: usize = 0;
        while i < n
            invariant
                0 <= i <= n,
                n == self.entries@.len(),
                name_s@ == name@,
                forall|j: int| 0 <= j < i ==> !entry_matches(self@[j], parent, name@),
            decreases n - i,
        {
            if self.entries[i].parent == parent && self.entries[i].name == name_s {
                proof {
                    assert(entry_matches(self@[i as int], parent, name@));
                }
                return Some(self.entries[i].child);
            }
            i += 1;
        }
        None
    }

    /// Records `name` under `parent` as pointing at `child`; rejects a
    /// name already present under that parent.
    pub fn insert(&mut self, parent: u64, name: &str, child: u64) -> (r: Result<(), FsError>)
        requires
            old(self).wf(),
        ensures
            final(self).wf(),
            occupied(old(self)@, parent, name@) ==> {
                &&& r == Err::<(), FsError>(FsError::AlreadyExists)
                &&& final(self)@ == old(self)@
            },
            !occupied(old(self)@, parent, name@) ==> {
                &&& r == Ok::<(), FsError>(())
                &&& final(self)@ == old(self)@.push(
                    EntryV { parent, name: name@, child },
                )
            },
    {
        match self.lookup(parent, name) {
            Some(_) => Err(FsError::AlreadyExists),
            None => {
                self.entries.push(DirEntry { parent, name: name.to_owned(), child });
                proof {
                    assert(self@ =~= old(self)@.push(EntryV { parent, name: name@, child }));
                }
                Ok(())
            },
        }
    }

    /// Removes the entry for `name` under `parent` and returns the child
    /// it pointed at, or nothing when no such entry exists.
    pub fn remove(&mut self, parent: u64, name: &str) -> (r: Option<u64>)
        requires
            old(self).wf(),
        ensures
            final(self).wf(),
            !occupied(old(self)@, parent, name@) ==> {
                &&& r == None::<u64>
                &&& final(self)@ == old(self)@
            },
            occupied(old(self)@, parent, name@) ==> {
                &&& r == Some(child_of(old(self)@, parent, name@))
                &&& has_entry(old(self)@, parent, name@, child_of(old(self)@, parent, name@))
                &&& final(self)@ == remove_entry_seq(old(self)@, parent, name@)
                &&& !occupied(final(self)@, parent, name@)
            },
    {
        let name_s: String = name.to_owned();
        let n = self.entries.len();
        let mut i: usize = 0;
        while i < n
            invariant
                0 <= i <= n,
                n == self.entries@.len(),
                name_s@ == name@,
                old(self) == self,
                self.wf(),
                forall|j: int| 0 <= j < i ==> !entry_matches(self@[j], parent, name@),
            decreases n - i,
        {
            if self.entries[i].parent == parent && self.entries[i].name == name_s {
                let child = self.entries[i].child;
                proof {
                    assert(entry_matches(self@[i as int], parent, name@));
                    // the match at `i` is the only one, so the chosen
                    // index and child agree with it
                    assert(entry_index(old(self)@, parent, name@) == i as int);
                    assert(has_entry(old(self)@, parent, name@, child));
                    assert(child_of(old(self)@, parent, name@) == child);
                }
                self.entries.remove(i);
                proof {
                    assert(self@ =~= remove_entry_seq(old(self)@, parent, name@));
                    assert forall|p: int, q: int| 0 <= p < q < self@.len() implies !((#[trigger] self@[p]).parent
                        == (#[trigger] self@[q]).parent && self@[p].name == self@[q].name) by {
                        let pp = if p < i as int { p } else { p + 1 };
                        let qq = if q < i as int { q } else { q + 1 };
                        assert(self@[p] == old(self)@[pp]);
                        assert(self@[q] == old(self)@[qq]);
                    }
                    assert forall|j: int| 0 <= j < self@.len() implies !entry_matches(
                        #[trigger] self@[j],
                        parent,
                        name@,
                    ) by {
                        let jj = if j < i as int { j } else { j + 1 };
                        assert(self@[j] == old(self)@[jj]);
                    }
                }
                return Some(child);
            }
            i += 1;
        }
        None
    }

    /// Every entry below `dir`, in insertion order.
    pub fn children_of(&self, dir: u64) -> (r: Vec<DirEntry>)
        ensures
            view_of_entries(r@) == spec_children(self@, dir),
    {
        let n = self.entries.len();
        let mut out: Vec<DirEntry> = Vec::new();
        let mut i: usize = 0;
        proof {
            reveal(Seq::filter);
            assert(self@.take(0) =~= Seq::<EntryV>::empty());
            assert(view_of_entries(out@) =~= spec_children(self@.take(0), dir));
        }
        while i < n
            invariant
                0 <= i <= n,
                n == self.entries@.len(),
                view_of_entries(out@) == spec_children(self@.take(i as int), dir),
            decreases n - i,
        {
            proof {
                assert(self@.take(i + 1).drop_last() =~= self@.take(i as int));
                assert(self@.take(i + 1).last() == self@[i as int]);
                reveal(Seq::filter);
            }
            if self.entries[i].parent == dir {
                let e = DirEntry {
                    parent: self.entries[i].parent,
                    name: self.entries[i].name.clone(),
                    child: self.entries[i].child,
                };
                out.push(e);
                proof {
                    assert(view_of_entries(out@) =~= spec_children(self@.take(i as int), dir).push(
                        self@[i as int],
                    ));
                }
            }
            i += 1;
        }
        proof {
            assert(self@.take(n as int) =~= self@);
        }
        out
    }

    /// Whether `dir` has no entry below it.
    pub fn is_empty(&self, dir: u64) -> (r: bool)
        ensures
            r == !has_child(self@, dir),
    {
        let n = self.entries.len();
        let mut i: usize = 0;
        while i < n
            invariant
                0 <= i <= n,
                n == self.entries@.len(),
                forall|j: int| 0 <= j < i ==> (#[trigger] self@[j]).parent != dir,
            decreases n - i,
        {
            if self.entries[i].parent == dir {
                proof {
                    assert((self@[i as int]).parent == dir);
                }
                return false;
            }
            i += 1;
        }
        true
    }

    /// The parent recorded for `child` by a scan over all entries, or the
    /// root identifier when no entry points at `child`; the root's own
    /// ".." case is covered by that default.
    pub fn parent_of(&self, child: u64) -> (r: u64)
        ensures
            child_recorded(self@, child) ==> recorded_parent_of(self@, child, r),
            !child_recorded(self@, child) ==> r == ROOT_ID,
    {
        let n = self.entries.len();
        let mut i: usize = 0;
        while i < n
            invariant
                0 <= i <= n,
                n == self.entries@.len(),
                forall|j: int| 0 <= j < i ==> (#[trigger] self@[j]).child != child,
            decreases n - i,
        {
            if self.entries[i].child == child {
                proof {
                    assert((self@[i as int]).child == child && (self@[i as int]).parent
                        == self.entries@[i as int].parent);
                }
                return self.entries[i].parent;
            }
            i += 1;
        }
        ROOT_ID
    }
}

} // verus!
