//! The filesystem engine: the inode table, the directory namespace and the
//! file content store held together behind the ten request-dispatch
//! operations a kernel filesystem bridge invokes, one atomic transition per
//! request.

use vstd::prelude::*;

use crate::attr::FileAttr;
use crate::attr::FileKind;
use crate::attr::FsError;
use crate::attr::ROOT_ID;
use crate::attr::SetattrRequest;
use crate::attr::blocks_for;
use crate::attr::make_file_attr;
use crate::attr::make_root_attr;
use crate::attr::resolve_time;
use crate::attr::spec_apply_setattr;
use crate::attr::spec_blocks_for;
use crate::attr::spec_file_attr;
use crate::attr::spec_root_attr;
use crate::content::spec_read_bytes;
use crate::content::spec_resize_bytes;
use crate::content::spec_write_bytes;
use crate::content::ContentStore;
use crate::inode::InodeTable;
use crate::namespace::EntryV;
use crate::namespace::Namespace;
use crate::namespace::child_of;
use crate::namespace::child_recorded;
use crate::namespace::children_distinct;
use crate::namespace::entries_unique;
use crate::namespace::entry_matches;
use crate::namespace::has_child;
use crate::namespace::has_entry;
use crate::namespace::lemma_children_membership;
use crate::namespace::lemma_children_unique_names;
use crate::namespace::lemma_remove_entry_seq_props;
use crate::namespace::lemma_unique_child_of;
use crate::namespace::recorded_parent_of;
use crate::namespace::spec_children;
use crate::namespace::view_of_entries;
use crate::namespace::occupied;
use crate::namespace::remove_entry_seq;

verus! {

/// The mathematical image of the whole engine: the allocation counter, the
/// owning user and group, and the contents of the three stores.
#[verifier::ext_equal]
pub ghost struct FsView {
    pub counter: u64,
    pub uid: u32,
    pub gid: u32,
    pub inodes: Map<u64, FileAttr>,
    pub entries: Seq<EntryV>,
    pub data: Map<u64, Seq<u8>>,
}

/// The engine invariant, kept by construction and by every operation:
/// the root directory is live; every live identifier lies below the
/// counter and its record names itself; names are unique per parent and
/// every object is reachable along exactly one name; every entry points at
/// a live, non-root object; exactly the regular files have a content
/// buffer; and every buffer's length equals its record's size.
pub open spec fn fs_wf(v: FsView) -> bool {
    &&& v.counter > ROOT_ID
    &&& v.inodes.contains_key(ROOT_ID)
    &&& v.inodes[ROOT_ID].kind == FileKind::Directory
    &&& forall|k: u64|
        #[trigger] v.inodes.contains_key(k) ==> 1 <= k < v.counter && v.inodes[k].ino == k
    &&& entries_unique(v.entries)
    &&& children_distinct(v.entries)
    &&& forall|i: int|
        0 <= i < v.entries.len() ==> v.inodes.contains_key((#[trigger] v.entries[i]).child)
            && v.entries[i].child != ROOT_ID
    &&& forall|k: u64|
        #[trigger] v.data.contains_key(k) ==> v.inodes.contains_key(k) && v.inodes[k].kind
            == FileKind::RegularFile
    &&& forall|k: u64|
        #[trigger] v.inodes.contains_key(k) && v.inodes[k].kind == FileKind::RegularFile
            ==> v.data.contains_key(k)
    &&& forall|k: u64| #[trigger] v.data.contains_key(k) ==> v.data[k].len() == v.inodes[k].size
    &&& forall|k: u64|
        #[trigger] v.inodes.contains_key(k) ==> v.inodes[k].blocks as int == spec_blocks_for(
            v.inodes[k].size,
        )
}

/// The engine state at mount start: only the root directory, no entries,
/// no content, the counter one past the root identifier.
pub open spec fn spec_new_fs(uid: u32, gid: u32, now: u64) -> FsView {
    FsView {
        counter: (ROOT_ID + 1) as u64,
        uid,
        gid,
        inodes: Map::<u64, FileAttr>::empty().insert(ROOT_ID, spec_root_attr(uid, gid, now)),
        entries: Seq::<EntryV>::empty(),
        data: Map::<u64, Seq<u8>>::empty(),
    }
}

/// The view of an optional request name: nothing when the kernel-supplied
/// name is not representable as text.
pub open spec fn name_view(name: Option<&str>) -> Option<Seq<char>> {
    match name {
        Some(s) => Some(s@),
        None => None,
    }
}

/// The state after attributes, entry and (for a regular file) an empty
/// content buffer are inserted for a fresh object, as one logical step.
pub open spec fn spec_add_entry(v: FsView, parent: u64, name: Seq<char>, attr: FileAttr) -> FsView {
    FsView {
        inodes: v.inodes.insert(attr.ino, attr),
        entries: v.entries.push(EntryV { parent, name, child: attr.ino }),
        data: if attr.kind == FileKind::RegularFile {
            v.data.insert(attr.ino, Seq::<u8>::empty())
        } else {
            v.data
        },
        ..v
    }
}

/// The state after the entry for (`parent`, `name`), the attributes of the
/// child it pointed at, and any content buffer of that child are removed,
/// as one logical step.
pub open spec fn spec_remove_entry(v: FsView, parent: u64, name: Seq<char>) -> FsView {
    let c = child_of(v.entries, parent, name);
    FsView {
        inodes: v.inodes.remove(c),
        entries: remove_entry_seq(v.entries, parent, name),
        data: v.data.remove(c),
        ..v
    }
}

/// The in-memory filesystem engine: all state of one mount.
pub struct VylFs {
    uid: u32,
    gid: u32,
    inodes: InodeTable,
    entries: Namespace,
    file_data: ContentStore,
}

impl View for VylFs {
    type V = FsView;

    closed spec fn view(&self) -> FsView {
        FsView {
            counter: self.inodes.spec_counter(),
            uid: self.uid,
            gid: self.gid,
            inodes: self.inodes@,
            entries: self.entries@,
            data: self.file_data@,
        }
    }
}

impl VylFs {
    /// The engine invariant.
    pub open spec fn wf(&self) -> bool {
        fs_wf(self@)
    }

    /// A fresh engine: empty except for the root directory record, owned
    /// by the given effective user and group, created at `now`.
    pub fn new(uid: u32, gid: u32, now: u64) -> (r: VylFs)
        ensures
            r.wf(),
            r@ == spec_new_fs(uid, gid, now),
    {
        let root = make_root_attr(uid, gid, now);
        let r = VylFs {
            uid,
            gid,
            inodes: InodeTable::new(root),
            entries: Namespace::new(),
            file_data: ContentStore::new(),
        };
        proof {
            assert(r@ =~= spec_new_fs(uid, gid, now));
        }
        r
    }

    /// Whether the identifier counter has room for one more object, as
    /// `create` and `mkdir` demand.
    pub fn can_allocate(&self) -> (r: bool)
        ensures
            r == (self@.counter < u64::MAX),
    {
        self.inodes.can_allocate()
    }

    /// The validity duration, in seconds, the dispatcher attaches to every
    /// attribute and entry reply: a cache-lifetime hint for the kernel.
    pub fn ttl_secs(&self) -> (r: u64)
        ensures
            r == 1,
    {
        1
    }

    /// Inserts the attribute record of a freshly allocated object and the
    /// entry making it reachable — plus an empty content buffer when the
    /// object is a regular file — as one logical step; rejects a name
    /// already present under that parent.
    pub fn add_entry(&mut self, parent: u64, name: &str, attr: FileAttr) -> (r: Result<
        (),
        FsError,
    >)
        requires
            old(self).wf(),
            1 <= attr.ino < old(self)@.counter,
            !old(self)@.inodes.contains_key(attr.ino),
            attr.kind == FileKind::RegularFile ==> attr.size == 0,
            attr.blocks as int == spec_blocks_for(attr.size),
        ensures
            final(self).wf(),
            occupied(old(self)@.entries, parent, name@) ==> {
                &&& r == Err::<(), FsError>(FsError::AlreadyExists)
                &&& final(self)@ == old(self)@
            },
            !occupied(old(self)@.entries, parent, name@) ==> {
                &&& r == Ok::<(), FsError>(())
                &&& final(self)@ == spec_add_entry(old(self)@, parent, name@, attr)
            },
    {
        match self.entries.insert(parent, name, attr.ino) {
            Err(e) => Err(e),
            Ok(()) => {
                self.inodes.insert(attr);
                let is_file = match attr.kind {
                    FileKind::RegularFile => true,
                    FileKind::Directory => false,
                };
                if is_file {
                    self.file_data.insert_empty(attr.ino);
                }
                proof {
                    let v0 = old(self)@;
                    let v1 = self@;
                    assert(v1 =~= spec_add_entry(v0, parent, name@, attr));
                    // every old entry points at a live object, so none
                    // points at the fresh identifier
                    assert forall|i: int, j: int| 0 <= i < j < v1.entries.len() implies (
                    #[trigger] v1.entries[i]).child != (#[trigger] v1.entries[j]).child by {
                        if j == v1.entries.len() - 1 {
                            assert(v0.inodes.contains_key(v0.entries[i].child));
                        }
                    }
                    assert(fs_wf(v1));
                }
                Ok(())
            },
        }
    }

    /// Removes the entry for (`parent`, `name`), the attribute record of
    /// the child it points at, and any content the child has, as one
    /// logical step.
    pub fn remove_entry(&mut self, ino: u64, parent: u64, name: &str)
        requires
            old(self).wf(),
            has_entry(old(self)@.entries, parent, name@, ino),
            ino != ROOT_ID,
        ensures
            final(self).wf(),
            final(self)@ == spec_remove_entry(old(self)@, parent, name@),
            !occupied(final(self)@.entries, parent, name@),
    {
        proof {
            lemma_unique_child_of(old(self)@.entries, parent, name@, ino);
            lemma_remove_entry_seq_props(old(self)@.entries, parent, name@);
        }
        let removed = self.entries.remove(parent, name);
        self.inodes.remove(ino);
        self.file_data.remove(ino);
        proof {
            let v0 = old(self)@;
            let v1 = self@;
            assert(v1 =~= spec_remove_entry(v0, parent, name@));
            let s1 = v1.entries;
            let s0 = v0.entries;
            let ix = crate::namespace::entry_index(s0, parent, name@);
            assert forall|i: int| 0 <= i < s1.len() implies v1.inodes.contains_key(
                (#[trigger] s1[i]).child,
            ) && s1[i].child != ROOT_ID by {
                let ii = if i < ix {
                    i
                } else {
                    i + 1
                };
                assert(s1[i] == s0[ii]);
                assert(v0.inodes.contains_key(s0[ii].child));
                assert(!child_recorded(s1, ino));
                assert(s1[i].child != ino);
            }
            assert(fs_wf(v1));
        }
    }

    /// Exact-match name resolution: the attribute record of the child
    /// `name` denotes under `parent`.
    pub fn lookup(&self, parent: u64, name: Option<&str>) -> (r: Result<FileAttr, FsError>)
        requires
            self.wf(),
        ensures
            r == spec_lookup_op(self@, parent, name_view(name)),
    {
        let name_s = match name {
            Some(s) => s,
            None => {
                return Err(FsError::InvalidName);
            },
        };
        match self.entries.lookup(parent, name_s) {
            Some(child) => {
                proof {
                    lemma_unique_child_of(self@.entries, parent, name_s@, child);
                }
                match self.inodes.get(child) {
                    Some(attr) => Ok(attr),
                    None => Err(FsError::NotFound),
                }
            },
            None => Err(FsError::NotFound),
        }
    }

    /// The attribute record of `ino`.
    pub fn getattr(&self, ino: u64) -> (r: Result<FileAttr, FsError>)
        ensures
            self@.inodes.contains_key(ino) ==> r == Ok::<FileAttr, FsError>(self@.inodes[ino]),
            !self@.inodes.contains_key(ino) ==> r == Err::<FileAttr, FsError>(FsError::NotFound),
    {
        match self.inodes.get(ino) {
            Some(attr) => Ok(attr),
            None => Err(FsError::NotFound),
        }
    }
}

impl VylFs {
    /// Creates a regular file named `name` under `parent`: a fresh
    /// identifier, empty attributes built from `mode` and `now`, the entry
    /// and an empty content buffer, inserted as one logical step.
    pub fn create(&mut self, parent: u64, name: Option<&str>, mode: u32, now: u64) -> (r: Result<
        FileAttr,
        FsError,
    >)
        requires
            old(self).wf(),
            old(self)@.counter < u64::MAX,
        ensures
            final(self).wf(),
            (final(self)@, r) == spec_create(old(self)@, parent, name_view(name), mode, now),
    {
        let name_s = match name {
            Some(s) => s,
            None => {
                return Err(FsError::InvalidName);
            },
        };
        match self.entries.lookup(parent, name_s) {
            Some(c) => {
                proof {
                    lemma_unique_child_of(self@.entries, parent, name_s@, c);
                }
                Err(FsError::AlreadyExists)
            },
            None => {
                let ino = self.inodes.allocate();
                proof {
                    assert forall|k: u64| #[trigger] self@.inodes.contains_key(k) implies 1 <= k
                        < self@.counter && self@.inodes[k].ino == k by {
                        assert(old(self)@.inodes.contains_key(k));
                    }
                    assert(fs_wf(self@));
                }
                let attr = make_file_attr(ino, mode, self.uid, self.gid, now);
                let res = self.add_entry(parent, name_s, attr);
                proof {
                    assert(res == Ok::<(), FsError>(()));
                    assert(final(self)@ =~= spec_create(
                        old(self)@,
                        parent,
                        name_view(name),
                        mode,
                        now,
                    ).0);
                }
                Ok(attr)
            },
        }
    }

    /// Creates a directory named `name` under `parent`: a fresh
    /// identifier, directory attributes built from `mode` and `now`, and
    /// the entry, inserted as one logical step.
    pub fn mkdir(&mut self, parent: u64, name: Option<&str>, mode: u32, now: u64) -> (r: Result<
        FileAttr,
        FsError,
    >)
        requires
            old(self).wf(),
            old(self)@.counter < u64::MAX,
        ensures
            final(self).wf(),
            (final(self)@, r) == spec_mkdir(old(self)@, parent, name_view(name), mode, now),
    {
        let name_s = match name {
            Some(s) => s,
            None => {
                return Err(FsError::InvalidName);
            },
        };
        match self.entries.lookup(parent, name_s) {
            Some(c) => {
                proof {
                    lemma_unique_child_of(self@.entries, parent, name_s@, c);
                }
                Err(FsError::AlreadyExists)
            },
            None => {
                let ino = self.inodes.allocate();
                proof {
                    assert forall|k: u64| #[trigger] self@.inodes.contains_key(k) implies 1 <= k
                        < self@.counter && self@.inodes[k].ino == k by {
                        assert(old(self)@.inodes.contains_key(k));
                    }
                    assert(fs_wf(self@));
                }
                let attr = crate::attr::make_dir_attr(ino, mode, self.uid, self.gid, now);
                let res = self.add_entry(parent, name_s, attr);
                proof {
                    assert(res == Ok::<(), FsError>(()));
                    assert(final(self)@ =~= spec_mkdir(
                        old(self)@,
                        parent,
                        name_view(name),
                        mode,
                        now,
                    ).0);
                }
                Ok(attr)
            },
        }
    }

    /// Removes the object `name` denotes under `parent`: entry, attributes
    /// and any content go together, unconditionally — the link count is
    /// not consulted.
    pub fn unlink(&mut self, parent: u64, name: Option<&str>) -> (r: Result<(), FsError>)
        requires
            old(self).wf(),
        ensures
            final(self).wf(),
            (final(self)@, r) == spec_unlink(old(self)@, parent, name_view(name)),
    {
        let name_s = match name {
            Some(s) => s,
            None => {
                return Err(FsError::InvalidName);
            },
        };
        match self.entries.lookup(parent, name_s) {
            None => Err(FsError::NotFound),
            Some(child) => {
                proof {
                    lemma_unique_child_of(self@.entries, parent, name_s@, child);
                    let ix = crate::namespace::entry_index(self@.entries, parent, name_s@);
                    assert((self@.entries[ix]).child != ROOT_ID);
                }
                self.remove_entry(child, parent, name_s);
                Ok(())
            },
        }
    }

    /// Removes the directory `name` denotes under `parent`, only when it
    /// is a directory and has no child at all; a non-empty directory is
    /// refused whole, with no state touched.
    pub fn rmdir(&mut self, parent: u64, name: Option<&str>) -> (r: Result<(), FsError>)
        requires
            old(self).wf(),
        ensures
            final(self).wf(),
            (final(self)@, r) == spec_rmdir(old(self)@, parent, name_view(name)),
    {
        let name_s = match name {
            Some(s) => s,
            None => {
                return Err(FsError::InvalidName);
            },
        };
        let child = match self.entries.lookup(parent, name_s) {
            None => {
                return Err(FsError::NotFound);
            },
            Some(c) => c,
        };
        proof {
            lemma_unique_child_of(self@.entries, parent, name_s@, child);
            let ix = crate::namespace::entry_index(self@.entries, parent, name_s@);
            assert((self@.entries[ix]).child != ROOT_ID);
        }
        let attr = match self.inodes.get(child) {
            None => {
                return Err(FsError::NotFound);
            },
            Some(a) => a,
        };
        let is_dir = match attr.kind {
            FileKind::Directory => true,
            FileKind::RegularFile => false,
        };
        if !is_dir {
            return Err(FsError::NotADirectory);
        }
        if !self.entries.is_empty(child) {
            return Err(FsError::DirectoryNotEmpty);
        }
        self.remove_entry(child, parent, name_s);
        Ok(())
    }
}

impl VylFs {
    /// Applies a mutate-attributes request to `ino`: only the fields
    /// present change; a size change resizes the content buffer to match,
    /// truncating or zero-filling, and recomputes the block count.
    pub fn setattr(&mut self, ino: u64, req: SetattrRequest, now: u64) -> (r: Result<
        FileAttr,
        FsError,
    >)
        requires
            old(self).wf(),
            req.size matches Some(s) ==> s <= usize::MAX as u64,
        ensures
            final(self).wf(),
            (final(self)@, r) == spec_setattr(old(self)@, ino, req, now),
    {
        let attr0 = match self.inodes.get(ino) {
            None => {
                return Err(FsError::NotFound);
            },
            Some(a) => a,
        };
        let mut attr = attr0;
        if let Some(m) = req.mode {
            attr.perm = (m & 0xFFFF) as u16;
        }
        if let Some(u) = req.uid {
            attr.uid = u;
        }
        if let Some(g) = req.gid {
            attr.gid = g;
        }
        if let Some(s) = req.size {
            attr.size = s;
            attr.blocks = blocks_for(s);
            if self.file_data.contains(ino) {
                let resized = self.file_data.resize(ino, s as usize);
                proof {
                    assert(resized == Ok::<(), FsError>(()));
                }
            }
        }
        if let Some(t) = req.atime {
            attr.atime = resolve_time(t, now);
        }
        if let Some(t) = req.mtime {
            attr.mtime = resolve_time(t, now);
        }
        if let Some(t) = req.crtime {
            attr.crtime = t;
        }
        if let Some(t) = req.chgtime {
            attr.ctime = t;
        }
        if let Some(f) = req.flags {
            attr.flags = f;
        }
        self.inodes.insert(attr);
        proof {
            assert(attr == spec_apply_setattr(attr0, req, now));
            assert(final(self)@ =~= spec_setattr(old(self)@, ino, req, now).0);
        }
        Ok(attr)
    }

    /// Reads up to `len` bytes at `offset` from the content of `ino`,
    /// clamped to the stored length; an offset past the end yields an
    /// empty reply, never an error.
    pub fn read(&self, ino: u64, offset: usize, len: u32) -> (r: Result<Vec<u8>, FsError>)
        ensures
            self@.data.contains_key(ino) ==> (r matches Ok(bytes) && bytes@ == spec_read_bytes(
                self@.data[ino],
                offset as int,
                len as int,
            )),
            !self@.data.contains_key(ino) ==> r == Err::<Vec<u8>, FsError>(FsError::NotFound),
    {
        self.file_data.read(ino, offset, len)
    }

    /// Writes `data` at `offset` into the content of `ino`, zero-filling
    /// any gap past the previous end; on success all bytes are written,
    /// and the attribute record's size, block count and modification time
    /// are brought up to date in the same step.
    pub fn write(&mut self, ino: u64, offset: usize, data: &[u8], now: u64) -> (r: Result<
        u32,
        FsError,
    >)
        requires
            old(self).wf(),
            offset + data@.len() <= usize::MAX,
            data@.len() <= u32::MAX,
        ensures
            final(self).wf(),
            (final(self)@, r) == spec_write_op(old(self)@, ino, offset as int, data@, now),
            old(self)@.data.contains_key(ino) ==> {
                &&& final(self)@.inodes[ino].size == final(self)@.data[ino].len()
                &&& final(self)@.inodes[ino].blocks as int == spec_blocks_for(
                    final(self)@.inodes[ino].size,
                )
            },
    {
        let ghost v0 = old(self)@;
        match self.file_data.write(ino, offset, data) {
            Err(e) => Err(e),
            Ok(_written) => {
                proof {
                    assert(v0.data.contains_key(ino));
                    assert(self.file_data@.contains_key(ino));
                }
                let new_len: usize = match self.file_data.size_of(ino) {
                    Ok(l) => l,
                    Err(_) => 0,
                };
                proof {
                    assert(v0.data.contains_key(ino));
                    assert(old(self)@.inodes.contains_key(ino));
                }
                let attr0 = match self.inodes.get(ino) {
                    Some(a) => a,
                    None => {
                        return Err(FsError::NotFound);
                    },
                };
                let mut attr = attr0;
                attr.size = new_len as u64;
                attr.blocks = blocks_for(new_len as u64);
                attr.mtime = now;
                self.inodes.insert(attr);
                proof {
                    let buf = spec_write_bytes(v0.data[ino], offset as int, data@);
                    assert(new_len == buf.len());
                    let target = FileAttr {
                        size: buf.len() as u64,
                        blocks: spec_blocks_for(buf.len() as u64) as u64,
                        mtime: now,
                        ..v0.inodes[ino]
                    };
                    assert(attr == target);
                    assert(final(self)@.inodes =~= v0.inodes.insert(ino, target));
                    assert(final(self)@ =~= spec_write_op(
                        old(self)@,
                        ino,
                        offset as int,
                        data@,
                        now,
                    ).0);
                }
                Ok(data.len() as u32)
            },
        }
    }
}

/// The outcome of `setattr` for each state and request: the record with
/// exactly the requested fields changed, the content buffer resized to any
/// requested size, or `NotFound` with the state untouched.
pub open spec fn spec_setattr(v: FsView, ino: u64, req: SetattrRequest, now: u64) -> (
    FsView,
    Result<FileAttr, FsError>,
) {
    if !v.inodes.contains_key(ino) {
        (v, Err(FsError::NotFound))
    } else {
        let attr = spec_apply_setattr(v.inodes[ino], req, now);
        let data = match req.size {
            Some(s) => if v.data.contains_key(ino) {
                v.data.insert(ino, spec_resize_bytes(v.data[ino], s as int))
            } else {
                v.data
            },
            None => v.data,
        };
        (FsView { inodes: v.inodes.insert(ino, attr), data, ..v }, Ok(attr))
    }
}

/// The outcome of `write` for each state and request: the buffer after
/// the write, the record with its size equal to the new buffer length, the
/// block count recomputed and the modification time set to `now`, and the
/// full byte count reported; or `NotFound` with the state untouched.
pub open spec fn spec_write_op(v: FsView, ino: u64, offset: int, data: Seq<u8>, now: u64) -> (
    FsView,
    Result<u32, FsError>,
) {
    if !v.data.contains_key(ino) {
        (v, Err(FsError::NotFound))
    } else {
        let buf = spec_write_bytes(v.data[ino], offset, data);
        let attr0 = v.inodes[ino];
        let attr = FileAttr {
            size: buf.len() as u64,
            blocks: spec_blocks_for(buf.len() as u64) as u64,
            mtime: now,
            ..attr0
        };
        (
            FsView { inodes: v.inodes.insert(ino, attr), data: v.data.insert(ino, buf), ..v },
            Ok(data.len() as u32),
        )
    }
}

/// The outcome of `create` for each state and request: `InvalidName` for
/// an unrepresentable name, `AlreadyExists` for an occupied one — the
/// state untouched either way — and otherwise the next free identifier
/// carrying fresh regular-file attributes, reachable under the name, with
/// an empty buffer.
pub open spec fn spec_create(
    v: FsView,
    parent: u64,
    name: Option<Seq<char>>,
    mode: u32,
    now: u64,
) -> (FsView, Result<FileAttr, FsError>) {
    match name {
        None => (v, Err(FsError::InvalidName)),
        Some(n) => {
            if occupied(v.entries, parent, n) {
                (v, Err(FsError::AlreadyExists))
            } else {
                let attr = spec_file_attr(v.counter, mode, v.uid, v.gid, now);
                let bumped = FsView { counter: (v.counter + 1) as u64, ..v };
                (spec_add_entry(bumped, parent, n, attr), Ok(attr))
            }
        },
    }
}

/// The outcome of `mkdir` for each state and request, exactly as for
/// `create` but with directory attributes and no content buffer.
pub open spec fn spec_mkdir(
    v: FsView,
    parent: u64,
    name: Option<Seq<char>>,
    mode: u32,
    now: u64,
) -> (FsView, Result<FileAttr, FsError>) {
    match name {
        None => (v, Err(FsError::InvalidName)),
        Some(n) => {
            if occupied(v.entries, parent, n) {
                (v, Err(FsError::AlreadyExists))
            } else {
                let attr = crate::attr::spec_dir_attr(v.counter, mode, v.uid, v.gid, now);
                let bumped = FsView { counter: (v.counter + 1) as u64, ..v };
                (spec_add_entry(bumped, parent, n, attr), Ok(attr))
            }
        },
    }
}

/// The outcome of `unlink` for each state and request: entry, attributes
/// and content of the named object removed together, or the precise error
/// with the state untouched.
pub open spec fn spec_unlink(v: FsView, parent: u64, name: Option<Seq<char>>) -> (
    FsView,
    Result<(), FsError>,
) {
    match name {
        None => (v, Err(FsError::InvalidName)),
        Some(n) => {
            if !occupied(v.entries, parent, n) {
                (v, Err(FsError::NotFound))
            } else {
                (spec_remove_entry(v, parent, n), Ok(()))
            }
        },
    }
}

/// The outcome of `rmdir` for each state and request: the named directory
/// removed only when it is live, a directory, and childless; otherwise the
/// precise error with the state untouched.
pub open spec fn spec_rmdir(v: FsView, parent: u64, name: Option<Seq<char>>) -> (
    FsView,
    Result<(), FsError>,
) {
    match name {
        None => (v, Err(FsError::InvalidName)),
        Some(n) => {
            if !occupied(v.entries, parent, n) {
                (v, Err(FsError::NotFound))
            } else {
                let c = child_of(v.entries, parent, n);
                if !v.inodes.contains_key(c) {
                    (v, Err(FsError::NotFound))
                } else if v.inodes[c].kind != FileKind::Directory {
                    (v, Err(FsError::NotADirectory))
                } else if has_child(v.entries, c) {
                    (v, Err(FsError::DirectoryNotEmpty))
                } else {
                    (spec_remove_entry(v, parent, n), Ok(()))
                }
            }
        },
    }
}

/// Read/write round trip: after a successful write of `data` at `offset`
/// into a regular file, a read of `data.len()` bytes at the same offset
/// returns exactly `data`.
pub proof fn lemma_engine_round_trip(v: FsView, ino: u64, offset: int, data: Seq<u8>, now: u64)
    requires
        0 <= offset,
        v.data.contains_key(ino),
    ensures
        ({
            let v1 = spec_write_op(v, ino, offset, data, now).0;
            &&& spec_write_op(v, ino, offset, data, now).1 is Ok
            &&& v1.data.contains_key(ino)
            &&& spec_read_bytes(v1.data[ino], offset, data.len() as int) == data
        }),
{
    crate::content::lemma_write_read_round_trip(v.data[ino], offset, data);
}

/// Sparse extension: a write entirely past the current end of a file
/// zero-fills the gap, and a read of the gap region afterwards returns
/// only zero bytes.
pub proof fn lemma_engine_sparse_extension(
    v: FsView,
    ino: u64,
    offset: int,
    data: Seq<u8>,
    now: u64,
)
    requires
        v.data.contains_key(ino),
        v.data[ino].len() <= offset,
    ensures
        ({
            let gap = offset - v.data[ino].len();
            let v1 = spec_write_op(v, ino, offset, data, now).0;
            &&& v1.data.contains_key(ino)
            &&& spec_read_bytes(v1.data[ino], v.data[ino].len() as int, gap) == Seq::new(
                gap as nat,
                |i: int| 0u8,
            )
        }),
{
    crate::content::lemma_sparse_extension(v.data[ino], offset, data);
}

/// Uniqueness: once `create` or `mkdir` succeeds for (`parent`, `name`),
/// any further `create` or `mkdir` for the same pair fails with
/// `AlreadyExists` and leaves the state untouched.
pub proof fn lemma_uniqueness_after_create(
    v: FsView,
    parent: u64,
    name: Seq<char>,
    mode: u32,
    now: u64,
    mode2: u32,
    now2: u64,
)
    requires
        spec_create(v, parent, Some(name), mode, now).1 is Ok || spec_mkdir(
            v,
            parent,
            Some(name),
            mode,
            now,
        ).1 is Ok,
    ensures
        ({
            let mid = if spec_create(v, parent, Some(name), mode, now).1 is Ok {
                spec_create(v, parent, Some(name), mode, now).0
            } else {
                spec_mkdir(v, parent, Some(name), mode, now).0
            };
            &&& spec_create(mid, parent, Some(name), mode2, now2) == (
                mid,
                Err::<FileAttr, FsError>(FsError::AlreadyExists),
            )
            &&& spec_mkdir(mid, parent, Some(name), mode2, now2) == (
                mid,
                Err::<FileAttr, FsError>(FsError::AlreadyExists),
            )
        }),
{
    let mid = if spec_create(v, parent, Some(name), mode, now).1 is Ok {
        spec_create(v, parent, Some(name), mode, now).0
    } else {
        spec_mkdir(v, parent, Some(name), mode, now).0
    };
    let last = mid.entries.len() - 1;
    assert(entry_matches(mid.entries[last], parent, name));
    assert(occupied(mid.entries, parent, name));
}

/// Uniqueness, released: once `unlink` or `rmdir` succeeds for
/// (`parent`, `name`), the name is free again under that parent, so a
/// following `create` or `mkdir` for it succeeds rather than failing with
/// `AlreadyExists`.
pub proof fn lemma_removal_frees_name(
    v: FsView,
    parent: u64,
    name: Seq<char>,
    mode2: u32,
    now2: u64,
)
    requires
        fs_wf(v),
        spec_unlink(v, parent, Some(name)).1 is Ok || spec_rmdir(v, parent, Some(name)).1 is Ok,
    ensures
        ({
            let mid = if spec_unlink(v, parent, Some(name)).1 is Ok {
                spec_unlink(v, parent, Some(name)).0
            } else {
                spec_rmdir(v, parent, Some(name)).0
            };
            &&& !occupied(mid.entries, parent, name)
            &&& spec_create(mid, parent, Some(name), mode2, now2).1 is Ok
            &&& spec_mkdir(mid, parent, Some(name), mode2, now2).1 is Ok
        }),
{
    lemma_remove_entry_seq_props(v.entries, parent, name);
}

/// Directory emptiness guard: `rmdir` on a directory that still has at
/// least one child always fails with `DirectoryNotEmpty`, and removes
/// nothing at all.
pub proof fn lemma_rmdir_emptiness_guard(v: FsView, parent: u64, name: Seq<char>)
    requires
        fs_wf(v),
        occupied(v.entries, parent, name),
        v.inodes[child_of(v.entries, parent, name)].kind == FileKind::Directory,
        has_child(v.entries, child_of(v.entries, parent, name)),
    ensures
        spec_rmdir(v, parent, Some(name)) == (v, Err::<(), FsError>(FsError::DirectoryNotEmpty)),
{
    let ix = choose|i: int|
        0 <= i < v.entries.len() && entry_matches(#[trigger] v.entries[i], parent, name);
    assert(has_entry(v.entries, parent, name, v.entries[ix].child));
    lemma_unique_child_of(v.entries, parent, name, v.entries[ix].child);
    assert(v.inodes.contains_key(child_of(v.entries, parent, name)));
}

/// One row of a directory-listing reply: the identifier, kind and name of
/// one object, and the pagination cookie a resumed listing hands back to
/// continue right after this row.
#[derive(Debug)]
pub struct ListingEntry {
    pub ino: u64,
    pub kind: FileKind,
    pub name: String,
    pub cookie: u64,
}

/// The mathematical image of one listing row, without its cookie: the
/// cookie is fixed by the row's position alone.
#[verifier::ext_equal]
pub ghost struct ListItemV {
    pub ino: u64,
    pub kind: FileKind,
    pub name: Seq<char>,
}

/// The parent the listing reports for `dir` in its ".." row: the recorded
/// parent, or the root identifier for the root itself and for any object
/// no entry points at.
pub open spec fn spec_parent_of(s: Seq<EntryV>, dir: u64) -> u64 {
    if dir == ROOT_ID {
        ROOT_ID
    } else if child_recorded(s, dir) {
        choose|p: u64| recorded_parent_of(s, dir, p)
    } else {
        ROOT_ID
    }
}

/// The full listing of `dir`, rebuilt on every call: ".", then "..", then
/// every child in insertion order, each resolved to its attribute kind.
pub open spec fn spec_listing(v: FsView, dir: u64) -> Seq<ListItemV> {
    seq![
        ListItemV { ino: dir, kind: FileKind::Directory, name: "."@ },
        ListItemV { ino: spec_parent_of(v.entries, dir), kind: FileKind::Directory, name: ".."@ },
    ] + spec_children(v.entries, dir).map_values(
        |e: EntryV| ListItemV { ino: e.child, kind: v.inodes[e.child].kind, name: e.name },
    )
}

impl VylFs {
    /// Lists `dir` from position `offset` of its freshly rebuilt listing
    /// to the end: each row carries the cookie to resume right after it.
    pub fn readdir(&self, dir: u64, offset: usize) -> (r: Result<Vec<ListingEntry>, FsError>)
        requires
            self.wf(),
        ensures
            !self@.inodes.contains_key(dir) ==> r == Err::<Vec<ListingEntry>, FsError>(
                FsError::NotFound,
            ),
            self@.inodes.contains_key(dir) && self@.inodes[dir].kind != FileKind::Directory ==> r
                == Err::<Vec<ListingEntry>, FsError>(FsError::NotADirectory),
            self@.inodes.contains_key(dir) && self@.inodes[dir].kind == FileKind::Directory ==> (
            r matches Ok(rows) && {
                let l = spec_listing(self@, dir);
                &&& rows@.len() == if offset <= l.len() {
                    l.len() - offset
                } else {
                    0int
                }
                &&& forall|j: int|
                    0 <= j < rows@.len() ==> {
                        &&& (#[trigger] rows@[j]).ino == l[offset + j].ino
                        &&& rows@[j].kind == l[offset + j].kind
                        &&& rows@[j].name@ == l[offset + j].name
                        &&& rows@[j].cookie == offset + j + 1
                    }
            }),
    {
        let dir_attr = match self.inodes.get(dir) {
            None => {
                return Err(FsError::NotFound);
            },
            Some(a) => a,
        };
        let is_dir = match dir_attr.kind {
            FileKind::Directory => true,
            FileKind::RegularFile => false,
        };
        if !is_dir {
            return Err(FsError::NotADirectory);
        }
        let parent_ino = if dir == ROOT_ID {
            ROOT_ID
        } else {
            self.entries.parent_of(dir)
        };
        proof {
            if dir != ROOT_ID && child_recorded(self@.entries, dir) {
                let s = self@.entries;
                let p2 = choose|p: u64| recorded_parent_of(s, dir, p);
                let i1 = choose|i: int|
                    0 <= i < s.len() && (#[trigger] s[i]).child == dir && s[i].parent == parent_ino;
                let i2 = choose|i: int|
                    0 <= i < s.len() && (#[trigger] s[i]).child == dir && s[i].parent == p2;
                if i1 != i2 {
                    if i1 < i2 {
                        assert(s[i1].child != s[i2].child);
                    } else {
                        assert(s[i2].child != s[i1].child);
                    }
                }
            }
            assert(parent_ino == spec_parent_of(self@.entries, dir));
        }
        let ghost l = spec_listing(self@, dir);
        let mut full: Vec<ListingEntry> = Vec::new();
        full.push(
            ListingEntry { ino: dir, kind: FileKind::Directory, name: ".".to_owned(), cookie: 0 },
        );
        full.push(
            ListingEntry {
                ino: parent_ino,
                kind: FileKind::Directory,
                name: "..".to_owned(),
                cookie: 0,
            },
        );
        let kids = self.entries.children_of(dir);
        proof {
            lemma_children_membership(self@.entries, dir);
        }
        let mut k: usize = 0;
        while k < kids.len()
            invariant
                self.wf(),
                0 <= k <= kids@.len(),
                view_of_entries(kids@) == spec_children(self@.entries, dir),
                l == spec_listing(self@, dir),
                l.len() == 2 + kids@.len(),
                full@.len() == 2 + k,
                forall|j: int|
                    0 <= j < full@.len() ==> {
                        &&& (#[trigger] full@[j]).ino == l[j].ino
                        &&& full@[j].kind == l[j].kind
                        &&& full@[j].name@ == l[j].name
                    },
            decreases kids@.len() - k,
        {
            let child = kids[k].child;
            proof {
                lemma_children_membership(self@.entries, dir);
                assert(kids@[k as int]@ == spec_children(self@.entries, dir)[k as int]);
                let s = self@.entries;
                let e = spec_children(s, dir)[k as int];
                assert(s.contains(e));
                let i = choose|i: int| 0 <= i < s.len() && s[i] == e;
                assert(self@.inodes.contains_key((s[i]).child));
            }
            let attr = match self.inodes.get(child) {
                Some(a) => a,
                None => {
                    return Err(FsError::NotFound);
                },
            };
            full.push(
                ListingEntry { ino: child, kind: attr.kind, name: kids[k].name.clone(), cookie: 0 },
            );
            k += 1;
        }
        let total = full.len();
        let mut rows: Vec<ListingEntry> = Vec::new();
        let mut i: usize = offset;
        while i < total
            invariant
                offset <= total ==> offset <= i <= total,
                offset > total ==> i == offset && rows@.len() == 0,
                total == full@.len() == l.len(),
                offset <= total ==> rows@.len() == i - offset,
                forall|j: int|
                    0 <= j < full@.len() ==> {
                        &&& (#[trigger] full@[j]).ino == l[j].ino
                        &&& full@[j].kind == l[j].kind
                        &&& full@[j].name@ == l[j].name
                    },
                forall|j: int|
                    0 <= j < rows@.len() ==> {
                        &&& (#[trigger] rows@[j]).ino == l[offset + j].ino
                        &&& rows@[j].kind == l[offset + j].kind
                        &&& rows@[j].name@ == l[offset + j].name
                        &&& rows@[j].cookie == offset + j + 1
                    },
            decreases total - i,
        {
            let row = ListingEntry {
                ino: full[i].ino,
                kind: full[i].kind,
                name: full[i].name.clone(),
                cookie: (i + 1) as u64,
            };
            rows.push(row);
            i += 1;
        }
        Ok(rows)
    }
}

/// Listing completeness: the listing of a directory whose children are not
/// themselves named "." or ".." consists of exactly ".", "..", and every
/// current child — one row each, with no duplicate name and no omission.
pub proof fn lemma_listing_complete(v: FsView, dir: u64)
    requires
        fs_wf(v),
        forall|i: int|
            0 <= i < v.entries.len() && (#[trigger] v.entries[i]).parent == dir ==> v.entries[i].name
                != "."@ && v.entries[i].name != ".."@,
    ensures
        spec_listing(v, dir).len() == 2 + spec_children(v.entries, dir).len(),
        spec_listing(v, dir)[0] == (ListItemV {
            ino: dir,
            kind: FileKind::Directory,
            name: "."@,
        }),
        spec_listing(v, dir)[1] == (ListItemV {
            ino: spec_parent_of(v.entries, dir),
            kind: FileKind::Directory,
            name: ".."@,
        }),
        // completeness: every entry below `dir` appears as a row
        forall|i: int|
            0 <= i < v.entries.len() && (#[trigger] v.entries[i]).parent == dir ==> exists|j: int|
                2 <= j < spec_listing(v, dir).len() && (#[trigger] spec_listing(v, dir)[j]).name
                    == v.entries[i].name && spec_listing(v, dir)[j].ino == v.entries[i].child,
        // soundness: every row past the two headers is an entry below `dir`
        forall|j: int|
            2 <= j < spec_listing(v, dir).len() ==> occupied(
                v.entries,
                dir,
                (#[trigger] spec_listing(v, dir)[j]).name,
            ) && has_entry(
                v.entries,
                dir,
                spec_listing(v, dir)[j].name,
                spec_listing(v, dir)[j].ino,
            ),
        // no duplicates: all row names are pairwise distinct
        forall|j1: int, j2: int|
            0 <= j1 < j2 < spec_listing(v, dir).len() ==> (#[trigger] spec_listing(
                v,
                dir,
            )[j1]).name != (#[trigger] spec_listing(v, dir)[j2]).name,
{
    let l = spec_listing(v, dir);
    let s = v.entries;
    let kids = spec_children(s, dir);
    lemma_children_membership(s, dir);
    lemma_children_unique_names(s, dir);
    proof_dot_names_differ();
    assert forall|i: int| 0 <= i < s.len() && (#[trigger] s[i]).parent == dir implies exists|j: int|
        2 <= j < l.len() && (#[trigger] l[j]).name == s[i].name && l[j].ino == s[i].child by {
        assert(kids.contains(s[i]));
        let k = choose|k: int| 0 <= k < kids.len() && kids[k] == s[i];
        assert(l[k + 2].name == s[i].name && l[k + 2].ino == s[i].child);
    }
    assert forall|j: int| 2 <= j < l.len() implies occupied(s, dir, (#[trigger] l[j]).name)
        && has_entry(s, dir, l[j].name, l[j].ino) by {
        let e = kids[j - 2];
        assert(s.contains(e));
        let i = choose|i: int| 0 <= i < s.len() && s[i] == e;
        assert(entry_matches(s[i], dir, l[j].name));
    }
    assert forall|j1: int, j2: int| 0 <= j1 < j2 < l.len() implies (#[trigger] l[j1]).name != (
    #[trigger] l[j2]).name by {
        if j1 >= 2 {
            assert(l[j1].name == kids[j1 - 2].name && l[j2].name == kids[j2 - 2].name);
        } else if j2 >= 2 {
            let e = kids[j2 - 2];
            assert(s.contains(e));
            let i = choose|i: int| 0 <= i < s.len() && s[i] == e;
            assert(s[i].name != "."@ && s[i].name != ".."@);
        }
    }
}

/// "." and ".." are different names.
proof fn proof_dot_names_differ()
    ensures
        "."@ != ".."@,
{
    reveal_strlit(".");
    reveal_strlit("..");
    assert("."@.len() == 1 && ".."@.len() == 2);
}

/// The reply `lookup` owes for each state and request: the child's
/// attributes when the name is representable and bound under the parent
/// to a live object, the precise error otherwise.
pub open spec fn spec_lookup_op(v: FsView, parent: u64, name: Option<Seq<char>>) -> Result<
    FileAttr,
    FsError,
> {
    match name {
        None => Err(FsError::InvalidName),
        Some(n) => {
            if !occupied(v.entries, parent, n) {
                Err(FsError::NotFound)
            } else {
                let c = child_of(v.entries, parent, n);
                if v.inodes.contains_key(c) {
                    Ok(v.inodes[c])
                } else {
                    Err(FsError::NotFound)
                }
            }
        },
    }
}

} // verus!
