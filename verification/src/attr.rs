//! Attribute records: the per-identifier metadata of one filesystem object,
//! the kind and error taxonomy, and the block-accounting formula.

use vstd::prelude::*;

verus! {

/// The reserved identifier of the root directory, fixed by the kernel
/// bridge protocol. It is always live for the duration of a mount.
pub const ROOT_ID: u64 = 1;

/// The preferred I/O block size reported for every object.
pub const BLOCK_SIZE: u32 = 4096;

/// The kind of a filesystem object.
#[derive(Clone, Copy, Debug, PartialEq, Eq, Structural)]
pub enum FileKind {
    Directory,
    RegularFile,
}

/// The metadata record kept for one live identifier.
#[derive(Clone, Copy, Debug, PartialEq, Eq, Structural)]
pub struct FileAttr {
    pub ino: u64,
    pub size: u64,
    pub blocks: u64,
    pub atime: u64,
    pub mtime: u64,
    pub ctime: u64,
    pub crtime: u64,
    pub kind: FileKind,
    pub perm: u16,
    pub nlink: u32,
    pub uid: u32,
    pub gid: u32,
    pub rdev: u32,
    pub blksize: u32,
    pub flags: u32,
}

/// Every way an engine operation can fail. The dispatcher maps each kind
/// to a POSIX-style error code at the bridge boundary.
#[derive(Clone, Copy, Debug, PartialEq, Eq, Structural)]
pub enum FsError {
    NotFound,
    AlreadyExists,
    InvalidName,
    NotADirectory,
    DirectoryNotEmpty,
}

impl FsError {
    /// The standard Linux error number for this kind, as the kernel bridge
    /// expects it in an error reply.
    pub fn errno(&self) -> (r: i32)
        ensures
            r == (match self {
                FsError::NotFound => 2int,
                FsError::AlreadyExists => 17int,
                FsError::InvalidName => 22int,
                FsError::NotADirectory => 20int,
                FsError::DirectoryNotEmpty => 39int,
            }),
    {
        match self {
            FsError::NotFound => 2,
            FsError::AlreadyExists => 17,
            FsError::InvalidName => 22,
            FsError::NotADirectory => 20,
            FsError::DirectoryNotEmpty => 39,
        }
    }

    /// A short human-readable description of this error kind.
    pub fn message(&self) -> (r: String)
        ensures
            r@ == (match self {
                FsError::NotFound => "does not exist"@,
                FsError::AlreadyExists => "already exists"@,
                FsError::InvalidName => "name is not representable as text"@,
                FsError::NotADirectory => "is not a directory"@,
                FsError::DirectoryNotEmpty => "directory is not empty"@,
            }),
    {
        match self {
            FsError::NotFound => "does not exist".to_owned(),
            FsError::AlreadyExists => "already exists".to_owned(),
            FsError::InvalidName => "name is not representable as text".to_owned(),
            FsError::NotADirectory => "is not a directory".to_owned(),
            FsError::DirectoryNotEmpty => "directory is not empty".to_owned(),
        }
    }
}

/// A timestamp in a mutate-attributes request: either an explicit value or
/// a marker asking for the current time.
#[derive(Clone, Copy, Debug, PartialEq, Eq, Structural)]
pub enum SetTime {
    At(u64),
    Now,
}

/// The optional fields of one mutate-attributes request; a field left out
/// keeps its current value.
#[derive(Clone, Copy, Debug, PartialEq, Eq, Structural)]
pub struct SetattrRequest {
    pub mode: Option<u32>,
    pub uid: Option<u32>,
    pub gid: Option<u32>,
    pub size: Option<u64>,
    pub atime: Option<SetTime>,
    pub mtime: Option<SetTime>,
    pub crtime: Option<u64>,
    pub chgtime: Option<u64>,
    pub flags: Option<u32>,
}

impl SetattrRequest {
    /// A request that changes nothing.
    pub fn empty() -> (r: SetattrRequest)
        ensures
            r == (SetattrRequest {
                mode: None,
                uid: None,
                gid: None,
                size: None,
                atime: None,
                mtime: None,
                crtime: None,
                chgtime: None,
                flags: None,
            }),
    {
        SetattrRequest {
            mode: None,
            uid: None,
            gid: None,
            size: None,
            atime: None,
            mtime: None,
            crtime: None,
            chgtime: None,
            flags: None,
        }
    }
}

/// The value a requested timestamp resolves to at time `now`.
pub open spec fn spec_resolve_time(t: SetTime, now: u64) -> u64 {
    match t {
        SetTime::At(v) => v,
        SetTime::Now => now,
    }
}

/// Resolves a requested timestamp against the current time.
pub fn resolve_time(t: SetTime, now: u64) -> (r: u64)
    ensures
        r == spec_resolve_time(t, now),
{
    match t {
        SetTime::At(v) => v,
        SetTime::Now => now,
    }
}

/// Ceiling of `size / 512`, the number of 512-byte sectors covering `size`
/// bytes.
pub open spec fn spec_ceil_div512(size: u64) -> int {
    size / 512 + if size % 512 == 0 {
        0int
    } else {
        1int
    }
}

/// The block count an attribute record must carry for a given byte size:
/// zero for an empty object, otherwise the 512-byte sector count with a
/// floor of eight.
pub open spec fn spec_blocks_for(size: u64) -> int {
    if size == 0 {
        0
    } else if spec_ceil_div512(size) < 8 {
        8
    } else {
        spec_ceil_div512(size)
    }
}

/// Recomputes the block count for a byte size.
pub fn blocks_for(size: u64) -> (r: u64)
    ensures
        r as int == spec_blocks_for(size),
{
    if size == 0 {
        0
    } else {
        let q: u64 = size / 512;
        let rem: u64 = size % 512;
        let d: u64 = if rem == 0 {
            q
        } else {
            q + 1
        };
        if d < 8 {
            8
        } else {
            d
        }
    }
}

/// The record that applying a mutate-attributes request to `a` at time
/// `now` yields: only the fields present in the request change, and a size
/// change recomputes the block count.
pub open spec fn spec_apply_setattr(a: FileAttr, req: SetattrRequest, now: u64) -> FileAttr {
    FileAttr {
        perm: match req.mode {
            Some(m) => (m & 0xFFFF) as u16,
            None => a.perm,
        },
        uid: match req.uid {
            Some(u) => u,
            None => a.uid,
        },
        gid: match req.gid {
            Some(g) => g,
            None => a.gid,
        },
        size: match req.size {
            Some(s) => s,
            None => a.size,
        },
        blocks: match req.size {
            Some(s) => spec_blocks_for(s) as u64,
            None => a.blocks,
        },
        atime: match req.atime {
            Some(t) => spec_resolve_time(t, now),
            None => a.atime,
        },
        mtime: match req.mtime {
            Some(t) => spec_resolve_time(t, now),
            None => a.mtime,
        },
        crtime: match req.crtime {
            Some(t) => t,
            None => a.crtime,
        },
        ctime: match req.chgtime {
            Some(t) => t,
            None => a.ctime,
        },
        flags: match req.flags {
            Some(f) => f,
            None => a.flags,
        },
        ..a
    }
}

/// The attribute record a newly created regular file carries: empty, one
/// link, permissions masked to the low twelve bits, owned by the engine's
/// effective user and group, all timestamps at creation time.
pub open spec fn spec_file_attr(ino: u64, mode: u32, uid: u32, gid: u32, now: u64) -> FileAttr {
    FileAttr {
        ino,
        size: 0,
        blocks: 0,
        atime: now,
        mtime: now,
        ctime: now,
        crtime: now,
        kind: FileKind::RegularFile,
        perm: (mode & 0o7777) as u16,
        nlink: 1,
        uid,
        gid,
        rdev: 0,
        blksize: BLOCK_SIZE,
        flags: 0,
    }
}

/// The attribute record a newly created directory carries: one block-size
/// worth of bytes, eight sectors, two links.
pub open spec fn spec_dir_attr(ino: u64, mode: u32, uid: u32, gid: u32, now: u64) -> FileAttr {
    FileAttr {
        ino,
        size: BLOCK_SIZE as u64,
        blocks: 8,
        atime: now,
        mtime: now,
        ctime: now,
        crtime: now,
        kind: FileKind::Directory,
        perm: (mode & 0o7777) as u16,
        nlink: 2,
        uid,
        gid,
        rdev: 0,
        blksize: BLOCK_SIZE,
        flags: 0,
    }
}

/// The attribute record of the root directory at mount start.
pub open spec fn spec_root_attr(uid: u32, gid: u32, now: u64) -> FileAttr {
    FileAttr {
        ino: ROOT_ID,
        size: BLOCK_SIZE as u64,
        blocks: 8,
        atime: now,
        mtime: now,
        ctime: now,
        crtime: now,
        kind: FileKind::Directory,
        perm: 0o755,
        nlink: 2,
        uid,
        gid,
        rdev: 0,
        blksize: BLOCK_SIZE,
        flags: 0,
    }
}

/// Builds the attribute record of a newly created regular file.
pub fn make_file_attr(ino: u64, mode: u32, uid: u32, gid: u32, now: u64) -> (r: FileAttr)
    ensures
        r == spec_file_attr(ino, mode, uid, gid, now),
{
    FileAttr {
        ino,
        size: 0,
        blocks: 0,
        atime: now,
        mtime: now,
        ctime: now,
        crtime: now,
        kind: FileKind::RegularFile,
        perm: (mode & 0o7777) as u16,
        nlink: 1,
        uid,
        gid,
        rdev: 0,
        blksize: BLOCK_SIZE,
        flags: 0,
    }
}

/// Builds the attribute record of a newly created directory.
pub fn make_dir_attr(ino: u64, mode: u32, uid: u32, gid: u32, now: u64) -> (r: FileAttr)
    ensures
        r == spec_dir_attr(ino, mode, uid, gid, now),
{
    FileAttr {
        ino,
        size: BLOCK_SIZE as u64,
        blocks: 8,
        atime: now,
        mtime: now,
        ctime: now,
        crtime: now,
        kind: FileKind::Directory,
        perm: (mode & 0o7777) as u16,
        nlink: 2,
        uid,
        gid,
        rdev: 0,
        blksize: BLOCK_SIZE,
        flags: 0,
    }
}

/// Builds the attribute record of the root directory.
pub fn make_root_attr(uid: u32, gid: u32, now: u64) -> (r: FileAttr)
    ensures
        r == spec_root_attr(uid, gid, now),
{
    FileAttr {
        ino: ROOT_ID,
        size: BLOCK_SIZE as u64,
        blocks: 8,
        atime: now,
        mtime: now,
        ctime: now,
        crtime: now,
        kind: FileKind::Directory,
        perm: 0o755,
        nlink: 2,
        uid,
        gid,
        rdev: 0,
        blksize: BLOCK_SIZE,
        flags: 0,
    }
}

} // verus!
