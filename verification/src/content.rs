//! File content store: the byte buffers backing regular files, keyed by
//! identifier, with clamped reads and zero-extending writes.

use vstd::prelude::*;

use crate::attr::FsError;
use std::collections::HashMap;

verus! {

broadcast use vstd::std_specs::hash::group_hash_axioms;

/// The buffer that results from writing `data` at `offset` into `buf`:
/// the buffer is zero-extended up to `offset + data.len()` when it is
/// shorter than that, then `[offset, offset + data.len())` is overwritten.
pub open spec fn spec_write_bytes(buf: Seq<u8>, offset: int, data: Seq<u8>) -> Seq<u8>
    recommends
        0 <= offset,
{
    let newlen = if buf.len() >= offset + data.len() {
        buf.len() as int
    } else {
        offset + data.len()
    };
    Seq::new(
        newlen as nat,
        |i: int|
            if offset <= i < offset + data.len() {
                data[i - offset]
            } else if i < buf.len() {
                buf[i]
            } else {
                0u8
            },
    )
}

/// The bytes a read of `len` bytes at `offset` returns from `buf`: empty
/// when `offset` lies past the end, otherwise the bytes up to `len` of
/// them, clamped to the end of the buffer. Out-of-range reads never fail.
pub open spec fn spec_read_bytes(buf: Seq<u8>, offset: int, len: int) -> Seq<u8>
    recommends
        0 <= offset,
        0 <= len,
{
    if offset > buf.len() {
        Seq::empty()
    } else if offset + len <= buf.len() {
        buf.subrange(offset, offset + len)
    } else {
        buf.subrange(offset, buf.len() as int)
    }
}

/// The buffer `buf` resized to `len` bytes: truncated when shrinking,
/// zero-filled when growing.
pub open spec fn spec_resize_bytes(buf: Seq<u8>, len: int) -> Seq<u8>
    recommends
        0 <= len,
{
    Seq::new(
        len as nat,
        |i: int|
            if i < buf.len() {
                buf[i]
            } else {
                0u8
            },
    )
}

/// Read/write round trip: writing `data` at `offset` and then reading
/// `data.len()` bytes from the same offset returns exactly `data`.
pub proof fn lemma_write_read_round_trip(buf: Seq<u8>, offset: int, data: Seq<u8>)
    requires
        0 <= offset,
    ensures
        spec_read_bytes(spec_write_bytes(buf, offset, data), offset, data.len() as int) == data,
{
    let w = spec_write_bytes(buf, offset, data);
    assert(w.len() >= offset + data.len());
    assert(spec_read_bytes(w, offset, data.len() as int) =~= data);
}

/// Sparse extension: writing entirely past the current end zero-fills the
/// gap, and a read of the gap region returns only zero bytes.
pub proof fn lemma_sparse_extension(buf: Seq<u8>, offset: int, data: Seq<u8>)
    requires
        buf.len() <= offset,
    ensures
        forall|i: int|
            buf.len() <= i < offset ==> #[trigger] spec_write_bytes(buf, offset, data)[i] == 0u8,
        spec_read_bytes(spec_write_bytes(buf, offset, data), buf.len() as int, offset - buf.len())
            == Seq::new((offset - buf.len()) as nat, |i: int| 0u8),
{
    let w = spec_write_bytes(buf, offset, data);
    assert(spec_read_bytes(w, buf.len() as int, offset - buf.len()) =~= Seq::new(
        (offset - buf.len()) as nat,
        |i: int| 0u8,
    ));
}

/// The mapping from a regular-file identifier to its byte content.
pub struct ContentStore {
    buffers: HashMap<u64, Vec<u8>>,
}

impl View for ContentStore {
    type V = Map<u64, Seq<u8>>;

    closed spec fn view(&self) -> Map<u64, Seq<u8>> {
        Map::new(
            |ino: u64| self.buffers@.contains_key(ino),
            |ino: u64| self.buffers@[ino]@,
        )
    }
}

impl ContentStore {
    /// An empty store, holding no buffer at all.
    pub fn new() -> (r: ContentStore)
        ensures
            r@ == Map::<u64, Seq<u8>>::empty(),
    {
        let r = ContentStore { buffers: HashMap::new() };
        proof {
            assert(r@ =~= Map::<u64, Seq<u8>>::empty());
        }
        r
    }

    /// Whether a buffer is stored for `ino`.
    pub fn contains(&self, ino: u64) -> (r: bool)
        ensures
            r == self@.contains_key(ino),
    {
        self.buffers.contains_key(&ino)
    }

    /// The current length of the buffer of `ino`.
    pub fn size_of(&self, ino: u64) -> (r: Result<usize, FsError>)
        ensures
            self@.contains_key(ino) ==> {
                &&& self@[ino].len() <= usize::MAX
                &&& r == Ok::<usize, FsError>(self@[ino].len() as usize)
            },
            !self@.contains_key(ino) ==> r == Err::<usize, FsError>(FsError::NotFound),
    {
        match self.buffers.get(&ino) {
            Some(buf) => Ok(buf.len()),
            None => Err(FsError::NotFound),
        }
    }

    /// Stores an empty buffer for `ino`, as object creation does.
    pub fn insert_empty(&mut self, ino: u64)
        ensures
            final(self)@ == old(self)@.insert(ino, Seq::<u8>::empty()),
    {
        let empty: Vec<u8> = Vec::new();
        self.buffers.insert(ino, empty);
        proof {
            assert(final(self)@ =~= old(self)@.insert(ino, Seq::<u8>::empty()));
        }
    }

    /// Drops the buffer of `ino`, as object deletion does. Removing an
    /// absent identifier leaves the store unchanged.
    pub fn remove(&mut self, ino: u64)
        ensures
            final(self)@ == old(self)@.remove(ino),
    {
        self.buffers.remove(&ino);
        proof {
            assert(final(self)@ =~= old(self)@.remove(ino));
        }
    }

    /// Reads up to `len` bytes at `offset` from the buffer of `ino`,
    /// clamped to the stored length; an offset past the end yields an
    /// empty result rather than an error.
    pub fn read(&self, ino: u64, offset: usize, len: u32) -> (r: Result<Vec<u8>, FsError>)
        ensures
            self@.contains_key(ino) ==> (r matches Ok(bytes) && bytes@ == spec_read_bytes(
                self@[ino],
                offset as int,
                len as int,
            )),
            !self@.contains_key(ino) ==> r == Err::<Vec<u8>, FsError>(FsError::NotFound),
    {
        match self.buffers.get(&ino) {
            Some(buf) => {
                let blen = buf.len();
                if offset > blen {
                    Ok(Vec::new())
                } else {
                    let end: usize = if (len as usize) <= blen - offset {
                        offset + (len as usize)
                    } else {
                        blen
                    };
                    let mut out: Vec<u8> = Vec::new();
                    let mut i: usize = offset;
                    while i < end
                        invariant
                            offset <= i <= end <= blen,
                            blen == buf@.len(),
                            out@ == buf@.subrange(offset as int, i as int),
                        decreases end - i,
                    {
                        out.push(buf[i]);
                        i += 1;
                        proof {
                            assert(out@ =~= buf@.subrange(offset as int, i as int));
                        }
                    }
                    proof {
                        assert(out@ =~= spec_read_bytes(self@[ino], offset as int, len as int));
                    }
                    Ok(out)
                }
            },
            None => Err(FsError::NotFound),
        }
    }

    /// Writes `data` at `offset` into the buffer of `ino`, zero-filling
    /// any gap past the previous end, and reports how many bytes were
    /// written: always all of them on success.
    pub fn write(&mut self, ino: u64, offset: usize, data: &[u8]) -> (r: Result<usize, FsError>)
        requires
            offset + data@.len() <= usize::MAX,
        ensures
            old(self)@.contains_key(ino) ==> {
                &&& r == Ok::<usize, FsError>(data@.len() as usize)
                &&& final(self)@ == old(self)@.insert(
                    ino,
                    spec_write_bytes(old(self)@[ino], offset as int, data@),
                )
            },
            !old(self)@.contains_key(ino) ==> {
                &&& r == Err::<usize, FsError>(FsError::NotFound)
                &&& final(self)@ == old(self)@
            },
    {
        match self.buffers.remove(&ino) {
            Some(mut buf) => {
                let ghost orig = buf@;
                let end: usize = offset + data.len();
                while buf.len() < end
                    invariant
                        buf@.len() >= orig.len() || buf@.len() < end,
                        orig.len() <= buf@.len() || buf@ == orig,
                        buf@.len() <= end || buf@ == orig,
                        forall|j: int| 0 <= j < orig.len() && j < buf@.len() ==> buf@[j] == orig[j],
                        forall|j: int| orig.len() <= j < buf@.len() ==> buf@[j] == 0u8,
                    decreases end - buf@.len(),
                {
                    buf.push(0u8);
                }
                let mut i: usize = 0;
                while i < data.len()
                    invariant
                        0 <= i <= data@.len(),
                        end == offset + data@.len(),
                        buf@.len() == if orig.len() >= end {
                            orig.len() as int
                        } else {
                            end as int
                        },
                        forall|j: int|
                            offset <= j < offset + i ==> #[trigger] buf@[j] == data@[j - offset],
                        forall|j: int|
                            0 <= j < buf@.len() && !(offset <= j < offset + i) ==> #[trigger] buf@[j]
                                == (if j < orig.len() {
                                orig[j]
                            } else {
                                0u8
                            }),
                    decreases data@.len() - i,
                {
                    let b: u8 = data[i];
                    buf[offset + i] = b;
                    i += 1;
                }
                proof {
                    assert(buf@ =~= spec_write_bytes(orig, offset as int, data@));
                }
                self.buffers.insert(ino, buf);
                proof {
                    assert(final(self)@ =~= old(self)@.insert(
                        ino,
                        spec_write_bytes(old(self)@[ino], offset as int, data@),
                    ));
                }
                Ok(data.len())
            },
            None => {
                proof {
                    assert(final(self)@ =~= old(self)@);
                }
                Err(FsError::NotFound)
            },
        }
    }

    /// Resizes the buffer of `ino` to exactly `len` bytes: truncating when
    /// shrinking, zero-filling when growing.
    pub fn resize(&mut self, ino: u64, len: usize) -> (r: Result<(), FsError>)
        ensures
            old(self)@.contains_key(ino) ==> {
                &&& r == Ok::<(), FsError>(())
                &&& final(self)@ == old(self)@.insert(
                    ino,
                    spec_resize_bytes(old(self)@[ino], len as int),
                )
            },
            !old(self)@.contains_key(ino) ==> {
                &&& r == Err::<(), FsError>(FsError::NotFound)
                &&& final(self)@ == old(self)@
            },
    {
        match self.buffers.remove(&ino) {
            Some(mut buf) => {
                let ghost orig = buf@;
                if buf.len() > len {
                    buf.truncate(len);
                } else {
                    while buf.len() < len
                        invariant
                            orig.len() <= buf@.len() <= len || buf@ == orig,
                            forall|j: int| 0 <= j < orig.len() && j < buf@.len() ==> buf@[j] == orig[j],
                            forall|j: int| orig.len() <= j < buf@.len() ==> buf@[j] == 0u8,
                        decreases len - buf@.len(),
                    {
                        buf.push(0u8);
                    }
                }
                proof {
                    assert(buf@ =~= spec_resize_bytes(orig, len as int));
                }
                self.buffers.insert(ino, buf);
                proof {
                    assert(final(self)@ =~= old(self)@.insert(
                        ino,
                        spec_resize_bytes(old(self)@[ino], len as int),
                    ));
                }
                Ok(())
            },
            None => {
                proof {
                    assert(final(self)@ =~= old(self)@);
                }
                Err(FsError::NotFound)
            },
        }
    }
}

} // verus!
