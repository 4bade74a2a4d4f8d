//! A block-oriented storage backend that keeps its files in memory; for
//! tests and measurements, with no durability.

use std::collections::HashMap;
use vstd::prelude::*;

verus! {

broadcast use vstd::std_specs::hash::group_hash_axioms;

/// Why a storage operation failed.
#[derive(Clone, Copy, Debug, PartialEq, Eq, Structural)]
pub enum StorageError {
    /// No file has the name asked for.
    NotFound,
    /// No block of the size asked for starts at the offset asked for.
    UnexpectedEof,
}

/// A file open for writing.
#[derive(Clone, Copy, Debug, PartialEq, Eq, Hash, Structural)]
pub struct FileHandle(pub i64);

/// A file that is complete and open for reading.
#[derive(Clone, Copy, Debug, PartialEq, Eq, Hash, Structural)]
pub struct ImmutableFileHandle(pub i64);

/// One file: its name, its blocks by offset, and its size.
#[derive(Debug)]
pub struct FileMetaData {
    pub name: String,
    pub blocks: HashMap<u64, Vec<u8>>,
    pub size: u64,
}

/// What a file holds, seen as a name, blocks by offset and a size.
pub struct FileModel {
    pub name: Seq<char>,
    pub blocks: Map<u64, Seq<u8>>,
    pub size: nat,
}

impl FileMetaData {
    /// The file as a name, blocks by offset and a size.
    pub open spec fn model(&self) -> FileModel {
        FileModel {
            name: self.name@,
            blocks: self.blocks@.map_values(|v: Vec<u8>| v@),
            size: self.size as nat,
        }
    }
}

/// The source of file IDs, shared by every backend that must not reuse an
/// ID of another: each file that one of them creates takes the next ID.
#[derive(Debug)]
pub struct FileIdCounter {
    next: i64,
}

impl FileIdCounter {
    /// The ID the next file gets.
    pub closed spec fn value(&self) -> i64 {
        self.next
    }

    /// A counter that starts at 0.
    pub fn new() -> (r: FileIdCounter)
        ensures
            r.value() == 0,
    {
        FileIdCounter { next: 0 }
    }

    /// Hands out the next ID.
    fn take(&mut self) -> (r: i64)
        requires
            old(self).value() < i64::MAX,
        ensures
            r == old(self).value(),
            final(self).value() == old(self).value() + 1,
    {
        let r = self.next;
        self.next = r + 1;
        r
    }
}

/// Files kept in memory by ID; `ids` lists the IDs so that files can be
/// looked up by name.
#[derive(Debug)]
pub struct MemoryBackend {
    files: HashMap<i64, FileMetaData>,
    ids: Vec<i64>,
}

impl MemoryBackend {
    /// `ids` lists each file ID exactly once.
    pub closed spec fn wf(&self) -> bool {
        &&& forall|i: int, j: int|
            0 <= i < j < self.ids@.len() ==> #[trigger] self.ids@[i] != #[trigger] self.ids@[j]
        &&& forall|k: i64| #[trigger] self.files@.contains_key(k) <==> self.ids@.contains(k)
    }

    /// The files by ID.
    pub closed spec fn view(&self) -> Map<i64, FileModel> {
        self.files@.map_values(|m: FileMetaData| m.model())
    }

    /// Whether every file ID of the backend is below `n`.
    pub open spec fn ids_below(&self, n: i64) -> bool {
        forall|k: i64| #[trigger] self.view().contains_key(k) ==> k < n
    }

    /// An empty backend.
    pub fn new() -> (r: MemoryBackend)
        ensures
            r.wf(),
            r.view() == Map::<i64, FileModel>::empty(),
    {
        let r = MemoryBackend { files: HashMap::new(), ids: Vec::new() };
        assert(r.view() =~= Map::<i64, FileModel>::empty());
        r
    }

    /// An empty backend; the base directory plays no part in memory.
    pub fn with_base(_base: &str) -> (r: MemoryBackend)
        ensures
            r.wf(),
            r.view() == Map::<i64, FileModel>::empty(),
    {
        Self::new()
    }

    /// An empty backend for the calling thread.
    pub fn default_for_thread() -> (r: MemoryBackend)
        ensures
            r.wf(),
            r.view() == Map::<i64, FileModel>::empty(),
    {
        Self::new()
    }

    /// Creates an empty file named `name` under the next ID of the shared
    /// counter `ids`.
    pub fn create_named(&mut self, ids: &mut FileIdCounter, name: &str) -> (r: Result<
        FileHandle,
        StorageError,
    >)
        requires
            old(self).wf(),
            old(ids).value() < i64::MAX,
            old(self).ids_below(old(ids).value()),
        ensures
            final(self).wf(),
            r == Ok::<FileHandle, StorageError>(FileHandle(old(ids).value())),
            final(ids).value() == old(ids).value() + 1,
            final(self).ids_below(final(ids).value()),
            final(self).view().dom() == old(self).view().dom().insert(old(ids).value()),
            final(self).view()[old(ids).value()].name == name@,
            final(self).view()[old(ids).value()].blocks == Map::<u64, Seq<u8>>::empty(),
            final(self).view()[old(ids).value()].size == 0,
            forall|k: i64| k != old(ids).value() ==> #[trigger] final(self).view().contains_key(k)
                ==> final(self).view()[k] == old(self).view()[k],
    {
        let id = ids.take();
        assert(!self.view().contains_key(id));
        let fm = FileMetaData { name: name.to_string(), blocks: HashMap::new(), size: 0 };
        self.files.insert(id, fm);
        self.ids.push(id);
        proof {
            assert(self.view().dom() =~= old(self).view().dom().insert(id));
            assert(self.files@[id].blocks@.map_values(|v: Vec<u8>| v@) =~= Map::<
                u64,
                Seq<u8>,
            >::empty());
            assert forall|i: int, j: int|
                0 <= i < j < self.ids@.len() implies #[trigger] self.ids@[i]
                != #[trigger] self.ids@[j] by {
                if j == self.ids@.len() - 1 {
                    assert(old(self).ids@[i] == self.ids@[i]);
                    assert(old(self).ids@.contains(self.ids@[i]));
                }
            }
            assert forall|k: i64| #[trigger] self.files@.contains_key(k) <==> self.ids@.contains(k) by {
                if self.ids@.contains(k) && k != id {
                    let i = choose|i: int| 0 <= i < self.ids@.len() && self.ids@[i] == k;
                    assert(old(self).ids@[i] == k);
                }
                if old(self).ids@.contains(k) {
                    let i = choose|i: int| 0 <= i < old(self).ids@.len() && old(self).ids@[i] == k;
                    assert(self.ids@[i] == k);
                }
                if k == id {
                    assert(self.ids@[self.ids@.len() - 1] == id);
                }
            }
        }
        Ok(FileHandle(id))
    }

    /// The file named `name`; `NotFound` when there is none.
    pub fn open(&self, name: &str) -> (r: Result<ImmutableFileHandle, StorageError>)
        requires
            self.wf(),
        ensures
            r matches Ok(h) ==> self.view().contains_key(h.0) && self.view()[h.0].name == name@,
            r is Err ==> r == Err::<ImmutableFileHandle, StorageError>(StorageError::NotFound)
                && forall|k: i64| #[trigger] self.view().contains_key(k) ==> self.view()[k].name
                != name@,
    {
        let mut i: usize = 0;
        while i < self.ids.len()
            invariant
                self.wf(),
                i <= self.ids@.len(),
                forall|j: int|
                    0 <= j < i ==> self.files@[#[trigger] self.ids@[j]].name@ != name@,
            decreases self.ids@.len() - i,
        {
            let id = self.ids[i];
            assert(self.ids@.contains(id));
            let f = self.files.get(&id).unwrap();
            if crate::string::same_text(f.name.as_str(), name) {
                return Ok(ImmutableFileHandle(id));
            }
            i = i + 1;
        }
        proof {
            assert forall|k: i64| #[trigger] self.view().contains_key(k) implies self.view()[k].name
                != name@ by {
                assert(self.files@.contains_key(k));
                let j = choose|j: int| 0 <= j < self.ids@.len() && self.ids@[j] == k;
                assert(self.files@[self.ids@[j]].name@ != name@);
            }
        }
        Err(StorageError::NotFound)
    }

    /// Stores `data` as the block at `offset` and grows the size to cover it;
    /// returns the stored bytes.
    pub fn write_block(&mut self, fd: &FileHandle, offset: u64, data: Vec<u8>) -> (r: Result<
        Vec<u8>,
        StorageError,
    >)
        requires
            old(self).wf(),
            old(self).view().contains_key(fd.0),
            offset + data@.len() <= u64::MAX,
        ensures
            final(self).wf(),
            r matches Ok(v) && v@ == data@,
            final(self).view().dom() == old(self).view().dom(),
            final(self).view()[fd.0].name == old(self).view()[fd.0].name,
            final(self).view()[fd.0].blocks == old(self).view()[fd.0].blocks.insert(offset, data@),
            final(self).view()[fd.0].size == if offset + data@.len() > old(self).view()[fd.0].size {
                offset + data@.len()
            } else {
                old(self).view()[fd.0].size as int
            },
            forall|k: i64| k != fd.0 ==> #[trigger] final(self).view().contains_key(k)
                ==> final(self).view()[k] == old(self).view()[k],
    {
        let mut fm = self.files.remove(&fd.0).unwrap();
        let ghost b0 = fm.blocks@;
        let stored = data.clone();
        assert(stored@ =~= data@);
        fm.blocks.insert(offset, data);
        let end = offset + stored.len() as u64;
        if end > fm.size {
            fm.size = end;
        }
        self.files.insert(fd.0, fm);
        proof {
            assert(self.files@.dom() =~= old(self).files@.dom());
            assert(self.view().dom() =~= old(self).view().dom());
            assert(self.files@[fd.0].blocks@.map_values(|v: Vec<u8>| v@) =~= b0.map_values(
                |v: Vec<u8>| v@,
            ).insert(offset, stored@));
        }
        Ok(stored)
    }

    /// Marks the file complete; returns its read handle and name.
    pub fn complete(&self, fd: FileHandle) -> (r: Result<(ImmutableFileHandle, String), StorageError>)
        requires
            self.wf(),
            self.view().contains_key(fd.0),
        ensures
            r matches Ok((h, name)) && h == ImmutableFileHandle(fd.0) && name@ == self.view()[fd.0].name,
    {
        let f = self.files.get(&fd.0).unwrap();
        Ok((ImmutableFileHandle(fd.0), f.name.clone()))
    }

    /// The block at `offset`, which must be exactly `size` bytes long;
    /// `UnexpectedEof` otherwise.
    pub fn read_block(&self, fd: &ImmutableFileHandle, offset: u64, size: usize) -> (r: Result<
        Vec<u8>,
        StorageError,
    >)
        requires
            self.wf(),
            self.view().contains_key(fd.0),
        ensures
            ({
                let b = self.view()[fd.0].blocks;
                &&& r is Ok <==> (b.contains_key(offset) && b[offset].len() == size)
                &&& r matches Ok(v) ==> v@ == b[offset]
                &&& r is Err ==> r == Err::<Vec<u8>, StorageError>(StorageError::UnexpectedEof)
            }),
    {
        let f = self.files.get(&fd.0).unwrap();
        match f.blocks.get(&offset) {
            Some(block) => {
                if block.len() == size {
                    let v = block.clone();
                    assert(v@ =~= block@);
                    Ok(v)
                } else {
                    Err(StorageError::UnexpectedEof)
                }
            },
            None => Err(StorageError::UnexpectedEof),
        }
    }

    /// The size of the file.
    pub fn get_size(&self, fd: &ImmutableFileHandle) -> (r: Result<u64, StorageError>)
        requires
            self.wf(),
            self.view().contains_key(fd.0),
        ensures
            r matches Ok(n) && n == self.view()[fd.0].size,
    {
        Ok(self.files.get(&fd.0).unwrap().size)
    }

    /// Removes the file.
    pub fn delete_mut(&mut self, fd: FileHandle) -> (r: Result<(), StorageError>)
        requires
            old(self).wf(),
            old(self).view().contains_key(fd.0),
        ensures
            final(self).wf(),
            r is Ok,
            final(self).view() == old(self).view().remove(fd.0),
    {
        self.files.remove(&fd.0);
        let ghost ids0 = self.ids@;
        assert(ids0.contains(fd.0));
        let mut i: usize = 0;
        while i < self.ids.len() && self.ids[i] != fd.0
            invariant
                i <= self.ids@.len(),
                self.ids@ == ids0,
                ids0.contains(fd.0),
                forall|j: int| 0 <= j < i ==> ids0[j] != fd.0,
            decreases self.ids@.len() - i,
        {
            i = i + 1;
        }
        assert(i < ids0.len()) by {
            if i == ids0.len() {
                let j = choose|j: int| 0 <= j < ids0.len() && ids0[j] == fd.0;
                assert(ids0[j] != fd.0);
            }
        }
        self.ids.remove(i);
        proof {
            assert(self.view() =~= old(self).view().remove(fd.0));
            assert forall|a: int, b: int|
                0 <= a < b < self.ids@.len() implies #[trigger] self.ids@[a]
                != #[trigger] self.ids@[b] by {
                let a0 = if a < i { a } else { a + 1 };
                let b0 = if b < i { b } else { b + 1 };
                assert(self.ids@[a] == ids0[a0]);
                assert(self.ids@[b] == ids0[b0]);
            }
            assert forall|k: i64| #[trigger] self.files@.contains_key(k) <==> self.ids@.contains(k) by {
                if self.ids@.contains(k) {
                    let j = choose|j: int| 0 <= j < self.ids@.len() && self.ids@[j] == k;
                    let j0 = if j < i { j } else { j + 1 };
                    assert(ids0[j0] == k);
                    assert(ids0[i as int] == fd.0);
                    assert(j0 != i as int);
                }
                if self.files@.contains_key(k) {
                    assert(ids0.contains(k));
                    let j0 = choose|j: int| 0 <= j < ids0.len() && ids0[j] == k;
                    assert(j0 != i as int);
                    let j = if j0 < i { j0 } else { j0 - 1 };
                    assert(self.ids@[j] == k);
                }
            }
        }
        Ok(())
    }

    /// Nothing to do in memory.
    pub fn mark_for_checkpoint(&self, _fd: &ImmutableFileHandle) {
    }
}

} // verus!
