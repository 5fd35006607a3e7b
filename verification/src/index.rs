use vstd::prelude::*;

use crate::bytebuffer::{be_u24_at, read_be_u24_padded};
use crate::errors::FileSystemError;

verus! {

/// Numeric tag identifying one of the per-category index files.
#[derive(Debug, Clone, Copy, PartialEq, Eq, Structural)]
pub struct IndexType(u8);

impl IndexType {
    /// The category id carried by this tag.
    pub closed spec fn spec_id(&self) -> u8 {
        self.0
    }

    /// The tag for category `index_id`, for use in specifications.
    pub closed spec fn spec_new(index_id: u8) -> IndexType {
        IndexType(index_id)
    }

    pub fn new(index_id: u8) -> (r: Self)
        ensures
            r.spec_id() == index_id,
    {
        IndexType(index_id)
    }

    #[verifier::when_used_as_spec(spec_id)]
    pub fn id(&self) -> (r: u8)
        ensures
            r == self.spec_id(),
    {
        self.0
    }
}

/// One 6-byte index record: the logical payload size and the first sector of
/// the entry's chain in the data file.
#[derive(Debug, Clone, Copy, PartialEq, Eq, Structural)]
pub struct IndexEntry {
    pub id: u32,
    pub size: u32,
    pub offset: u64,
}

impl IndexEntry {
    pub fn id(&self) -> (r: u32)
        ensures
            r == self.id,
    {
        self.id
    }

    pub fn size(&self) -> (r: u32)
        ensures
            r == self.size,
    {
        self.size
    }

    pub fn offset(&self) -> (r: u64)
        ensures
            r == self.offset,
    {
        self.offset
    }
}

/// Two category tags carrying the same id are the same tag.
pub broadcast proof fn lemma_index_type_id(index_id: u8)
    ensures
        (#[trigger] IndexType::spec_new(index_id)).spec_id() == index_id,
{
}

/// A category tag is determined by its id.
pub proof fn lemma_index_type_eq(a: IndexType, b: IndexType)
    requires
        a.spec_id() == b.spec_id(),
    ensures
        a == b,
{
}

/// A per-category index: a packed array of 6-byte records mapping an entry id
/// to the size and first sector of its payload.
#[derive(Debug)]
pub struct Index {
    index_type: IndexType,
    data: Vec<u8>,
}

impl Index {
    /// The raw bytes of the index file.
    pub closed spec fn spec_data(&self) -> Seq<u8> {
        self.data@
    }

    /// The category id this index serves.
    pub closed spec fn spec_id(&self) -> u8 {
        self.index_type.spec_id()
    }

    /// The record returned for `entry_id`: absent when the record would start
    /// past the end of the index file, otherwise the two big-endian 24-bit
    /// integers stored at `entry_id * 6`.
    pub open spec fn spec_entry(&self, entry_id: u32) -> Result<IndexEntry, FileSystemError> {
        if entry_id * 6 >= self.spec_data().len() {
            Err(FileSystemError::IndexEntryNotFound(entry_id))
        } else {
            Ok(
                IndexEntry {
                    id: entry_id,
                    size: be_u24_at(self.spec_data(), entry_id * 6) as u32,
                    offset: be_u24_at(self.spec_data(), entry_id * 6 + 3) as u64,
                },
            )
        }
    }

    pub fn new(index_id: u8, data: Vec<u8>) -> (r: Self)
        ensures
            r.spec_id() == index_id,
            r.spec_data() == data@,
    {
        Index { index_type: IndexType(index_id), data }
    }

    /// Looks up the 6-byte record of `entry_id`.
    pub fn entry(&self, entry_id: u32) -> (r: Result<IndexEntry, FileSystemError>)
        ensures
            r == self.spec_entry(entry_id),
    {
        let ptr: u64 = (entry_id as u64) * 6;
        if ptr >= self.data.len() as u64 {
            return Err(FileSystemError::IndexEntryNotFound(entry_id));
        }
        let size = read_be_u24_padded(&self.data, ptr);
        let offset = read_be_u24_padded(&self.data, ptr + 3);
        Ok(IndexEntry { id: entry_id, size, offset: offset as u64 })
    }

    pub fn index_type(&self) -> (r: &IndexType)
        ensures
            r.spec_id() == self.spec_id(),
    {
        &self.index_type
    }

    /// The number of potentially addressable records, gaps included.
    pub fn file_count(&self) -> (r: u64)
        ensures
            r == self.spec_data().len() / 6,
    {
        (self.data.len() as u64) / 6
    }
}

} // verus!
