use vstd::prelude::*;

use crate::bytebuffer::{
    be_u16_at, be_u24_at, be_u32_at, byte_at, padded_byte, read_be_u16_padded, read_be_u24_padded,
    read_be_u32_padded,
};
use crate::archive::{pairs_to_map, spec_decode, Archive, ArchiveType};
use crate::errors::{FileSystemError, SectorDataKind};
use crate::index::{lemma_index_type_eq, lemma_index_type_id, Index, IndexEntry, IndexType};

verus! {

/// File name of the monolithic data file inside a cache directory.
pub const DEFAULT_DATA_FILE_NAME: &'static str = "main_file_cache.dat";

/// File name prefix of the per-category index files.
pub const DEFAULT_INDEX_FILE_PREFIX: &'static str = "main_file_cache.idx";

/// Highest index file id.
pub const MAX_INDEX_COUNT: u8 = 255;

/// Size of one sector of the data file, header included.
pub const TOTAL_BLOCK_SIZE: u64 = 520;

/// Payload bytes of a sector with the standard header.
pub const BLOCK_CHUNK_SIZE: u32 = 512;

/// Payload bytes of a sector with the extended header.
pub const BLOCK_CHUNK_EXTENDED_SIZE: u32 = 510;

/// Size of the standard sector header.
pub const BLOCK_HEADER_SIZE: usize = 8;

/// Size of the extended sector header, used for entry ids above 65535.
pub const BLOCK_HEADER_EXTENDED_SIZE: usize = 10;

/// The in-band metadata at the front of a sector: which entry the sector
/// belongs to, its position in the chain, and where the chain continues.
#[derive(Debug, Clone, Copy, PartialEq, Eq, Structural)]
pub struct CacheSectorHeader {
    pub next_entry_id: u32,
    pub next_sequence: u32,
    pub next_block: u64,
    pub next_index_id: u8,
}

/// The header fields parsed from a slice that is exactly one sector header:
/// 10 bytes give the extended layout, 8 bytes the standard one, and any other
/// length is rejected.
pub open spec fn spec_sector_header(block: Seq<u8>) -> Result<CacheSectorHeader, FileSystemError> {
    if block.len() == BLOCK_HEADER_EXTENDED_SIZE {
        Ok(
            CacheSectorHeader {
                next_entry_id: be_u32_at(block, 0) as u32,
                next_sequence: be_u16_at(block, 4) as u32,
                next_block: be_u24_at(block, 6) as u64,
                next_index_id: byte_at(block, 9),
            },
        )
    } else if block.len() == BLOCK_HEADER_SIZE {
        Ok(
            CacheSectorHeader {
                next_entry_id: be_u16_at(block, 0) as u32,
                next_sequence: be_u16_at(block, 2) as u32,
                next_block: be_u24_at(block, 4) as u64,
                next_index_id: byte_at(block, 7),
            },
        )
    } else {
        Err(FileSystemError::InvalidBlockHeaderLength(block.len() as usize))
    }
}

impl CacheSectorHeader {
    /// Parses a sector-header slice, choosing the layout by its length.
    pub fn from_bytes(block_data: &[u8]) -> (r: Result<CacheSectorHeader, FileSystemError>)
        ensures
            r == spec_sector_header(block_data@),
    {
        if block_data.len() == BLOCK_HEADER_EXTENDED_SIZE {
            Ok(
                CacheSectorHeader {
                    next_entry_id: (block_data[0] as u32) * 0x1000000 + (block_data[1] as u32)
                        * 0x10000 + (block_data[2] as u32) * 0x100 + (block_data[3] as u32),
                    next_sequence: (block_data[4] as u32) * 0x100 + (block_data[5] as u32),
                    next_block: (block_data[6] as u64) * 0x10000 + (block_data[7] as u64) * 0x100
                        + (block_data[8] as u64),
                    next_index_id: block_data[9],
                },
            )
        } else if block_data.len() == BLOCK_HEADER_SIZE {
            Ok(
                CacheSectorHeader {
                    next_entry_id: (block_data[0] as u32) * 0x100 + (block_data[1] as u32),
                    next_sequence: (block_data[2] as u32) * 0x100 + (block_data[3] as u32),
                    next_block: (block_data[4] as u64) * 0x10000 + (block_data[5] as u64) * 0x100
                        + (block_data[6] as u64),
                    next_index_id: block_data[7],
                },
            )
        } else {
            Err(FileSystemError::InvalidBlockHeaderLength(block_data.len()))
        }
    }
}

/// True when the entry id needs the extended sector layout.
pub open spec fn spec_large(entry_id: u32) -> bool {
    entry_id > 65535
}

/// The header of the sector `sector` of the data file, parsed with the
/// standard or the extended layout; bytes past the end of the file read as
/// zero.
pub open spec fn spec_chain_header(data: Seq<u8>, sector: int, large: bool) -> CacheSectorHeader {
    let base = sector * 520;
    if large {
        CacheSectorHeader {
            next_entry_id: be_u32_at(data, base) as u32,
            next_sequence: be_u16_at(data, base + 4) as u32,
            next_block: be_u24_at(data, base + 6) as u64,
            next_index_id: byte_at(data, base + 9),
        }
    } else {
        CacheSectorHeader {
            next_entry_id: be_u16_at(data, base) as u32,
            next_sequence: be_u16_at(data, base + 2) as u32,
            next_block: be_u24_at(data, base + 4) as u64,
            next_index_id: byte_at(data, base + 7),
        }
    }
}

/// The payload bytes a sector contributes: `take` bytes right behind its
/// header.
pub open spec fn spec_sector_payload(data: Seq<u8>, sector: int, large: bool, take: int) -> Seq<
    u8,
> {
    let hs = if large {
        BLOCK_HEADER_EXTENDED_SIZE as int
    } else {
        BLOCK_HEADER_SIZE as int
    };
    Seq::new(take as nat, |j: int| byte_at(data, sector * 520 + hs + j))
}

/// What walking a sector chain returns.  Starting at `sector` with `sequence`
/// sectors already consumed, the walk reads sectors until `remaining` payload
/// bytes have been collected; each sector must name the owning category (plus
/// one), its position in the chain, and the entry id, or the walk stops with
/// the exact mismatch.
pub open spec fn spec_walk(
    data: Seq<u8>,
    index_id: u8,
    entry_id: u32,
    remaining: int,
    sector: int,
    sequence: int,
) -> Result<Seq<u8>, FileSystemError>
    decreases remaining,
{
    if remaining <= 0 {
        Ok(Seq::empty())
    } else {
        let large = spec_large(entry_id);
        let h = spec_chain_header(data, sector, large);
        if h.next_index_id != index_id + 1 {
            Err(
                FileSystemError::SectorReadingDataMismatch {
                    data_type: SectorDataKind::Category,
                    expected: (index_id + 1) as usize,
                    actual: h.next_index_id as usize,
                },
            )
        } else if h.next_sequence != sequence {
            Err(
                FileSystemError::SectorReadingDataMismatch {
                    data_type: SectorDataKind::Sequence,
                    expected: sequence as usize,
                    actual: h.next_sequence as usize,
                },
            )
        } else if h.next_entry_id != entry_id {
            Err(
                FileSystemError::SectorReadingDataMismatch {
                    data_type: SectorDataKind::EntryId,
                    expected: entry_id as usize,
                    actual: h.next_entry_id as usize,
                },
            )
        } else {
            let chunk = if large {
                BLOCK_CHUNK_EXTENDED_SIZE as int
            } else {
                BLOCK_CHUNK_SIZE as int
            };
            let take = if remaining < chunk {
                remaining
            } else {
                chunk
            };
            match spec_walk(data, index_id, entry_id, remaining - take, h.next_block as int,
                sequence + 1) {
                Ok(rest) => Ok(spec_sector_payload(data, sector, large, take) + rest),
                Err(e) => Err(e),
            }
        }
    }
}

/// The first index of `s` serving category `index_id`, front to back.
pub open spec fn find_index_in(s: Seq<Index>, index_id: u8) -> Option<Index>
    decreases s.len(),
{
    if s.len() == 0 {
        None
    } else if s[0].spec_id() == index_id {
        Some(s[0])
    } else {
        find_index_in(s.drop_first(), index_id)
    }
}

/// Read-only facade over one cache snapshot: the bytes of the monolithic
/// data file and one index per present category.
#[derive(Debug)]
pub struct FileSystem {
    main_data_file: Vec<u8>,
    indices: Vec<Index>,
}

impl FileSystem {
    /// The bytes of the data file.
    pub closed spec fn spec_data(&self) -> Seq<u8> {
        self.main_data_file@
    }

    /// The indices, in the order they were handed in.
    pub closed spec fn spec_indices(&self) -> Seq<Index> {
        self.indices@
    }

    /// What a read of `(index_type, entry_id)` returns: the index is looked
    /// up, then its 6-byte record, then the sector chain is walked.
    pub open spec fn spec_read(&self, index_type: IndexType, entry_id: u32) -> Result<
        Seq<u8>,
        FileSystemError,
    > {
        match find_index_in(self.spec_indices(), index_type.spec_id()) {
            None => Err(FileSystemError::IndexNotFound { index_type }),
            Some(idx) => match idx.spec_entry(entry_id) {
                Err(e) => Err(e),
                Ok(entry) => spec_walk(
                    self.spec_data(),
                    idx.spec_id(),
                    entry_id,
                    entry.size as int,
                    entry.offset as int,
                    0,
                ),
            },
        }
    }

    /// Assembles a file system from the data-file bytes and the indices that
    /// were found next to it.
    pub fn new(main_data_file: Vec<u8>, indices: Vec<Index>) -> (r: Self)
        ensures
            r.spec_data() == main_data_file@,
            r.spec_indices() == indices@,
    {
        FileSystem { main_data_file, indices }
    }

    /// Resolves the index serving `index_type`.
    pub fn index(&self, index_type: IndexType) -> (r: Result<&Index, FileSystemError>)
        ensures
            match r {
                Ok(idx) => find_index_in(self.spec_indices(), index_type.spec_id()) == Some(*idx),
                Err(e) => {
                    &&& find_index_in(self.spec_indices(), index_type.spec_id()) is None
                    &&& e == (FileSystemError::IndexNotFound { index_type })
                },
            },
    {
        let index_id = index_type.id();
        let n = self.indices.len();
        proof {
            assert(self.spec_indices().skip(0) =~= self.spec_indices());
        }
        for i in 0..n
            invariant
                n == self.spec_indices().len(),
                index_id == index_type.spec_id(),
                find_index_in(self.spec_indices().skip(i as int), index_id) == find_index_in(
                    self.spec_indices(),
                    index_id,
                ),
        {
            proof {
                assert(self.spec_indices().skip(i as int)[0] == self.spec_indices()[i as int]);
                assert(self.spec_indices().skip(i as int).drop_first() =~= self.spec_indices().skip(
                    i + 1,
                ));
            }
            if self.indices[i].index_type().id() == index_id {
                proof {
                    assert(find_index_in(self.spec_indices().skip(i as int), index_id) == Some(
                        self.spec_indices()[i as int],
                    ));
                }
                return Ok(&self.indices[i]);
            }
        }
        Err(FileSystemError::IndexNotFound { index_type })
    }

    /// The number of potentially addressable records of the index serving
    /// `index_type`.
    pub fn file_count(&self, index_type: IndexType) -> (r: Result<u64, FileSystemError>)
        ensures
            match r {
                Ok(count) => {
                    &&& find_index_in(self.spec_indices(), index_type.spec_id()) matches Some(idx)
                    &&& count == idx.spec_data().len() / 6
                },
                Err(e) => {
                    &&& find_index_in(self.spec_indices(), index_type.spec_id()) is None
                    &&& e == (FileSystemError::IndexNotFound { index_type })
                },
            },
    {
        let index = match self.index(index_type) {
            Ok(idx) => idx,
            Err(e) => {
                return Err(e);
            },
        };
        Ok(index.file_count())
    }

    /// The number of indices present, truncated to a byte.
    pub fn index_count(&self) -> (r: u8)
        ensures
            r == self.spec_indices().len() % 256,
    {
        (self.indices.len() % 256) as u8
    }

    /// Reads the archive stored for `archive_type` under category 0 and
    /// decodes it; any failure to read the raw bytes is reported as a missing
    /// archive.
    pub fn read_archive(&self, archive_type: ArchiveType) -> (r: Result<Archive, FileSystemError>)
        ensures
            match r {
                Ok(a) => {
                    &&& self.spec_read(IndexType::spec_new(0), archive_type.spec_id()) matches Ok(
                        d,
                    )
                    &&& spec_decode(d) matches Ok(pairs) && a.spec_map() == pairs_to_map(pairs)
                    &&& a.wf()
                },
                Err(e) => match self.spec_read(IndexType::spec_new(0), archive_type.spec_id()) {
                    Err(_) => e == FileSystemError::ArchiveNotFound(archive_type.spec_id()),
                    Ok(d) => spec_decode(d) == Err::<Seq<(i32, Seq<u8>)>, FileSystemError>(e),
                },
            },
    {
        let category = IndexType::new(0);
        proof {
            lemma_index_type_id(0);
            lemma_index_type_eq(category, IndexType::spec_new(0));
        }
        let file_data = match self.read(category, archive_type.id()) {
            Ok(d) => d,
            Err(_) => {
                return Err(FileSystemError::ArchiveNotFound(archive_type.id()));
            },
        };
        Archive::decode(file_data)
    }

    /// Reassembles the payload of `(index_type, entry_id)` from its sector
    /// chain, validating every sector header on the way.
    pub fn read(&self, index_type: IndexType, entry_id: u32) -> (r: Result<
        Vec<u8>,
        FileSystemError,
    >)
        ensures
            match r {
                Ok(buf) => self.spec_read(index_type, entry_id) == Ok::<Seq<u8>, FileSystemError>(
                    buf@,
                ),
                Err(e) => self.spec_read(index_type, entry_id) == Err::<Seq<u8>, FileSystemError>(
                    e,
                ),
            },
    {
        let index = match self.index(index_type) {
            Ok(idx) => idx,
            Err(e) => {
                return Err(e);
            },
        };
        let index_entry = match index.entry(entry_id) {
            Ok(entry) => entry,
            Err(e) => {
                return Err(e);
            },
        };
        let index_id: u8 = index.index_type().id();
        let ghost data = self.spec_data();
        let ghost size0 = index_entry.size;
        let mut buffer: Vec<u8> = Vec::new();
        let mut block: u64 = index_entry.offset();
        let mut remaining_bytes: u32 = index_entry.size();
        let mut current_sequence: u32 = 0;
        let large = entry_id > 65535;
        let block_header_size: u64 = if large {
            BLOCK_HEADER_EXTENDED_SIZE as u64
        } else {
            BLOCK_HEADER_SIZE as u64
        };
        let block_chunk_size: u32 = if large {
            BLOCK_CHUNK_EXTENDED_SIZE
        } else {
            BLOCK_CHUNK_SIZE
        };
        proof {
            assert(size0 < 0x1000000 && block < 0x1000000) by {
                assert(index_entry == index.spec_entry(entry_id)->Ok_0);
            };
        }
        while remaining_bytes > 0
            invariant
                data == self.spec_data(),
                find_index_in(self.spec_indices(), index_type.spec_id()) == Some(*index),
                index.spec_entry(entry_id) == Ok::<IndexEntry, FileSystemError>(index_entry),
                index_id == index.spec_id(),
                size0 == index_entry.size,
                large == spec_large(entry_id),
                block_header_size == if large { 10int } else { 8int },
                block_chunk_size == if large { 510u32 } else { 512u32 },
                size0 < 0x1000000,
                block < 0x1000000,
                remaining_bytes <= size0,
                current_sequence <= size0 - remaining_bytes,
                buffer@.len() == size0 - remaining_bytes,
                spec_walk(data, index_id, entry_id, size0 as int, index_entry.offset as int, 0)
                    == (match spec_walk(data, index_id, entry_id, remaining_bytes as int,
                    block as int, current_sequence as int) {
                    Ok(rest) => Ok::<Seq<u8>, FileSystemError>(buffer@ + rest),
                    Err(e) => Err::<Seq<u8>, FileSystemError>(e),
                }),
            decreases remaining_bytes,
        {
            let base: u64 = block * TOTAL_BLOCK_SIZE;
            let (hdr_entry, hdr_seq, next_block, hdr_index): (u32, u32, u32, u8) = if large {
                (
                    read_be_u32_padded(&self.main_data_file, base),
                    read_be_u16_padded(&self.main_data_file, base + 4),
                    read_be_u24_padded(&self.main_data_file, base + 6),
                    padded_byte(&self.main_data_file, base + 9),
                )
            } else {
                (
                    read_be_u16_padded(&self.main_data_file, base),
                    read_be_u16_padded(&self.main_data_file, base + 2),
                    read_be_u24_padded(&self.main_data_file, base + 4),
                    padded_byte(&self.main_data_file, base + 7),
                )
            };
            proof {
                let h = spec_chain_header(data, block as int, large);
                assert(h.next_entry_id == hdr_entry && h.next_sequence == hdr_seq && h.next_block
                    == next_block && h.next_index_id == hdr_index);
            }
            if (hdr_index as u32) != (index_id as u32) + 1 {
                return Err(
                    FileSystemError::SectorReadingDataMismatch {
                        data_type: SectorDataKind::Category,
                        expected: (index_id as usize) + 1,
                        actual: hdr_index as usize,
                    },
                );
            }
            if hdr_seq != current_sequence {
                return Err(
                    FileSystemError::SectorReadingDataMismatch {
                        data_type: SectorDataKind::Sequence,
                        expected: current_sequence as usize,
                        actual: hdr_seq as usize,
                    },
                );
            }
            if hdr_entry != entry_id {
                return Err(
                    FileSystemError::SectorReadingDataMismatch {
                        data_type: SectorDataKind::EntryId,
                        expected: entry_id as usize,
                        actual: hdr_entry as usize,
                    },
                );
            }
            let take: u32 = if remaining_bytes < block_chunk_size {
                remaining_bytes
            } else {
                block_chunk_size
            };
            let ghost buffer_before = buffer@;
            for j in 0..take
                invariant
                    base == block * 520,
                    block_header_size == if large { 10int } else { 8int },
                    block < 0x1000000,
                    buffer@ =~= buffer_before + spec_sector_payload(data, block as int, large,
                        j as int),
                    data == self.spec_data(),
            {
                buffer.push(padded_byte(&self.main_data_file, base + block_header_size + (
                j as u64)));
                assert(buffer@ =~= buffer_before + spec_sector_payload(data, block as int, large,
                    j + 1));
            }
            proof {
                let rem = remaining_bytes as int;
                let h = spec_chain_header(data, block as int, large);
                let payload = spec_sector_payload(data, block as int, large, take as int);
                assert(spec_walk(data, index_id, entry_id, rem, block as int,
                    current_sequence as int) == (
                match spec_walk(data, index_id, entry_id, rem - take, h.next_block as int,
                    current_sequence as int + 1) {
                    Ok(rest) => Ok::<Seq<u8>, FileSystemError>(payload + rest),
                    Err(e) => Err::<Seq<u8>, FileSystemError>(e),
                }));
                let w = spec_walk(data, index_id, entry_id, rem - take, h.next_block as int,
                    current_sequence as int + 1);
                if w is Ok {
                    let rest = w->Ok_0;
                    assert(buffer_before + (payload + rest) =~= (buffer_before + payload) + rest);
                }
            }
            remaining_bytes = remaining_bytes - take;
            block = next_block as u64;
            current_sequence = current_sequence + 1;
        }
        proof {
            assert(buffer@ + Seq::<u8>::empty() =~= buffer@);
        }
        Ok(buffer)
    }
}

/// Law: a walk that succeeds returns exactly `remaining` bytes, so a
/// successful read returns exactly the size recorded in the index entry.
pub proof fn lemma_walk_len(
    data: Seq<u8>,
    index_id: u8,
    entry_id: u32,
    remaining: int,
    sector: int,
    sequence: int,
)
    requires
        remaining >= 0,
    ensures
        spec_walk(data, index_id, entry_id, remaining, sector, sequence) matches Ok(s)
            ==> s.len() == remaining,
    decreases remaining,
{
    if remaining > 0 {
        let large = spec_large(entry_id);
        let h = spec_chain_header(data, sector, large);
        let chunk = if large {
            BLOCK_CHUNK_EXTENDED_SIZE as int
        } else {
            BLOCK_CHUNK_SIZE as int
        };
        let take = if remaining < chunk {
            remaining
        } else {
            chunk
        };
        lemma_walk_len(data, index_id, entry_id, remaining - take, h.next_block as int,
            sequence + 1);
    }
}

/// Law: a successful read of a present entry returns exactly the byte count
/// recorded in that entry's index record.
pub proof fn lemma_read_size(fs: FileSystem, index_type: IndexType, entry_id: u32)
    ensures
        ({
            &&& find_index_in(fs.spec_indices(), index_type.spec_id()) matches Some(idx)
            &&& idx.spec_entry(entry_id) matches Ok(entry)
            &&& fs.spec_read(index_type, entry_id) matches Ok(buf)
        }) ==> ({
            let idx = find_index_in(fs.spec_indices(), index_type.spec_id())->Some_0;
            let entry = idx.spec_entry(entry_id)->Ok_0;
            let buf = fs.spec_read(index_type, entry_id)->Ok_0;
            buf.len() == entry.size
        }),
{
    let found = find_index_in(fs.spec_indices(), index_type.spec_id());
    if found is Some {
        let idx = found->Some_0;
        let looked = idx.spec_entry(entry_id);
        if looked is Ok {
            let entry = looked->Ok_0;
            lemma_walk_len(
                fs.spec_data(),
                idx.spec_id(),
                entry_id,
                entry.size as int,
                entry.offset as int,
                0,
            );
        }
    }
}

/// The sectors a walk visits, in order: the walk starts at `sector` and
/// follows each header's next-sector pointer until `remaining` payload bytes
/// are accounted for.
pub open spec fn spec_chain(data: Seq<u8>, entry_id: u32, remaining: int, sector: int) -> Seq<int>
    decreases remaining,
{
    if remaining <= 0 {
        Seq::empty()
    } else {
        let large = spec_large(entry_id);
        let h = spec_chain_header(data, sector, large);
        let chunk = if large {
            BLOCK_CHUNK_EXTENDED_SIZE as int
        } else {
            BLOCK_CHUNK_SIZE as int
        };
        let take = if remaining < chunk {
            remaining
        } else {
            chunk
        };
        seq![sector] + spec_chain(data, entry_id, remaining - take, h.next_block as int)
    }
}

/// Law: when a walk succeeds, every sector it visited carried the owning
/// category plus one, the running sequence number, and the entry id in its
/// header.
pub proof fn lemma_walk_headers(
    data: Seq<u8>,
    index_id: u8,
    entry_id: u32,
    remaining: int,
    sector: int,
    sequence: int,
)
    ensures
        spec_walk(data, index_id, entry_id, remaining, sector, sequence) is Ok ==> ({
            let chain = spec_chain(data, entry_id, remaining, sector);
            forall|k: int|
                0 <= k < chain.len() ==> {
                    &&& spec_chain_header(data, #[trigger] chain[k], spec_large(entry_id)).next_index_id
                        == index_id + 1
                    &&& spec_chain_header(data, chain[k], spec_large(entry_id)).next_sequence
                        == sequence + k
                    &&& spec_chain_header(data, chain[k], spec_large(entry_id)).next_entry_id
                        == entry_id
                }
        }),
    decreases (if remaining > 0 { remaining } else { 0 }),
{
    if remaining > 0 && spec_walk(data, index_id, entry_id, remaining, sector, sequence) is Ok {
        let large = spec_large(entry_id);
        let h = spec_chain_header(data, sector, large);
        let chunk = if large {
            BLOCK_CHUNK_EXTENDED_SIZE as int
        } else {
            BLOCK_CHUNK_SIZE as int
        };
        let take = if remaining < chunk {
            remaining
        } else {
            chunk
        };
        lemma_walk_headers(data, index_id, entry_id, remaining - take, h.next_block as int,
            sequence + 1);
        let chain = spec_chain(data, entry_id, remaining, sector);
        let tail = spec_chain(data, entry_id, remaining - take, h.next_block as int);
        assert forall|k: int| 0 <= k < chain.len() implies {
            &&& spec_chain_header(data, #[trigger] chain[k], spec_large(entry_id)).next_index_id
                == index_id + 1
            &&& spec_chain_header(data, chain[k], spec_large(entry_id)).next_sequence == sequence
                + k
            &&& spec_chain_header(data, chain[k], spec_large(entry_id)).next_entry_id == entry_id
        } by {
            if k == 0 {
                assert(chain[0] == sector);
            } else {
                assert(chain[k] == tail[k - 1]);
            }
        }
    }
}

} // verus!
