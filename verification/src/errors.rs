use vstd::prelude::*;

use crate::index::IndexType;

verus! {

/// Names the sector-header field whose integrity check failed while a sector
/// chain was being walked.
#[derive(Debug, Clone, Copy, PartialEq, Eq, Structural)]
pub enum SectorDataKind {
    Category,
    Sequence,
    EntryId,
}

/// Errors of the compression codec.
#[derive(Debug, Clone, PartialEq, Eq)]
pub enum CompressionError {
    /// The underlying decoder reported a failure.
    Io,
    /// No bytes were given to decompress.
    EmptyCompressedDataGiven,
    /// Fewer bytes were given than the smallest well-formed input.
    InvalidCompressedDataLengthGiven { given: usize, expected_at_least: usize },
    /// The input does not begin with the gzip magic bytes.
    InvalidGZIPHeader,
}

/// Errors of the cache file system.
#[derive(Debug, Clone, PartialEq, Eq)]
pub enum FileSystemError {
    /// A codec failure while decompressing archive contents.
    CompressionError(CompressionError),
    /// A read ran past the end of the available bytes.
    Io,
    /// The archive decoder was given zero bytes.
    EmptyArchiveDataGiven,
    /// The main data file was absent when the cache directory was opened.
    DataFileNotFound(String),
    /// No index exists for the requested category.
    IndexNotFound { index_type: IndexType },
    /// The entry id points past the end of the index file.
    IndexEntryNotFound(u32),
    /// The archive-category read failed for this archive id.
    ArchiveNotFound(u32),
    /// A sector-header slice was neither 8 nor 10 bytes long.
    InvalidBlockHeaderLength(usize),
    /// An in-band integrity check failed inside the sector chain.
    SectorReadingDataMismatch { data_type: SectorDataKind, expected: usize, actual: usize },
}

} // verus!
