use vstd::prelude::*;

use crate::bytebuffer::{be_u16_at, be_u32_at};
use crate::errors::FileSystemError;

verus! {

/// Names of the version side-tables kept in the versions archive.
pub const DEFAULT_VERSION_ENTRY_NAMES: [&'static str; 4] = [
    "model_version",
    "anim_version",
    "midi_version",
    "map_version",
];

/// Names of the CRC side-tables kept in the versions archive.
pub const DEFAULT_CRC_ENTRY_NAMES: [&'static str; 4] = [
    "model_crc",
    "anim_crc",
    "midi_crc",
    "map_crc",
];

/// A length-prefixed table of per-file versions: `len / 2` big-endian 16-bit
/// values.
#[derive(Debug)]
pub struct VersionList {
    versions: Vec<u32>,
}

impl VersionList {
    /// The decoded versions.
    pub closed spec fn spec_versions(&self) -> Seq<u32> {
        self.versions@
    }

    /// Decodes `len / 2` big-endian 16-bit versions from the front of
    /// `data`.
    pub fn decode(data: &[u8], len: usize) -> (r: Result<VersionList, FileSystemError>)
        ensures
            match r {
                Ok(v) => {
                    &&& 2 * (len / 2) <= data@.len()
                    &&& v.spec_versions().len() == len / 2
                    &&& forall|i: int|
                        0 <= i < len / 2 ==> v.spec_versions()[i] == be_u16_at(data@, 2 * i)
                },
                Err(e) => {
                    &&& e == FileSystemError::Io
                    &&& 2 * (len / 2) > data@.len()
                },
            },
    {
        let count = len / 2;
        if 2 * count > data.len() {
            return Err(FileSystemError::Io);
        }
        let mut versions: Vec<u32> = Vec::new();
        for i in 0..count
            invariant
                2 * count <= data@.len(),
                2 * count <= usize::MAX,
                versions@.len() == i,
                forall|t: int| 0 <= t < i ==> versions@[t] == be_u16_at(data@, 2 * t),
        {
            let hi = data[2 * i];
            let lo = data[2 * i + 1];
            versions.push((hi as u32) * 0x100 + (lo as u32));
        }
        Ok(VersionList { versions })
    }

    /// The version of `file_id`, if the table reaches that far.
    pub fn get(&self, file_id: u32) -> (r: Option<&u32>)
        ensures
            match r {
                Some(v) => file_id < self.spec_versions().len() && *v == self.spec_versions()[
                    file_id as int
                ],
                None => file_id >= self.spec_versions().len(),
            },
    {
        if (file_id as usize) < self.versions.len() {
            Some(&self.versions[file_id as usize])
        } else {
            None
        }
    }

    /// The number of versions in the table.
    pub fn len(&self) -> (r: usize)
        ensures
            r == self.spec_versions().len(),
    {
        self.versions.len()
    }
}

/// A length-prefixed table of per-file checksums: `len / 4` big-endian
/// 32-bit values.
#[derive(Debug)]
pub struct CrcList {
    crcs: Vec<u32>,
}

impl CrcList {
    /// The decoded checksums.
    pub closed spec fn spec_crcs(&self) -> Seq<u32> {
        self.crcs@
    }

    /// Decodes `len / 4` big-endian 32-bit checksums from the front of
    /// `data`.
    pub fn decode(data: &[u8], len: usize) -> (r: Result<CrcList, FileSystemError>)
        ensures
            match r {
                Ok(v) => {
                    &&& 4 * (len / 4) <= data@.len()
                    &&& v.spec_crcs().len() == len / 4
                    &&& forall|i: int|
                        0 <= i < len / 4 ==> v.spec_crcs()[i] == be_u32_at(data@, 4 * i)
                },
                Err(e) => {
                    &&& e == FileSystemError::Io
                    &&& 4 * (len / 4) > data@.len()
                },
            },
    {
        let count = len / 4;
        if 4 * count > data.len() {
            return Err(FileSystemError::Io);
        }
        let mut crcs: Vec<u32> = Vec::new();
        for i in 0..count
            invariant
                4 * count <= data@.len(),
                4 * count <= usize::MAX,
                crcs@.len() == i,
                forall|t: int| 0 <= t < i ==> crcs@[t] == be_u32_at(data@, 4 * t),
        {
            let b0 = data[4 * i];
            let b1 = data[4 * i + 1];
            let b2 = data[4 * i + 2];
            let b3 = data[4 * i + 3];
            crcs.push(
                (b0 as u32) * 0x1000000 + (b1 as u32) * 0x10000 + (b2 as u32) * 0x100 + (
                b3 as u32),
            );
        }
        Ok(CrcList { crcs })
    }

    /// The checksum of `file_id`, if the table reaches that far.
    pub fn get(&self, file_id: u32) -> (r: Option<&u32>)
        ensures
            match r {
                Some(v) => file_id < self.spec_crcs().len() && *v == self.spec_crcs()[
                    file_id as int
                ],
                None => file_id >= self.spec_crcs().len(),
            },
    {
        if (file_id as usize) < self.crcs.len() {
            Some(&self.crcs[file_id as usize])
        } else {
            None
        }
    }

    /// The number of checksums in the table.
    pub fn len(&self) -> (r: usize)
        ensures
            r == self.spec_crcs().len(),
    {
        self.crcs.len()
    }
}

} // verus!
