use vstd::prelude::*;

use crate::bytebuffer::{as_signed_32, be_u16_at, be_u24_at, be_u32_at, ByteBuffer, ByteBufferExt};
use crate::compression::{decompress_bzip2, spec_decompress_bzip2};
use crate::errors::FileSystemError;
use crate::str::{name_hash, spec_name_hash};

verus! {

/// Size of the archive wire header: two 3-byte sizes.
pub const ARCHIVE_HEADER_SIZE: usize = 6;

/// The archive wire header: the container's size before and after the
/// optional whole-archive compression.  The two sizes differ exactly when the
/// remainder of the container is one bzip2 stream.
#[derive(Debug, Clone, Copy, PartialEq, Eq, Structural)]
struct ArchiveHeader {
    decompressed_size: u32,
    compressed_size: u32,
}

/// One named sub-file of an archive: its 32-bit signed name hash, the two
/// sizes from its wire descriptor, and its decompressed payload.
#[derive(Debug)]
pub struct ArchiveEntry {
    identifier: i32,
    uncompressed_size: u32,
    compressed_size: u32,
    uncompressed_data: Vec<u8>,
}

impl ArchiveEntry {
    /// The 32-bit signed name hash keying this entry.
    pub closed spec fn spec_identifier(&self) -> i32 {
        self.identifier
    }

    /// The decompressed payload.
    pub closed spec fn spec_data(&self) -> Seq<u8> {
        self.uncompressed_data@
    }

    /// The size the wire descriptor promised for the decompressed payload.
    pub closed spec fn spec_uncompressed_size(&self) -> u32 {
        self.uncompressed_size
    }

    /// The size the wire descriptor gave for the stored payload.
    pub closed spec fn spec_compressed_size(&self) -> u32 {
        self.compressed_size
    }

    pub fn uncompressed_data(&self) -> (r: &[u8])
        ensures
            r@ == self.spec_data(),
    {
        self.uncompressed_data.as_slice()
    }

    pub fn identifier(&self) -> (r: i32)
        ensures
            r == self.spec_identifier(),
    {
        self.identifier
    }
}

/// The identifier of the `k`-th wire descriptor behind `dbase`.
pub open spec fn spec_descriptor_id(buf: Seq<u8>, dbase: int, k: int) -> i32 {
    as_signed_32(be_u32_at(buf, dbase + 10 * k)) as i32
}

/// The uncompressed size of the `k`-th wire descriptor behind `dbase`.
pub open spec fn spec_descriptor_unc(buf: Seq<u8>, dbase: int, k: int) -> int {
    be_u24_at(buf, dbase + 10 * k + 4)
}

/// The compressed size of the `k`-th wire descriptor behind `dbase`.
pub open spec fn spec_descriptor_comp(buf: Seq<u8>, dbase: int, k: int) -> int {
    be_u24_at(buf, dbase + 10 * k + 7)
}

/// The entries decoded from position `pos` on, given the descriptor block at
/// `dbase` holding `n` descriptors of which the first `k` are already done.
/// Pre-extracted archives store each payload verbatim; the others store each
/// payload as a headerless bzip2 stream.
pub open spec fn spec_entry_seq(
    buf: Seq<u8>,
    dbase: int,
    n: int,
    k: int,
    pos: int,
    extracted: bool,
) -> Result<Seq<(i32, Seq<u8>)>, FileSystemError>
    decreases n - k,
{
    if k >= n {
        Ok(Seq::empty())
    } else {
        let id = spec_descriptor_id(buf, dbase, k);
        let unc = spec_descriptor_unc(buf, dbase, k);
        let comp = spec_descriptor_comp(buf, dbase, k);
        if extracted {
            if pos + unc > buf.len() {
                Err(FileSystemError::Io)
            } else {
                match spec_entry_seq(buf, dbase, n, k + 1, pos + unc, extracted) {
                    Ok(rest) => Ok(seq![(id, buf.subrange(pos, pos + unc))] + rest),
                    Err(e) => Err(e),
                }
            }
        } else {
            if pos + comp > buf.len() {
                Err(FileSystemError::Io)
            } else {
                match spec_decompress_bzip2(buf.subrange(pos, pos + comp), unc as nat) {
                    Err(ce) => Err(FileSystemError::CompressionError(ce)),
                    Ok(d) => match spec_entry_seq(buf, dbase, n, k + 1, pos + comp, extracted) {
                        Ok(rest) => Ok(seq![(id, d)] + rest),
                        Err(e) => Err(e),
                    },
                }
            }
        }
    }
}

/// The entries decoded from a working buffer whose archive body starts at
/// `pos`: a 2-byte count, then the packed descriptor block, then the payloads
/// in the same order.
pub open spec fn spec_decode_from(buf: Seq<u8>, pos: int, extracted: bool) -> Result<
    Seq<(i32, Seq<u8>)>,
    FileSystemError,
> {
    if pos + 2 > buf.len() {
        Err(FileSystemError::Io)
    } else {
        let n = be_u16_at(buf, pos);
        if pos + 2 + 10 * n > buf.len() {
            Err(FileSystemError::Io)
        } else {
            spec_entry_seq(buf, pos + 2, n, 0, pos + 2 + 10 * n, extracted)
        }
    }
}

/// The entries decoded from raw archive bytes, in wire order with duplicates
/// kept.  Empty input is rejected; when the header's two sizes differ the
/// remainder is first decompressed as one bzip2 stream.
pub open spec fn spec_decode(input: Seq<u8>) -> Result<Seq<(i32, Seq<u8>)>, FileSystemError> {
    if input.len() == 0 {
        Err(FileSystemError::EmptyArchiveDataGiven)
    } else if input.len() < 6 {
        Err(FileSystemError::Io)
    } else {
        let unc = be_u24_at(input, 0);
        let comp = be_u24_at(input, 3);
        if unc != comp {
            if 6 + comp > input.len() {
                Err(FileSystemError::Io)
            } else {
                match spec_decompress_bzip2(input.subrange(6, 6 + comp), unc as nat) {
                    Err(ce) => Err(FileSystemError::CompressionError(ce)),
                    Ok(body) => spec_decode_from(body, 0, true),
                }
            }
        } else {
            spec_decode_from(input, 6, false)
        }
    }
}

/// The identifier-to-payload pairs of a sequence of entries.
pub open spec fn entry_pairs(s: Seq<ArchiveEntry>) -> Seq<(i32, Seq<u8>)> {
    s.map_values(|e: ArchiveEntry| (e.spec_identifier(), e.spec_data()))
}

/// The map a sequence of pairs builds up, later pairs overwriting earlier
/// ones with the same identifier.
pub open spec fn pairs_to_map(s: Seq<(i32, Seq<u8>)>) -> Map<i32, Seq<u8>>
    decreases s.len(),
{
    if s.len() == 0 {
        Map::empty()
    } else {
        pairs_to_map(s.drop_last()).insert(s.last().0, s.last().1)
    }
}

/// True when no two entries share an identifier.
pub open spec fn distinct_identifiers(s: Seq<ArchiveEntry>) -> bool {
    forall|i: int, j: int|
        0 <= i < j < s.len() ==> #[trigger] s[i].spec_identifier() != #[trigger] s[
            j
        ].spec_identifier()
}

/// A decoded container of named sub-files, keyed by name hash.
#[derive(Debug)]
pub struct Archive {
    entries: Vec<ArchiveEntry>,
    header: ArchiveHeader,
}

impl Archive {
    /// The decoded entries, one per identifier.
    pub closed spec fn spec_entries(&self) -> Seq<ArchiveEntry> {
        self.entries@
    }

    /// Well-formedness: identifiers are unique and every payload is exactly
    /// as long as its descriptor promised.
    pub open spec fn wf(&self) -> bool {
        &&& distinct_identifiers(self.spec_entries())
        &&& forall|i: int|
            0 <= i < self.spec_entries().len() ==> (#[trigger] self.spec_entries()[i]).spec_data().len()
                == self.spec_entries()[i].spec_uncompressed_size()
    }

    /// The identifier-to-payload map this archive holds.
    pub open spec fn spec_map(&self) -> Map<i32, Seq<u8>> {
        pairs_to_map(entry_pairs(self.spec_entries()))
    }

    /// Looks an entry up by the name hash of `name`.
    pub fn entry_name(&self, name: &str) -> (r: Option<&ArchiveEntry>)
        ensures
            match r {
                Some(e) => exists|i: int|
                    0 <= i < self.spec_entries().len() && self.spec_entries()[i] == *e
                        && e.spec_identifier() == spec_name_hash(name@),
                None => forall|i: int|
                    0 <= i < self.spec_entries().len()
                        ==> (#[trigger] self.spec_entries()[i]).spec_identifier() != spec_name_hash(
                        name@,
                    ),
            },
            self.wf() ==> (r is Some <==> self.spec_map().contains_key(spec_name_hash(name@))),
            self.wf() ==> (r matches Some(e) ==> self.spec_map()[spec_name_hash(name@)]
                == e.spec_data()),
    {
        self.entry_hash(name_hash(name))
    }

    /// Looks an entry up by its 32-bit signed identifier.
    pub fn entry_hash(&self, identifier: i32) -> (r: Option<&ArchiveEntry>)
        ensures
            match r {
                Some(e) => exists|i: int|
                    0 <= i < self.spec_entries().len() && self.spec_entries()[i] == *e
                        && e.spec_identifier() == identifier,
                None => forall|i: int|
                    0 <= i < self.spec_entries().len()
                        ==> (#[trigger] self.spec_entries()[i]).spec_identifier() != identifier,
            },
            self.wf() ==> (r is Some <==> self.spec_map().contains_key(identifier)),
            self.wf() ==> (r matches Some(e) ==> self.spec_map()[identifier] == e.spec_data()),
    {
        let n = self.entries.len();
        for i in 0..n
            invariant
                n == self.spec_entries().len(),
                forall|t: int|
                    0 <= t < i ==> (#[trigger] self.spec_entries()[t]).spec_identifier()
                        != identifier,
        {
            if self.entries[i].identifier == identifier {
                proof {
                    if self.wf() {
                        lemma_map_of_entry(self.spec_entries(), i as int);
                    }
                }
                return Some(&self.entries[i]);
            }
        }
        proof {
            lemma_map_no_entry(self.spec_entries(), identifier);
        }
        None
    }

    /// The number of distinct entries this archive holds.
    pub fn entry_count(&self) -> (r: usize)
        ensures
            r == self.spec_entries().len(),
    {
        self.entries.len()
    }
}

/// For entries with distinct identifiers, the map built from them sends
/// entry `i`'s identifier to entry `i`'s payload.
proof fn lemma_map_of_entry(s: Seq<ArchiveEntry>, i: int)
    requires
        0 <= i < s.len(),
        distinct_identifiers(s),
    ensures
        pairs_to_map(entry_pairs(s)).contains_key(s[i].spec_identifier()),
        pairs_to_map(entry_pairs(s))[s[i].spec_identifier()] == s[i].spec_data(),
    decreases s.len(),
{
    let pairs = entry_pairs(s);
    let sd = s.drop_last();
    assert(pairs.drop_last() =~= entry_pairs(sd));
    assert(pairs.last().0 == s.last().spec_identifier());
    assert(pairs.last().1 == s.last().spec_data());
    if i == s.len() - 1 {
    } else {
        lemma_distinct_drop_last(s);
        assert(sd[i] == s[i]);
        lemma_map_of_entry(sd, i);
        assert(s[i].spec_identifier() != s.last().spec_identifier());
    }
}

/// When no entry carries `id`, the map built from the entries has no key
/// `id` either.
proof fn lemma_map_no_entry(s: Seq<ArchiveEntry>, id: i32)
    requires
        forall|t: int| 0 <= t < s.len() ==> (#[trigger] s[t].spec_identifier()) != id,
    ensures
        !pairs_to_map(entry_pairs(s)).contains_key(id),
    decreases s.len(),
{
    let pairs = entry_pairs(s);
    if s.len() == 0 {
        assert(pairs.len() == 0);
    } else {
        let sd = s.drop_last();
        assert(pairs.drop_last() =~= entry_pairs(sd));
        assert(forall|t: int| 0 <= t < sd.len() ==> (#[trigger] sd[t].spec_identifier()) != id)
            by {
            assert(forall|t: int| 0 <= t < sd.len() ==> sd[t] == s[t]);
        }
        lemma_map_no_entry(sd, id);
        assert(pairs.last().0 == s[s.len() - 1].spec_identifier());
    }
}

/// Distinct identifiers survive dropping the last entry.
proof fn lemma_distinct_drop_last(s: Seq<ArchiveEntry>)
    requires
        s.len() > 0,
        distinct_identifiers(s),
    ensures
        distinct_identifiers(s.drop_last()),
{
    let sd = s.drop_last();
    assert forall|i: int, j: int| 0 <= i < j < sd.len() implies #[trigger] sd[i].spec_identifier()
        != #[trigger] sd[j].spec_identifier() by {
        assert(sd[i] == s[i]);
        assert(sd[j] == s[j]);
    }
}


/// Appending a pair to a pair sequence inserts it into the built map.
proof fn lemma_pairs_push(s: Seq<(i32, Seq<u8>)>, p: (i32, Seq<u8>))
    ensures
        pairs_to_map(s.push(p)) == pairs_to_map(s).insert(p.0, p.1),
{
    assert(s.push(p).drop_last() =~= s);
    assert(s.push(p).last() == p);
}

/// Appending an entry to an entry sequence inserts its pair into the built
/// map.
proof fn lemma_entries_push(s: Seq<ArchiveEntry>, e: ArchiveEntry)
    ensures
        pairs_to_map(entry_pairs(s.push(e))) == pairs_to_map(entry_pairs(s)).insert(
            e.spec_identifier(),
            e.spec_data(),
        ),
{
    assert(entry_pairs(s.push(e)).drop_last() =~= entry_pairs(s));
    assert(entry_pairs(s.push(e)).last() == (e.spec_identifier(), e.spec_data()));
}

/// Overwriting the entry that already carries an identifier inserts the new
/// pair into the built map.
proof fn lemma_entries_update(s: Seq<ArchiveEntry>, j: int, e: ArchiveEntry)
    requires
        0 <= j < s.len(),
        distinct_identifiers(s),
        s[j].spec_identifier() == e.spec_identifier(),
    ensures
        pairs_to_map(entry_pairs(s.update(j, e))) == pairs_to_map(entry_pairs(s)).insert(
            e.spec_identifier(),
            e.spec_data(),
        ),
    decreases s.len(),
{
    let t = s.update(j, e);
    let sd = s.drop_last();
    assert(entry_pairs(t).drop_last() =~= entry_pairs(t.drop_last()));
    assert(entry_pairs(s).drop_last() =~= entry_pairs(sd));
    if j == s.len() - 1 {
        assert(t.drop_last() =~= sd);
        assert(t.last() == e);
        assert(pairs_to_map(entry_pairs(sd)).insert(s.last().spec_identifier(),
            s.last().spec_data()).insert(e.spec_identifier(), e.spec_data()) =~= pairs_to_map(
            entry_pairs(sd),
        ).insert(e.spec_identifier(), e.spec_data()));
    } else {
        lemma_distinct_drop_last(s);
        assert(t.drop_last() =~= sd.update(j, e));
        assert(sd[j] == s[j]);
        lemma_entries_update(sd, j, e);
        assert(t.last() == s.last());
        assert(s[j].spec_identifier() != s.last().spec_identifier());
        assert(pairs_to_map(entry_pairs(sd)).insert(e.spec_identifier(), e.spec_data()).insert(
            s.last().spec_identifier(),
            s.last().spec_data(),
        ) =~= pairs_to_map(entry_pairs(sd)).insert(s.last().spec_identifier(),
            s.last().spec_data()).insert(e.spec_identifier(), e.spec_data()));
    }
}

/// Distinct identifiers survive overwriting an entry with one that carries
/// the same identifier.
proof fn lemma_distinct_update(s: Seq<ArchiveEntry>, j: int, e: ArchiveEntry)
    requires
        0 <= j < s.len(),
        distinct_identifiers(s),
        s[j].spec_identifier() == e.spec_identifier(),
    ensures
        distinct_identifiers(s.update(j, e)),
{
    let t = s.update(j, e);
    assert forall|i: int, k: int| 0 <= i < k < t.len() implies #[trigger] t[i].spec_identifier()
        != #[trigger] t[k].spec_identifier() by {
        assert(s[i].spec_identifier() != s[k].spec_identifier());
    }
}

/// Distinct identifiers survive appending an entry whose identifier is new.
proof fn lemma_distinct_push(s: Seq<ArchiveEntry>, e: ArchiveEntry)
    requires
        distinct_identifiers(s),
        forall|t: int| 0 <= t < s.len() ==> (#[trigger] s[t].spec_identifier())
            != e.spec_identifier(),
    ensures
        distinct_identifiers(s.push(e)),
{
    let t = s.push(e);
    assert forall|i: int, k: int| 0 <= i < k < t.len() implies #[trigger] t[i].spec_identifier()
        != #[trigger] t[k].spec_identifier() by {
        if k < s.len() {
            assert(s[i].spec_identifier() != s[k].spec_identifier());
        } else {
            assert(t[i] == s[i]);
        }
    }
}

/// The position of the entry carrying `identifier`, if one does.
fn find_entry_position(entries: &Vec<ArchiveEntry>, identifier: i32) -> (r: Option<usize>)
    ensures
        match r {
            Some(j) => j < entries@.len() && entries@[j as int].spec_identifier() == identifier,
            None => forall|t: int|
                0 <= t < entries@.len() ==> (#[trigger] entries@[t].spec_identifier())
                    != identifier,
        },
{
    let n = entries.len();
    for j in 0..n
        invariant
            n == entries@.len(),
            forall|t: int|
                0 <= t < j ==> (#[trigger] entries@[t].spec_identifier()) != identifier,
    {
        if entries[j].identifier == identifier {
            return Some(j);
        }
    }
    None
}

impl Archive {
    /// Decodes raw archive bytes, undoing the whole-archive envelope or the
    /// per-entry compression as the header dictates; on duplicate identifiers
    /// the last entry wins.
    #[verifier::rlimit(50)]
    pub fn decode(buffer: Vec<u8>) -> (r: Result<Archive, FileSystemError>)
        ensures
            match r {
                Ok(a) => {
                    &&& spec_decode(buffer@) matches Ok(pairs) && a.spec_map() == pairs_to_map(
                        pairs,
                    )
                    &&& a.wf()
                },
                Err(e) => spec_decode(buffer@) == Err::<Seq<(i32, Seq<u8>)>, FileSystemError>(e),
            },
    {
        let ghost input = buffer@;
        if buffer.len() == 0 {
            return Err(FileSystemError::EmptyArchiveDataGiven);
        }
        let mut buf = ByteBuffer::new(buffer);
        let decompressed_size: u32 = match buf.read_tri_byte() {
            Ok(v) => v,
            Err(e) => {
                return Err(e);
            },
        };
        let compressed_size: u32 = match buf.read_tri_byte() {
            Ok(v) => v,
            Err(e) => {
                return Err(e);
            },
        };
        let mut extracted = false;
        if decompressed_size != compressed_size {
            let compressed_data = match buf.read_bytes(compressed_size as usize) {
                Ok(v) => v,
                Err(e) => {
                    return Err(e);
                },
            };
            let body = match decompress_bzip2(compressed_data, decompressed_size as usize) {
                Ok(d) => d,
                Err(ce) => {
                    return Err(FileSystemError::CompressionError(ce));
                },
            };
            buf = ByteBuffer::new(body);
            extracted = true;
        }
        let ghost wbuf = buf.spec_data();
        let ghost wpos = buf.spec_pos();
        proof {
            assert(spec_decode(input) == spec_decode_from(wbuf, wpos, extracted));
        }
        let entries_count_u16: u16 = match buf.read_u16() {
            Ok(v) => v,
            Err(e) => {
                return Err(e);
            },
        };
        let entries_count: usize = entries_count_u16 as usize;
        let ghost dbase = wpos + 2;
        let mut identifiers: Vec<i32> = Vec::new();
        let mut uncompressed_sizes: Vec<u32> = Vec::new();
        let mut compressed_sizes: Vec<u32> = Vec::new();
        for k in 0..entries_count
            invariant
                input == buffer@,
                buf.spec_data() == wbuf,
                buf.spec_pos() == dbase + 10 * (k as int),
                dbase == wpos + 2,
                0 <= wpos,
                dbase + 10 * (k as int) <= wbuf.len(),
                spec_decode(input) == spec_decode_from(wbuf, wpos, extracted),
                entries_count == be_u16_at(wbuf, wpos),
                identifiers@.len() == k,
                uncompressed_sizes@.len() == k,
                compressed_sizes@.len() == k,
                forall|t: int|
                    0 <= t < k ==> #[trigger] identifiers@[t] == spec_descriptor_id(wbuf, dbase,
                    t),
                forall|t: int|
                    0 <= t < k ==> #[trigger] uncompressed_sizes@[t] == spec_descriptor_unc(wbuf,
                    dbase, t),
                forall|t: int|
                    0 <= t < k ==> #[trigger] compressed_sizes@[t] == spec_descriptor_comp(wbuf,
                    dbase, t),
        {
            let ident = match buf.read_i32() {
                Ok(v) => v,
                Err(e) => {
                    proof {
                        assert(wpos + 2 + 10 * be_u16_at(wbuf, wpos) > wbuf.len());
                    }
                    return Err(e);
                },
            };
            let unc = match buf.read_tri_byte() {
                Ok(v) => v,
                Err(e) => {
                    proof {
                        assert(wpos + 2 + 10 * be_u16_at(wbuf, wpos) > wbuf.len());
                    }
                    return Err(e);
                },
            };
            let comp = match buf.read_tri_byte() {
                Ok(v) => v,
                Err(e) => {
                    proof {
                        assert(wpos + 2 + 10 * be_u16_at(wbuf, wpos) > wbuf.len());
                    }
                    return Err(e);
                },
            };
            identifiers.push(ident);
            uncompressed_sizes.push(unc);
            compressed_sizes.push(comp);
        }
        let ghost n = entries_count as int;
        let mut entries: Vec<ArchiveEntry> = Vec::new();
        let ghost mut acc: Seq<(i32, Seq<u8>)> = Seq::empty();
        proof {
            assert(spec_decode_from(wbuf, wpos, extracted) == spec_entry_seq(wbuf, dbase, n, 0,
                dbase + 10 * n, extracted));
            assert(acc + spec_entry_seq(wbuf, dbase, n, 0, dbase + 10 * n, extracted)->Ok_0
                =~= spec_entry_seq(wbuf, dbase, n, 0, dbase + 10 * n, extracted)->Ok_0);
        }
        for k in 0..entries_count
            invariant
                input == buffer@,
                buf.spec_data() == wbuf,
                0 <= buf.spec_pos(),
                n == entries_count as int,
                identifiers@.len() == entries_count,
                uncompressed_sizes@.len() == entries_count,
                compressed_sizes@.len() == entries_count,
                forall|t: int|
                    0 <= t < entries_count ==> #[trigger] identifiers@[t] == spec_descriptor_id(
                    wbuf, dbase, t),
                forall|t: int|
                    0 <= t < entries_count ==> #[trigger] uncompressed_sizes@[t]
                        == spec_descriptor_unc(wbuf, dbase, t),
                forall|t: int|
                    0 <= t < entries_count ==> #[trigger] compressed_sizes@[t]
                        == spec_descriptor_comp(wbuf, dbase, t),
                spec_decode(input) == (match spec_entry_seq(wbuf, dbase, n, k as int,
                    buf.spec_pos(), extracted) {
                    Ok(rest) => Ok::<Seq<(i32, Seq<u8>)>, FileSystemError>(acc + rest),
                    Err(e) => Err::<Seq<(i32, Seq<u8>)>, FileSystemError>(e),
                }),
                pairs_to_map(entry_pairs(entries@)) == pairs_to_map(acc),
                distinct_identifiers(entries@),
                forall|i: int|
                    0 <= i < entries@.len() ==> (#[trigger] entries@[i]).spec_data().len()
                        == entries@[i].spec_uncompressed_size(),
        {
            let identifier = identifiers[k];
            let unc = uncompressed_sizes[k];
            let comp = compressed_sizes[k];
            let ghost pos0 = buf.spec_pos();
            let data: Vec<u8> = if extracted {
                match buf.read_bytes(unc as usize) {
                    Ok(d) => d,
                    Err(e) => {
                        proof {
                            assert(spec_entry_seq(wbuf, dbase, n, k as int, pos0, extracted)
                                == Err::<Seq<(i32, Seq<u8>)>, FileSystemError>(FileSystemError::Io));
                        }
                        return Err(e);
                    },
                }
            } else {
                let cdata = match buf.read_bytes(comp as usize) {
                    Ok(d) => d,
                    Err(e) => {
                        proof {
                            assert(spec_entry_seq(wbuf, dbase, n, k as int, pos0, extracted)
                                == Err::<Seq<(i32, Seq<u8>)>, FileSystemError>(FileSystemError::Io));
                        }
                        return Err(e);
                    },
                };
                match decompress_bzip2(cdata, unc as usize) {
                    Ok(d) => d,
                    Err(ce) => {
                        proof {
                            assert(spec_entry_seq(wbuf, dbase, n, k as int, pos0, extracted)
                                == Err::<Seq<(i32, Seq<u8>)>, FileSystemError>(
                                FileSystemError::CompressionError(ce),
                            ));
                        }
                        return Err(FileSystemError::CompressionError(ce));
                    },
                }
            };
            let ghost pair = (identifier, data@);
            proof {
                let step = spec_entry_seq(wbuf, dbase, n, k as int, pos0, extracted);
                let rest = spec_entry_seq(wbuf, dbase, n, k as int + 1, buf.spec_pos(), extracted);
                assert(step == (match rest {
                    Ok(r2) => Ok::<Seq<(i32, Seq<u8>)>, FileSystemError>(seq![pair] + r2),
                    Err(e) => Err::<Seq<(i32, Seq<u8>)>, FileSystemError>(e),
                }));
                if rest is Ok {
                    assert(acc + (seq![pair] + rest->Ok_0) =~= acc.push(pair) + rest->Ok_0);
                }
            }
            let entry = ArchiveEntry {
                identifier,
                uncompressed_size: unc,
                compressed_size: comp,
                uncompressed_data: data,
            };
            match find_entry_position(&entries, identifier) {
                Some(j) => {
                    proof {
                        lemma_entries_update(entries@, j as int, entry);
                        lemma_distinct_update(entries@, j as int, entry);
                        lemma_pairs_push(acc, pair);
                    }
                    entries[j] = entry;
                },
                None => {
                    proof {
                        lemma_entries_push(entries@, entry);
                        lemma_distinct_push(entries@, entry);
                        lemma_pairs_push(acc, pair);
                    }
                    entries.push(entry);
                },
            }
            proof {
                acc = acc.push(pair);
            }
        }
        proof {
            assert(spec_entry_seq(wbuf, dbase, n, n, buf.spec_pos(), extracted) == Ok::<
                Seq<(i32, Seq<u8>)>,
                FileSystemError,
            >(Seq::empty()));
            assert(acc + Seq::<(i32, Seq<u8>)>::empty() =~= acc);
        }
        Ok(
            Archive {
                entries,
                header: ArchiveHeader { decompressed_size, compressed_size },
            },
        )
    }
}

/// Numeric id of one of the predefined archives stored under category 0.
#[derive(Debug, Clone, Copy, PartialEq, Eq, Structural)]
pub struct ArchiveType(u32);

impl ArchiveType {
    /// The archive id carried by this tag.
    pub closed spec fn spec_id(&self) -> u32 {
        self.0
    }

    pub fn new(id: u32) -> (r: Self)
        ensures
            r.spec_id() == id,
    {
        ArchiveType(id)
    }

    #[verifier::when_used_as_spec(spec_id)]
    pub fn id(&self) -> (r: u32)
        ensures
            r == self.spec_id(),
    {
        self.0
    }
}

} // verus!
