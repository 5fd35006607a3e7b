use vstd::prelude::*;

use std::io::Read;
use std::io::Write;

use crate::errors::CompressionError;

verus! {

/// The first `len` bytes that a bzip2 decoder produces from `stream` (a
/// complete stream, magic included), or nothing when the decoder cannot
/// produce that many bytes.  Decoding is a function of the stream alone.
pub uninterp spec fn bzip_prefix(stream: Seq<u8>, len: nat) -> Option<Seq<u8>>;

/// The full content that a gzip decoder produces from `stream`, or nothing
/// when the stream is not a well-formed gzip stream.  Decoding is a function
/// of the stream alone.
pub uninterp spec fn gzip_inflate(stream: Seq<u8>) -> Option<Seq<u8>>;

/// The stream header that on-disk bzip2 payloads omit: `B`, `Z`, `h`, `1`.
pub open spec fn spec_bzip2_magic() -> Seq<u8> {
    seq![66u8, 90u8, 104u8, 49u8]
}

/// Relies on bzip2's `BzDecoder` combined with `Read::read_exact`: reading
/// `len` bytes succeeds exactly when the stream decodes to at least `len`
/// bytes, and then yields the first `len` decompressed bytes.
#[verifier::external_body]
fn bzip2_decode_prefix(stream: &Vec<u8>, len: usize) -> (r: Option<Vec<u8>>)
    ensures
        match r {
            Some(out) => bzip_prefix(stream@, len as nat) == Some(out@) && out@.len() == len,
            None => bzip_prefix(stream@, len as nat) is None,
        },
{
    let mut decoder = bzip2::read::BzDecoder::new(&stream[..]);
    let mut out = vec![0u8; len];
    match decoder.read_exact(&mut out) {
        Ok(()) => Some(out),
        Err(_) => None,
    }
}

/// Relies on bzip2's `BzEncoder` at compression level 1: the output is one
/// complete bzip2 stream that starts with the magic `BZh1`, is at least 14
/// bytes long (4-byte magic, then at least a 10-byte stream trailer), and
/// decodes back to exactly the input, so every prefix of the input can be
/// read back out of it.
#[verifier::external_body]
fn bzip2_encode(data: &[u8]) -> (r: Vec<u8>)
    ensures
        r@.len() >= 14,
        r@.subrange(0, 4) == spec_bzip2_magic(),
        forall|n: int|
            0 <= n <= data@.len() ==> bzip_prefix(r@, n as nat) == Some(data@.take(n)),
{
    let mut encoder = bzip2::read::BzEncoder::new(data, bzip2::Compression::new(1));
    let mut out = Vec::new();
    encoder.read_to_end(&mut out).expect("reading from an in-memory encoder cannot fail");
    out
}

/// Relies on flate2's `GzDecoder` combined with `Read::read_to_end`: the
/// result is the full decompressed content of the gzip stream, or a failure
/// when the input is not a well-formed gzip stream.
#[verifier::external_body]
fn gzip_decode(stream: &Vec<u8>) -> (r: Option<Vec<u8>>)
    ensures
        match r {
            Some(out) => gzip_inflate(stream@) == Some(out@),
            None => gzip_inflate(stream@) is None,
        },
{
    let mut decoder = flate2::read::GzDecoder::new(&stream[..]);
    let mut out = Vec::new();
    match decoder.read_to_end(&mut out) {
        Ok(_) => Some(out),
        Err(_) => None,
    }
}

/// Relies on flate2's `GzEncoder` over an in-memory buffer: the output is a
/// gzip stream with the standard 10-byte header (magic `0x1F 0x8B` first)
/// whose decompressed content is exactly the input.
#[verifier::external_body]
fn gzip_encode(data: &[u8]) -> (r: Vec<u8>)
    ensures
        r@.len() >= 10,
        r@[0] == 0x1fu8,
        r@[1] == 0x8bu8,
        gzip_inflate(r@) == Some(data@),
{
    let mut encoder = flate2::write::GzEncoder::new(Vec::new(), flate2::Compression::default());
    encoder.write_all(data).expect("writing to an in-memory encoder cannot fail");
    encoder.finish().expect("finishing an in-memory encoder cannot fail")
}

/// What decompressing a headerless bzip2 payload returns: the empty and the
/// too-short inputs are rejected up front; otherwise the payload is decoded
/// behind the restored `BZh1` magic, and exactly `decompressed_size` bytes
/// are owed.
pub open spec fn spec_decompress_bzip2(input: Seq<u8>, decompressed_size: nat) -> Result<
    Seq<u8>,
    CompressionError,
> {
    if input.len() == 0 {
        Err(CompressionError::EmptyCompressedDataGiven)
    } else if input.len() < 5 {
        Err(
            CompressionError::InvalidCompressedDataLengthGiven {
                given: input.len() as usize,
                expected_at_least: 5,
            },
        )
    } else {
        match bzip_prefix(spec_bzip2_magic() + input, decompressed_size) {
            Some(out) => Ok(out),
            None => Err(CompressionError::Io),
        }
    }
}

/// Decompresses a headerless bzip2 payload to exactly `decompressed_size`
/// bytes, restoring the 4-byte magic the cache strips from disk.
pub fn decompress_bzip2(compressed_data: Vec<u8>, decompressed_size: usize) -> (r: Result<
    Vec<u8>,
    CompressionError,
>)
    ensures
        match r {
            Ok(out) => spec_decompress_bzip2(compressed_data@, decompressed_size as nat)
                == Ok::<Seq<u8>, CompressionError>(out@) && out@.len() == decompressed_size,
            Err(e) => spec_decompress_bzip2(compressed_data@, decompressed_size as nat)
                == Err::<Seq<u8>, CompressionError>(e),
        },
{
    if compressed_data.len() == 0 {
        return Err(CompressionError::EmptyCompressedDataGiven);
    }
    if compressed_data.len() < 5 {
        return Err(
            CompressionError::InvalidCompressedDataLengthGiven {
                given: compressed_data.len(),
                expected_at_least: 5,
            },
        );
    }
    let mut full: Vec<u8> = Vec::new();
    full.push(66);
    full.push(90);
    full.push(104);
    full.push(49);
    let n = compressed_data.len();
    for i in 0..n
        invariant
            n == compressed_data.len(),
            full@ =~= spec_bzip2_magic() + compressed_data@.take(i as int),
    {
        full.push(compressed_data[i]);
        assert(full@ =~= spec_bzip2_magic() + compressed_data@.take(i + 1));
    }
    assert(compressed_data@.take(n as int) =~= compressed_data@);
    match bzip2_decode_prefix(&full, decompressed_size) {
        Some(out) => Ok(out),
        None => Err(CompressionError::Io),
    }
}

/// What decompressing a gzip payload returns: the empty input is rejected,
/// then the two magic bytes are demanded, then the stream is decoded to its
/// end.
pub open spec fn spec_decompress_gzip(input: Seq<u8>) -> Result<Seq<u8>, CompressionError> {
    if input.len() == 0 {
        Err(CompressionError::EmptyCompressedDataGiven)
    } else if input.len() < 2 || input[0] != 0x1f || input[1] != 0x8b {
        Err(CompressionError::InvalidGZIPHeader)
    } else {
        match gzip_inflate(input) {
            Some(out) => Ok(out),
            None => Err(CompressionError::Io),
        }
    }
}

/// Decompresses a gzip payload to its end of stream.
pub fn decompress_gzip(compressed_data: Vec<u8>) -> (r: Result<Vec<u8>, CompressionError>)
    ensures
        match r {
            Ok(out) => spec_decompress_gzip(compressed_data@) == Ok::<Seq<u8>, CompressionError>(
                out@,
            ),
            Err(e) => spec_decompress_gzip(compressed_data@) == Err::<Seq<u8>, CompressionError>(e),
        },
{
    if compressed_data.len() == 0 {
        return Err(CompressionError::EmptyCompressedDataGiven);
    }
    if compressed_data.len() < 2 || compressed_data[0] != 0x1f || compressed_data[1] != 0x8b {
        return Err(CompressionError::InvalidGZIPHeader);
    }
    match gzip_decode(&compressed_data) {
        Some(out) => Ok(out),
        None => Err(CompressionError::Io),
    }
}

/// Compresses `data` with bzip2 and strips the 4-byte magic, as the cache
/// stores bzip2 payloads headerless on disk.
pub fn compress_bzip2(data: &[u8]) -> (r: Result<Vec<u8>, CompressionError>)
    ensures
        r matches Ok(out) && out@.len() >= 10 && forall|n: int|
            0 <= n <= data@.len() ==> bzip_prefix(spec_bzip2_magic() + out@, n as nat) == Some(
                data@.take(n),
            ),
{
    let full = bzip2_encode(data);
    let mut out: Vec<u8> = Vec::new();
    let len = full.len();
    for i in 4..len
        invariant
            len == full@.len(),
            len >= 14,
            out@ =~= full@.subrange(4, i as int),
    {
        out.push(full[i]);
        assert(out@ =~= full@.subrange(4, i + 1));
    }
    proof {
        assert(spec_bzip2_magic() + out@ =~= full@);
    }
    Ok(out)
}

/// Compresses `data` as a standard gzip stream.
pub fn compress_gzip(data: &[u8]) -> (r: Result<Vec<u8>, CompressionError>)
    ensures
        r matches Ok(out) && out@.len() >= 2 && out@[0] == 0x1f && out@[1] == 0x8b && gzip_inflate(
            out@,
        ) == Some(data@),
{
    Ok(gzip_encode(data))
}

/// Law: decompressing what the bzip2 compressor produced, with the original
/// length, yields the original bytes, for every non-empty input.
pub proof fn lemma_bzip2_round_trip(x: Seq<u8>, y: Seq<u8>)
    ensures
        (x.len() >= 1 && y.len() >= 5 && (forall|n: int|
            0 <= n <= x.len() ==> bzip_prefix(spec_bzip2_magic() + y, n as nat) == Some(
                x.take(n),
            ))) ==> spec_decompress_bzip2(y, x.len()) == Ok::<Seq<u8>, CompressionError>(x),
{
    if x.len() >= 1 && y.len() >= 5 && (forall|n: int|
        0 <= n <= x.len() ==> bzip_prefix(spec_bzip2_magic() + y, n as nat) == Some(x.take(n))) {
        assert(bzip_prefix(spec_bzip2_magic() + y, x.len()) == Some(x.take(x.len() as int)));
        assert(x.take(x.len() as int) =~= x);
    }
}

/// Law: decompressing what the gzip compressor produced yields the original
/// bytes, for every input.
pub proof fn lemma_gzip_round_trip(x: Seq<u8>, y: Seq<u8>)
    ensures
        (y.len() >= 2 && y[0] == 0x1f && y[1] == 0x8b && gzip_inflate(y) == Some(x))
            ==> spec_decompress_gzip(y) == Ok::<Seq<u8>, CompressionError>(x),
{
}

} // verus!
