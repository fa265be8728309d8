//! Opening a source: compression is inferred from the path suffix
//! alone (`.gz` is gzip, `.zst` is zstd, anything else is raw bytes);
//! no content sniffing is performed, a deliberate limitation.
//!
//! The caller reads the file's raw bytes; this module turns them into
//! the byte stream the decoder consumes, calling the decompression
//! crates behind trusted wrappers.

use vstd::prelude::*;

use crate::bytes::{ends_with, spec_ends_with};
use crate::error::XsvError;

verus! {

/// How a source's bytes are encoded on disk.
#[derive(Clone, Copy, Debug, PartialEq, Eq, Structural)]
pub enum Compression {
    /// Raw bytes.
    Plain,
    /// Gzip, from a `.gz` suffix.
    Gzip,
    /// Zstd, from a `.zst` suffix.
    Zstd,
}

/// `.gz`
pub open spec fn lit_gz() -> Seq<u8> {
    seq![0x2eu8, 0x67, 0x7a]
}

/// `.zst`
pub open spec fn lit_zst() -> Seq<u8> {
    seq![0x2eu8, 0x7a, 0x73, 0x74]
}

/// The compression a path's suffix names.
pub open spec fn spec_compression_for(path: Seq<u8>) -> Compression {
    if spec_ends_with(path, lit_gz()) {
        Compression::Gzip
    } else if spec_ends_with(path, lit_zst()) {
        Compression::Zstd
    } else {
        Compression::Plain
    }
}

/// Which decoding wrapper a path selects.
pub fn compression_for_path(path: &Vec<u8>) -> (r: Compression)
    ensures
        r == spec_compression_for(path@),
{
    let gz: Vec<u8> = vec![0x2eu8, 0x67, 0x7a];
    let zst: Vec<u8> = vec![0x2eu8, 0x7a, 0x73, 0x74];
    proof {
        assert(gz@ =~= lit_gz());
        assert(zst@ =~= lit_zst());
    }
    if ends_with(path, gz.as_slice()) {
        Compression::Gzip
    } else if ends_with(path, zst.as_slice()) {
        Compression::Zstd
    } else {
        Compression::Plain
    }
}

/// What gzip decompression yields on the given bytes; a function of
/// the input alone.
pub uninterp spec fn gunzip_of(data: Seq<u8>) -> Seq<u8>;

/// Whether the given bytes are a well-formed gzip stream, so that
/// decompression succeeds; a function of the input alone.
pub uninterp spec fn gunzip_ok(data: Seq<u8>) -> bool;

/// What zstd decompression yields on the given bytes; a function of
/// the input alone.
pub uninterp spec fn zstd_decode_of(data: Seq<u8>) -> Seq<u8>;

/// Whether the given bytes are a well-formed zstd stream, so that
/// decompression succeeds; a function of the input alone.
pub uninterp spec fn zstd_ok(data: Seq<u8>) -> bool;

/// Relies on flate2's `read::GzDecoder`: decompression is a pure
/// function of the input bytes, succeeding exactly on well-formed
/// gzip input and failing on anything else.
#[verifier::external_body]
fn gunzip(data: &Vec<u8>) -> (r: Option<Vec<u8>>)
    ensures
        r is Some <==> gunzip_ok(data@),
        r is Some ==> r.unwrap()@ == gunzip_of(data@),
{
    let mut out: Vec<u8> = Vec::new();
    let mut dec = flate2::read::GzDecoder::new(data.as_slice());
    match std::io::Read::read_to_end(&mut dec, &mut out) {
        Ok(_) => Some(out),
        Err(_) => None,
    }
}

/// Relies on zstd's `decode_all`: decompression is a pure function of
/// the input bytes, succeeding exactly on well-formed zstd input and
/// failing on anything else.
#[verifier::external_body]
fn zstd_decode(data: &Vec<u8>) -> (r: Option<Vec<u8>>)
    ensures
        r is Some <==> zstd_ok(data@),
        r is Some ==> r.unwrap()@ == zstd_decode_of(data@),
{
    match zstd::decode_all(data.as_slice()) {
        Ok(out) => Some(out),
        Err(_) => None,
    }
}

/// The byte stream a source yields: its raw bytes, decompressed as
/// the path's suffix dictates.
pub open spec fn spec_source_content(path: Seq<u8>, raw: Seq<u8>) -> Seq<u8> {
    match spec_compression_for(path) {
        Compression::Plain => raw,
        Compression::Gzip => gunzip_of(raw),
        Compression::Zstd => zstd_decode_of(raw),
    }
}

/// Whether a source's raw bytes can be decoded at all: plain bytes
/// always, compressed bytes exactly when they are well-formed for
/// their codec.
pub open spec fn spec_source_ok(path: Seq<u8>, raw: Seq<u8>) -> bool {
    match spec_compression_for(path) {
        Compression::Plain => true,
        Compression::Gzip => gunzip_ok(raw),
        Compression::Zstd => zstd_ok(raw),
    }
}

/// Decode one source's raw bytes: the decoded content exactly when
/// the bytes are well-formed for the path's codec (a plain source
/// always is), and an I/O error carrying the path exactly when they
/// are not.
pub fn decode_source(path: &Vec<u8>, raw: Vec<u8>) -> (r: Result<Vec<u8>, XsvError>)
    ensures
        match r {
            Ok(c) => {
                &&& c@ == spec_source_content(path@, raw@)
                &&& spec_source_ok(path@, raw@)
            },
            Err(e) => {
                &&& (e matches XsvError::Io(p) && p@ == path@)
                &&& !spec_source_ok(path@, raw@)
            },
        },
{
    match compression_for_path(path) {
        Compression::Plain => Ok(raw),
        Compression::Gzip => {
            match gunzip(&raw) {
                Some(out) => Ok(out),
                None => Err(XsvError::Io(crate::bytes::subvec(path, 0, path.len()))),
            }
        },
        Compression::Zstd => {
            match zstd_decode(&raw) {
                Some(out) => Ok(out),
                None => Err(XsvError::Io(crate::bytes::subvec(path, 0, path.len()))),
            }
        },
    }
}

} // verus!
