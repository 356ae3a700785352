//! Short content checksums, used to bust caches and to name derived files:
//! the CRC-32 of the bytes, big-endian, in unpadded URL-safe base64.
use vstd::prelude::*;

verus! {

/// The CRC-32 (IEEE) of `data`.
pub uninterp spec fn crc32_of(data: Seq<u8>) -> u32;

/// `data` in URL-safe base64 without padding.
pub uninterp spec fn base64url_of(data: Seq<u8>) -> Seq<char>;

/// Relies on `crc32fast::hash`: the CRC-32 of the whole slice.
#[verifier::external_body]
fn crc32(data: &[u8]) -> (r: u32)
    ensures
        r == crc32_of(data@),
{
    crc32fast::hash(data)
}

/// Relies on `data_encoding::BASE64URL_NOPAD.encode`: the encoding of the
/// slice, which depends on its bytes alone.
#[verifier::external_body]
fn base64url(data: &[u8]) -> (r: String)
    requires
        data@.len() <= usize::MAX / 512,
    ensures
        r@ == base64url_of(data@),
{
    data_encoding::BASE64URL_NOPAD.encode(data)
}

/// The four bytes of `v`, most significant first.
pub open spec fn be_bytes(v: u32) -> Seq<u8> {
    seq![
        (v / 0x1000000) as u8,
        ((v / 0x10000) % 0x100) as u8,
        ((v / 0x100) % 0x100) as u8,
        (v % 0x100) as u8,
    ]
}

/// The checksum text of `data`.
pub open spec fn checksum_of(data: Seq<u8>) -> Seq<char> {
    base64url_of(be_bytes(crc32_of(data)))
}

/// The checksum text of `data`: its CRC-32, big-endian, in unpadded
/// URL-safe base64.
pub fn checksum_text(data: &[u8]) -> (r: String)
    ensures
        r@ == checksum_of(data@),
{
    let v = crc32(data);
    let bytes: [u8; 4] = [
        (v / 0x1000000) as u8,
        ((v / 0x10000) % 0x100) as u8,
        ((v / 0x100) % 0x100) as u8,
        (v % 0x100) as u8,
    ];
    assert(bytes@ =~= be_bytes(v));
    base64url(&bytes)
}

} // verus!
