//! The records of which tunnel messages are made, and the calls into `bincode`
//! that write and read them.
//!
//! `bincode::serialize` and `bincode::deserialize` write integers in a fixed
//! number of bytes, least significant first, a tuple or an array as its items
//! one after the other, and a string or a sequence as an eight-byte length and
//! then its bytes. `deserialize` takes no notice of bytes that follow the value.

use vstd::prelude::*;
use vstd::utf8;
use crate::bytes;

verus! {

/// An error of `bincode`.
#[verifier::external_type_specification]
#[verifier::external_body]
pub struct ExBincodeErrorKind(bincode::ErrorKind);

/// The bytes of two endpoints: address and port of the source, then of the
/// destination.
pub open spec fn endpoint_bytes(
    src_ip: Seq<u8>,
    src_port: u16,
    dst_ip: Seq<u8>,
    dst_port: u16,
) -> Seq<u8> {
    src_ip + bytes::le16(src_port) + dst_ip + bytes::le16(dst_port)
}

/// The bytes of a string or of a byte sequence: its length, then its bytes.
pub open spec fn counted_bytes(b: Seq<u8>) -> Seq<u8> {
    bytes::le64(b.len() as u64) + b
}

/// Whether `data` holds, from position `at` on, a length and at least as many
/// bytes as it says.
pub open spec fn has_counted_bytes(data: Seq<u8>, at: int) -> bool {
    &&& at + 8 <= data.len()
    &&& at + 8 + bytes::from_le64(data.skip(at)) <= data.len()
}

/// The bytes that a length at position `at` counts.
pub open spec fn counted_at(data: Seq<u8>, at: int) -> Seq<u8> {
    data.subrange(at + 8, at + 8 + bytes::from_le64(data.skip(at)))
}

/// Whether `data` holds, from position `at` on, a length and as many bytes as it
/// says, and these are a string in UTF-8.
pub open spec fn has_counted_text(data: Seq<u8>, at: int) -> bool {
    &&& has_counted_bytes(data, at)
    &&& utf8::valid_utf8(counted_at(data, at))
}

/// What `bincode` says where a variant number cannot be read.
pub uninterp spec fn tag_read_error(data: Seq<u8>) -> Seq<char>;

/// What `bincode` says where a variant number and two endpoints cannot be read.
pub uninterp spec fn endpoints_read_error(data: Seq<u8>) -> Seq<char>;

/// What `bincode` says where a variant number, two endpoints and a string cannot
/// be read on a machine whose addresses have `word` bits: a length that does not
/// fit in them is told otherwise than one behind the end.
pub uninterp spec fn text_read_error(data: Seq<u8>, word: u32) -> Seq<char>;

/// What `bincode` says where a variant number, two endpoints and a byte sequence
/// cannot be read on a machine whose addresses have `word` bits: a length that
/// does not fit in them is told otherwise than one behind the end.
pub uninterp spec fn bytes_read_error(data: Seq<u8>, word: u32) -> Seq<char>;

/// What `bincode` says where a variant number and two 64-bit numbers cannot be
/// read.
pub uninterp spec fn pair_read_error(data: Seq<u8>) -> Seq<char>;

/// Calls `bincode::serialize` on a variant number and two endpoints.
///
/// It never fails on these, and gives the number and the endpoints one after
/// the other.
#[verifier::external_body]
pub(crate) fn serialize_endpoints(
    tag: u32,
    src_ip: [u8; 4],
    src_port: u16,
    dst_ip: [u8; 4],
    dst_port: u16,
) -> (r: Result<Vec<u8>, bincode::Error>)
    ensures
        r is Ok,
        r->Ok_0@ == bytes::le32(tag) + endpoint_bytes(src_ip@, src_port, dst_ip@, dst_port),
{
    bincode::serialize(&(tag, src_ip, src_port, dst_ip, dst_port))
}

/// Calls `bincode::serialize` on a variant number, two endpoints and a string.
///
/// It never fails on these, and gives the number, the endpoints, the length of
/// the string in bytes, and the string in UTF-8.
#[verifier::external_body]
pub(crate) fn serialize_endpoints_text(
    tag: u32,
    src_ip: [u8; 4],
    src_port: u16,
    dst_ip: [u8; 4],
    dst_port: u16,
    text: &str,
) -> (r: Result<Vec<u8>, bincode::Error>)
    ensures
        r is Ok,
        r->Ok_0@ == bytes::le32(tag) + endpoint_bytes(src_ip@, src_port, dst_ip@, dst_port)
            + counted_bytes(utf8::encode_utf8(text@)),
{
    bincode::serialize(&(tag, src_ip, src_port, dst_ip, dst_port, text))
}

/// Calls `bincode::serialize` on a variant number, two endpoints and a byte
/// sequence.
///
/// It never fails on these, and gives the number, the endpoints, the length of
/// the sequence, and its bytes.
#[verifier::external_body]
pub(crate) fn serialize_endpoints_bytes(
    tag: u32,
    src_ip: [u8; 4],
    src_port: u16,
    dst_ip: [u8; 4],
    dst_port: u16,
    payload: &[u8],
) -> (r: Result<Vec<u8>, bincode::Error>)
    ensures
        r is Ok,
        r->Ok_0@ == bytes::le32(tag) + endpoint_bytes(src_ip@, src_port, dst_ip@, dst_port)
            + counted_bytes(payload@),
{
    bincode::serialize(&(tag, src_ip, src_port, dst_ip, dst_port, payload))
}

/// Calls `bincode::serialize` on a variant number and two 64-bit numbers.
///
/// It never fails on these, and gives the three numbers one after the other.
#[verifier::external_body]
pub(crate) fn serialize_pair(tag: u32, first: u64, second: u64) -> (r: Result<
    Vec<u8>,
    bincode::Error,
>)
    ensures
        r is Ok,
        r->Ok_0@ == bytes::le32(tag) + bytes::le64(first) + bytes::le64(second),
{
    bincode::serialize(&(tag, first, second))
}

/// Calls `bincode::deserialize` for a 32-bit number.
///
/// It fails if and only if there are fewer than four bytes. Its error is given as
/// the text that it is shown by, which depends on the data alone.
#[verifier::external_body]
pub(crate) fn deserialize_tag(data: &[u8]) -> (r: Result<u32, String>)
    ensures
        r is Ok <==> data@.len() >= 4,
        r matches Ok(tag) ==> tag == bytes::from_le32(data@),
        r matches Err(text) ==> text@ == tag_read_error(data@),
{
    bincode::deserialize(data).map_err(|e| e.to_string())
}

/// Calls `bincode::deserialize` for a variant number and two endpoints.
///
/// It fails if and only if there are fewer than sixteen bytes. Its error is given
/// as the text that it is shown by, which depends on the data alone.
#[verifier::external_body]
pub(crate) fn deserialize_endpoints(data: &[u8]) -> (r: Result<
    (u32, [u8; 4], u16, [u8; 4], u16),
    String,
>)
    ensures
        r is Ok <==> data@.len() >= 16,
        r matches Ok(v) ==> {
            &&& v.0 == bytes::from_le32(data@)
            &&& v.1@ == data@.subrange(4, 8)
            &&& v.2 == bytes::from_le16(data@.skip(8))
            &&& v.3@ == data@.subrange(10, 14)
            &&& v.4 == bytes::from_le16(data@.skip(14))
        },
        r matches Err(text) ==> text@ == endpoints_read_error(data@),
{
    bincode::deserialize(data).map_err(|e| e.to_string())
}

/// Calls `bincode::deserialize` for a variant number, two endpoints and a string.
///
/// It fails if and only if the bytes end before the string does or the string
/// is not in UTF-8. Its error is given as the text that it is shown by, which
/// depends on the data and on the size of an address alone.
#[verifier::external_body]
pub(crate) fn deserialize_endpoints_text(data: &[u8]) -> (r: Result<
    (u32, [u8; 4], u16, [u8; 4], u16, String),
    String,
>)
    ensures
        r is Ok <==> has_counted_text(data@, 16),
        r matches Ok(v) ==> {
            &&& v.0 == bytes::from_le32(data@)
            &&& v.1@ == data@.subrange(4, 8)
            &&& v.2 == bytes::from_le16(data@.skip(8))
            &&& v.3@ == data@.subrange(10, 14)
            &&& v.4 == bytes::from_le16(data@.skip(14))
            &&& v.5@ == utf8::decode_utf8(counted_at(data@, 16))
        },
        r matches Err(text) ==> text@ == text_read_error(data@, usize::BITS),
{
    bincode::deserialize(data).map_err(|e| e.to_string())
}

/// Calls `bincode::deserialize` for a variant number, two endpoints and a byte
/// sequence.
///
/// It fails if and only if the bytes end before the sequence does. Its error is
/// given as the text that it is shown by, which depends on the data and on the
/// size of an address alone.
#[verifier::external_body]
pub(crate) fn deserialize_endpoints_bytes(data: &[u8]) -> (r: Result<
    (u32, [u8; 4], u16, [u8; 4], u16, Vec<u8>),
    String,
>)
    ensures
        r is Ok <==> has_counted_bytes(data@, 16),
        r matches Ok(v) ==> {
            &&& v.0 == bytes::from_le32(data@)
            &&& v.1@ == data@.subrange(4, 8)
            &&& v.2 == bytes::from_le16(data@.skip(8))
            &&& v.3@ == data@.subrange(10, 14)
            &&& v.4 == bytes::from_le16(data@.skip(14))
            &&& v.5@ == counted_at(data@, 16)
        },
        r matches Err(text) ==> text@ == bytes_read_error(data@, usize::BITS),
{
    bincode::deserialize(data).map_err(|e| e.to_string())
}

/// Calls `bincode::deserialize` for a variant number and two 64-bit numbers.
///
/// It fails if and only if there are fewer than twenty bytes. Its error is given
/// as the text that it is shown by, which depends on the data alone.
#[verifier::external_body]
pub(crate) fn deserialize_pair(data: &[u8]) -> (r: Result<(u32, u64, u64), String>)
    ensures
        r is Ok <==> data@.len() >= 20,
        r matches Ok(v) ==> {
            &&& v.0 == bytes::from_le32(data@)
            &&& v.1 == bytes::from_le64(data@.skip(4))
            &&& v.2 == bytes::from_le64(data@.skip(12))
        },
        r matches Err(text) ==> text@ == pair_read_error(data@),
{
    bincode::deserialize(data).map_err(|e| e.to_string())
}

} // verus!
