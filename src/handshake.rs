//! The accept token of the opening handshake.
use base64::Engine;
use vstd::prelude::*;
use vstd::utf8::encode_utf8;

verus! {

/// The SHA-1 digest of a byte string.
pub uninterp spec fn sha1_of(data: Seq<u8>) -> Seq<u8>;

/// The padded standard base64 text of a byte string.
pub uninterp spec fn base64_of(data: Seq<u8>) -> Seq<char>;

/// Relies on sha1_smol's `Sha1::from(..).digest().bytes()`: the 20-byte SHA-1
/// digest of the data.
#[verifier::external_body]
fn sha1_digest(data: &[u8]) -> (r: [u8; 20])
    ensures
        r@ == sha1_of(data@),
{
    sha1_smol::Sha1::from(data).digest().bytes()
}

/// Relies on base64's `STANDARD.encode`: the padded standard base64 text of
/// the data.
#[verifier::external_body]
fn base64_standard(data: &[u8]) -> (r: String)
    ensures
        r@ == base64_of(data@),
{
    base64::engine::general_purpose::STANDARD.encode(data)
}

/// The GUID that RFC 6455 appends to the client's key.
pub open spec fn websocket_guid() -> Seq<char> {
    "258EAFA5-E914-47DA-95CA-C5AB0DC85B11"@
}

/// The accept token for a client key: base64 of the SHA-1 digest of the
/// UTF-8 bytes of the key followed by the GUID.
pub open spec fn accept_token(key: Seq<char>) -> Seq<char> {
    base64_of(sha1_of(encode_utf8(key + websocket_guid())))
}

/// Computes the accept token for the `Sec-WebSocket-Key` that a client sent.
pub fn handshake(key: String) -> (r: String)
    ensures
        r@ == accept_token(key@),
{
    let mut key = key;
    key.append("258EAFA5-E914-47DA-95CA-C5AB0DC85B11");
    let digest = sha1_digest(key.as_str().as_bytes());
    base64_standard(&digest)
}

} // verus!
