//! The WebSocket opening handshake: derive the accept token from the
//! client's key and render the upgrade response.
//!
//! The token is the base64 encoding of the SHA-1 digest of the client key
//! concatenated with a fixed GUID. The digest and the encoder come from
//! outside crates; everything around them is verified against their named
//! results.

use vstd::prelude::*;
use vstd::string::StrSliceExecFns;
use vstd::string::StringExecFns;
use vstd::string::StringSliceAdditionalSpecFns;
use base64::Engine;
use sha1::Digest;

verus! {

/// The 20-byte SHA-1 digest of a byte sequence, as the `sha1` crate
/// computes it.
pub uninterp spec fn sha1_of(data: Seq<u8>) -> Seq<u8>;

/// The standard base64 encoding (with padding) of a byte sequence, as
/// the `base64` crate computes it.
pub uninterp spec fn base64_of(data: Seq<u8>) -> Seq<char>;

/// Relies on `sha1::Sha1` through `Digest::digest`: a 20-byte digest
/// that depends on the input bytes alone.
#[verifier::external_body]
fn sha1_digest(data: &[u8]) -> (r: Vec<u8>)
    ensures
        r@ == sha1_of(data@),
        r@.len() == 20,
{
    sha1::Sha1::digest(data).to_vec()
}

/// Relies on `base64`'s `STANDARD` engine through `Engine::encode`: the
/// padded standard encoding, which depends on the input bytes alone.
#[verifier::external_body]
fn base64_encode(data: &[u8]) -> (r: String)
    ensures
        r@ == base64_of(data@),
{
    base64::engine::general_purpose::STANDARD.encode(data)
}

/// The fixed GUID appended to the client key before hashing, as UTF-8
/// bytes.
pub open spec fn spec_guid_bytes() -> Seq<u8> {
    "258EAFA5-E914-47DA-95CA-C5AB0DC85B11".spec_bytes()
}

/// The accept token owed for a client key: the base64 encoding of the
/// SHA-1 digest of the key followed by the fixed GUID.
pub open spec fn spec_accept_token(key_bytes: Seq<u8>) -> Seq<char> {
    base64_of(sha1_of(key_bytes + spec_guid_bytes()))
}

/// Derive the handshake accept token from the client's key.
pub fn ws_key(key: &str) -> (r: String)
    ensures
        r@ == spec_accept_token(key.spec_bytes()),
{
    let mut input: Vec<u8> = Vec::new();
    input.extend_from_slice(key.as_bytes());
    input.extend_from_slice("258EAFA5-E914-47DA-95CA-C5AB0DC85B11".as_bytes());
    proof {
        assert(input@ =~= key.spec_bytes() + spec_guid_bytes());
    }
    let digest = sha1_digest(input.as_slice());
    base64_encode(digest.as_slice())
}

/// The response head sent before the accept token.
pub open spec fn spec_handshake_prefix() -> Seq<char> {
    "HTTP/1.1 101 Switching Protocols\r\nUpgrade: websocket\r\nConnection: Upgrade\r\nSec-WebSocket-Accept: "@
}

/// The whole upgrade response for a client key: the fixed head, the
/// accept token, and a terminating blank line.
pub open spec fn spec_handshake_response(key_bytes: Seq<u8>) -> Seq<char> {
    spec_handshake_prefix() + spec_accept_token(key_bytes) + "\r\n\r\n"@
}

/// Render the upgrade response for the client's key.
pub fn handshake_response(key: &str) -> (r: String)
    ensures
        r@ == spec_handshake_response(key.spec_bytes()),
{
    let token = ws_key(key);
    let mut s = String::from_str(
        "HTTP/1.1 101 Switching Protocols\r\nUpgrade: websocket\r\nConnection: Upgrade\r\nSec-WebSocket-Accept: ",
    );
    s.append(token.as_str());
    s.append("\r\n\r\n");
    s
}

} // verus!
