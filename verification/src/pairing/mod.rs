//! Pairing proofs and the set of trusted devices.
use hmac::{Hmac, Mac};
use rand::RngCore;
use sha2::{Digest, Sha256};
use vstd::prelude::*;

mod identity;

pub use identity::{
    distinct_keys, entries_view, lemma_hex_roundtrip, lemma_stored_credentials_roundtrip,
    lemma_trust_then_trusted, lookup,
    stored_credentials, DeviceEntry, Identity, MAX_DEVICES,
};

verus! {

// ---------------------------------------------------------------------------
// Outside functions
// ---------------------------------------------------------------------------
/// The SHA-256 digest of `data` (computed by the `sha2` crate).
pub uninterp spec fn sha256_digest(data: Seq<u8>) -> Seq<u8>;

/// The HMAC-SHA256 tag of `msg` under `key` (computed by the `hmac` and `sha2` crates).
pub uninterp spec fn hmac_sha256_tag(key: Seq<u8>, msg: Seq<u8>) -> Seq<u8>;

/// `sha2::Sha256::digest`: its result is the SHA-256 digest of the data, 32 bytes long.
#[verifier::external_body]
fn sha256(data: &[u8]) -> (r: Vec<u8>)
    ensures
        r@ == sha256_digest(data@),
        r@.len() == 32,
{
    Sha256::digest(data).to_vec()
}

/// `hmac::Hmac::<Sha256>` keyed with `key` (`new_from_slice`, which accepts keys of any
/// length for HMAC), fed `msg` and finalized: the 32-byte HMAC-SHA256 tag.
#[verifier::external_body]
fn hmac_sha256(key: &[u8], msg: &[u8]) -> (r: Vec<u8>)
    ensures
        r@ == hmac_sha256_tag(key@, msg@),
        r@.len() == 32,
{
    let mut m = <Hmac<Sha256> as Mac>::new_from_slice(key).unwrap();
    m.update(msg);
    m.finalize().into_bytes().to_vec()
}

/// `hmac::Mac::verify_slice` on `Hmac::<Sha256>` keyed with `key` and fed `msg`:
/// accepts exactly the full 32-byte tag, comparing in constant time.
#[verifier::external_body]
fn hmac_sha256_verify(key: &[u8], msg: &[u8], tag: &[u8]) -> (r: bool)
    ensures
        r == (tag@ == hmac_sha256_tag(key@, msg@)),
{
    let mut m = <Hmac<Sha256> as Mac>::new_from_slice(key).unwrap();
    m.update(msg);
    m.verify_slice(tag).is_ok()
}

/// `N` bytes from the operating system's random source (`rand::rngs::OsRng::try_fill_bytes`),
/// or `None` when the source fails. Nothing is promised of the bytes.
#[verifier::external_body]
pub fn random<const N: usize>() -> Option<[u8; N]> {
    let mut b = [0u8; N];
    match rand::rngs::OsRng.try_fill_bytes(&mut b) {
        Ok(()) => Some(b),
        Err(_) => None,
    }
}

/// Lowercase hexadecimal digit of a nibble.
pub open spec fn hex_digit(v: u8) -> char {
    if v < 10 {
        (48 + v) as char
    } else {
        (87 + v) as char
    }
}

/// Lowercase hexadecimal text of `data`, two digits per byte, high nibble first.
pub open spec fn hex_lower(data: Seq<u8>) -> Seq<char>
    decreases data.len(),
{
    if data.len() == 0 {
        seq![]
    } else {
        seq![hex_digit(data[0] / 16), hex_digit(data[0] % 16)] + hex_lower(data.drop_first())
    }
}

/// The value of a hexadecimal digit in either case.
pub open spec fn hex_value(c: u8) -> Option<u8> {
    if 48 <= c <= 57 {
        Some((c - 48) as u8)
    } else if 65 <= c <= 70 {
        Some((c - 55) as u8)
    } else if 97 <= c <= 102 {
        Some((c - 87) as u8)
    } else {
        None
    }
}

/// The bytes that hexadecimal text (as UTF-8 bytes) stands for: `None` for an odd
/// length or a character that is not a hexadecimal digit.
pub open spec fn hex_decode_spec(b: Seq<u8>) -> Option<Seq<u8>>
    decreases b.len(),
{
    if b.len() % 2 != 0 {
        None
    } else if b.len() == 0 {
        Some(seq![])
    } else {
        match (hex_value(b[0]), hex_value(b[1]), hex_decode_spec(b.skip(2))) {
            (Some(h), Some(l), Some(rest)) => Some(seq![(h * 16 + l) as u8] + rest),
            _ => None,
        }
    }
}

/// `rcgen::generate_simple_self_signed` for the one DNS name `name`: a freshly
/// generated key pair and a self-signed certificate over it, given as the certificate's
/// DER bytes (`Certificate::der`) and the key pair's PKCS#8 DER bytes
/// (`KeyPair::serialize_der`), or `None` when rcgen reports an error. The key pair is
/// random, so nothing is stated of the bytes.
#[verifier::external_body]
pub(crate) fn self_signed(name: &str) -> (r: Option<(Vec<u8>, Vec<u8>)>) {
    match rcgen::generate_simple_self_signed(vec![name.to_string()]) {
        Ok(c) => Some((c.cert.der().to_vec(), c.key_pair.serialize_der())),
        Err(_) => None,
    }
}

/// `hex::encode`: lowercase hexadecimal text of the bytes.
#[verifier::external_body]
fn hex_encode(data: &[u8]) -> (s: String)
    ensures
        s@ == hex_lower(data@),
{
    hex::encode(data)
}

/// `hex::decode`: the bytes of hexadecimal text in either case; it fails on an odd
/// length or on a character that is not a hexadecimal digit.
#[verifier::external_body]
fn hex_decode(text: &str) -> (r: Option<Vec<u8>>)
    ensures
        match hex_decode_spec(vstd::utf8::encode_utf8(text@)) {
            Some(b) => r matches Some(v) && v@ == b,
            None => r is None,
        },
{
    hex::decode(text).ok()
}

// ---------------------------------------------------------------------------
// Proofs
// ---------------------------------------------------------------------------
/// Why a pairing step failed.
#[derive(Debug, Clone, Copy, PartialEq, Eq, Structural)]
pub enum PairingError {
    /// The client id is not 16 bytes, the nonce not 32, or the key shorter than 16.
    InvalidContext,
    /// The received proof is not the expected tag.
    BadProof,
    /// A stored device key is not hexadecimal.
    InvalidStoredKey,
    /// A stored host id, certificate or key is not hexadecimal.
    InvalidStoredHex,
    /// The stored host id is not 16 bytes.
    InvalidHostIdentity,
    /// Sixty-four devices are trusted already.
    DeviceLimit,
}

impl PairingError {
    /// The text `describe` gives for each reason.
    pub open spec fn reason_text(&self) -> Seq<char> {
        match *self {
            PairingError::InvalidContext => "invalid authentication context"@,
            PairingError::BadProof => "pairing proof mismatch"@,
            PairingError::InvalidStoredKey => "invalid stored device key"@,
            PairingError::InvalidStoredHex => "invalid stored hexadecimal text"@,
            PairingError::InvalidHostIdentity => "invalid host identity"@,
            PairingError::DeviceLimit => "trusted device limit reached"@,
        }
    }

    /// Human-readable reason.
    pub fn describe(&self) -> (r: &'static str)
        ensures
            r@ == self.reason_text(),
    {
        match self {
            PairingError::InvalidContext => "invalid authentication context",
            PairingError::BadProof => "pairing proof mismatch",
            PairingError::InvalidStoredKey => "invalid stored device key",
            PairingError::InvalidStoredHex => "invalid stored hexadecimal text",
            PairingError::InvalidHostIdentity => "invalid host identity",
            PairingError::DeviceLimit => "trusted device limit reached",
        }
    }
}

/// The ASCII bytes of `SidecarDOS pairing v1`.
pub open spec fn pairing_label() -> Seq<u8> {
    seq![
        0x53u8, 0x69, 0x64, 0x65, 0x63, 0x61, 0x72, 0x44, 0x4f, 0x53, 0x20, 0x70, 0x61, 0x69,
        0x72, 0x69, 0x6e, 0x67, 0x20, 0x76, 0x31,
    ]
}

/// The proof input: label, role, certificate digest, client id and nonce, concatenated
/// without length prefixes.
pub open spec fn proof_input(
    certificate_digest: Seq<u8>,
    client: Seq<u8>,
    nonce: Seq<u8>,
    role: u8,
) -> Seq<u8> {
    pairing_label() + seq![role] + certificate_digest + client + nonce
}

/// The proof that a party with `key` computes for `role` over this certificate,
/// client and nonce.
pub open spec fn proof_spec(
    key: Seq<u8>,
    certificate: Seq<u8>,
    client: Seq<u8>,
    nonce: Seq<u8>,
    role: u8,
) -> Seq<u8> {
    hmac_sha256_tag(key, proof_input(sha256_digest(certificate), client, nonce, role))
}

/// The client id, nonce and key have the lengths the exchange uses.
pub open spec fn valid_context(key: Seq<u8>, client: Seq<u8>, nonce: Seq<u8>) -> bool {
    client.len() == 16 && nonce.len() == 32 && key.len() >= 16
}

fn proof_message(certificate: &[u8], client: &[u8], nonce: &[u8], role: u8) -> (m: Vec<u8>)
    ensures
        m@ == proof_input(sha256_digest(certificate@), client@, nonce@, role),
{
    let mut m: Vec<u8> = Vec::new();
    let label: [u8; 21] = [
        0x53, 0x69, 0x64, 0x65, 0x63, 0x61, 0x72, 0x44, 0x4f, 0x53, 0x20, 0x70, 0x61, 0x69, 0x72,
        0x69, 0x6e, 0x67, 0x20, 0x76, 0x31,
    ];
    let mut l = vstd::slice::slice_to_vec(label.as_slice());
    m.append(&mut l);
    m.push(role);
    let mut d = sha256(certificate);
    m.append(&mut d);
    let mut c = vstd::slice::slice_to_vec(client);
    m.append(&mut c);
    let mut n = vstd::slice::slice_to_vec(nonce);
    m.append(&mut n);
    assert(label@ =~= pairing_label());
    assert(m@ =~= proof_input(sha256_digest(certificate@), client@, nonce@, role));
    m
}

/// The HMAC-SHA256 proof over label, role, certificate digest, client id and nonce.
pub fn pairing_proof(
    key: &[u8],
    certificate: &[u8],
    client: &[u8],
    nonce: &[u8],
    role: u8,
) -> (r: Result<Vec<u8>, PairingError>)
    ensures
        r matches Ok(p) && p@ == proof_spec(key@, certificate@, client@, nonce@, role),
{
    let m = proof_message(certificate, client, nonce, role);
    Ok(hmac_sha256(key, m.as_slice()))
}

/// What `verify` answers: the context is checked first, then the proof.
pub open spec fn verify_spec(
    key: Seq<u8>,
    certificate: Seq<u8>,
    client: Seq<u8>,
    nonce: Seq<u8>,
    role: u8,
    received: Seq<u8>,
) -> Result<(), PairingError> {
    if !valid_context(key, client, nonce) {
        Err(PairingError::InvalidContext)
    } else if received == proof_spec(key, certificate, client, nonce, role) {
        Ok(())
    } else {
        Err(PairingError::BadProof)
    }
}

/// Checks a received proof against the one expected for this context.
pub fn verify(
    key: &[u8],
    certificate: &[u8],
    client: &[u8],
    nonce: &[u8],
    role: u8,
    received: &[u8],
) -> (r: Result<(), PairingError>)
    ensures
        r == verify_spec(key@, certificate@, client@, nonce@, role, received@),
{
    if !(client.len() == 16 && nonce.len() == 32 && key.len() >= 16) {
        return Err(PairingError::InvalidContext);
    }
    let m = proof_message(certificate, client, nonce, role);
    if hmac_sha256_verify(key, m.as_slice(), received) {
        Ok(())
    } else {
        Err(PairingError::BadProof)
    }
}

/// A proof made with the same key over the same certificate, client, nonce and role
/// is accepted.
pub proof fn lemma_proof_verifies(
    key: Seq<u8>,
    certificate: Seq<u8>,
    client: Seq<u8>,
    nonce: Seq<u8>,
    role: u8,
)
    requires
        valid_context(key, client, nonce),
    ensures
        verify_spec(key, certificate, client, nonce, role, proof_spec(key, certificate, client, nonce, role))
            == Ok::<(), PairingError>(()),
{
}

/// The proof input binds the role, the certificate digest, the client id and the
/// nonce: for ids of 16 bytes, nonces of 32 bytes and 32-byte digests, different
/// values give different inputs.
pub proof fn lemma_proof_input_binds(
    d1: Seq<u8>,
    c1: Seq<u8>,
    n1: Seq<u8>,
    r1: u8,
    d2: Seq<u8>,
    c2: Seq<u8>,
    n2: Seq<u8>,
    r2: u8,
)
    requires
        d1.len() == 32 && d2.len() == 32,
        c1.len() == 16 && c2.len() == 16,
        n1.len() == 32 && n2.len() == 32,
        proof_input(d1, c1, n1, r1) == proof_input(d2, c2, n2, r2),
    ensures
        r1 == r2,
        d1 == d2,
        c1 == c2,
        n1 == n2,
{
    let a = proof_input(d1, c1, n1, r1);
    let b = proof_input(d2, c2, n2, r2);
    assert(a[21] == r1);
    assert(b[21] == r2);
    assert(d1 =~= a.subrange(22, 54));
    assert(d2 =~= b.subrange(22, 54));
    assert(c1 =~= a.subrange(54, 70));
    assert(c2 =~= b.subrange(54, 70));
    assert(n1 =~= a.subrange(70, 102));
    assert(n2 =~= b.subrange(70, 102));
}

} // verus!
