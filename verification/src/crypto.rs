use vstd::prelude::*;
use sha2::Digest;

verus! {

// ---------------------------------------------------------------------------
// Named results of the cryptographic primitives
// ---------------------------------------------------------------------------

/// The SHA-256 digest of a byte sequence, as `sha2` computes it. The digest
/// depends on the input bytes alone; its value is not stated here.
pub uninterp spec fn sha256_of(data: Seq<u8>) -> Seq<u8>;

/// The derived SigV4 signing key: the fixed one-way chain of keyed hashes
/// seeded by the secret and the date (taken from the instant at `epoch_secs`
/// seconds after 1970-01-01T00:00:00Z), region and service, as
/// `aws_sigv4::sign::v4::generate_signing_key` computes it.
pub uninterp spec fn signing_key_of(
    secret: Seq<u8>,
    epoch_secs: u64,
    region: Seq<u8>,
    service: Seq<u8>,
) -> Seq<u8>;

/// The lowercase-hex HMAC-SHA-256 tag of a message under a key, as
/// `aws_sigv4::sign::v4::calculate_signature` computes it.
pub uninterp spec fn hmac_hex_of(key: Seq<u8>, msg: Seq<u8>) -> Seq<u8>;

// ---------------------------------------------------------------------------
// Hex encoding (stated exactly)
// ---------------------------------------------------------------------------

/// The lowercase hex digit of a value below sixteen.
pub open spec fn hex_digit(v: u8) -> u8 {
    if v < 10 {
        (48 + v) as u8
    } else {
        (87 + v) as u8
    }
}

/// Lowercase hex encoding: two digits per byte, most significant first.
pub open spec fn hex_seq(s: Seq<u8>) -> Seq<u8>
    decreases s.len(),
{
    if s.len() == 0 {
        Seq::empty()
    } else {
        seq![hex_digit(s[0] / 16), hex_digit(s[0] % 16)] + hex_seq(s.drop_first())
    }
}

// ---------------------------------------------------------------------------
// Misc byte-level predicates the trusted contracts need
// ---------------------------------------------------------------------------

/// Every byte is seven-bit ASCII.
pub open spec fn is_ascii_seq(s: Seq<u8>) -> bool {
    forall|i: int| 0 <= i < s.len() ==> #[trigger] s[i] < 128
}

/// The largest number of epoch seconds the key derivation accepts:
/// 9999-12-31T23:59:59Z, the last instant of the protocol's calendar.
pub const MAX_EPOCH_SECS: u64 = 253402300799;

// ---------------------------------------------------------------------------
// Trusted wrappers
// ---------------------------------------------------------------------------

/// Relies on `sha2::Sha256::digest`: the SHA-256 digest of the input, which
/// is a function of the input bytes alone and is 32 bytes long.
#[verifier::external_body]
pub fn sha256(data: &Vec<u8>) -> (r: Vec<u8>)
    ensures
        r@ == sha256_of(data@),
        r@.len() == 32,
{
    sha2::Sha256::digest(data.as_slice()).to_vec()
}

/// Relies on `hex::encode`: it encodes the input as lowercase hex, two
/// digits per byte, most significant digit first.
#[verifier::external_body]
pub fn hex_encode(data: &Vec<u8>) -> (r: Vec<u8>)
    ensures
        r@ == hex_seq(data@),
{
    hex::encode(data.as_slice()).into_bytes()
}

/// Relies on `aws_sigv4::sign::v4::generate_signing_key`: the SigV4
/// key-derivation chain over the secret, the date of the given instant, the
/// region and the service; a function of those arguments alone. The inputs
/// are restricted to ASCII text and to instants the date arithmetic of the
/// underlying time conversion represents.
#[verifier::external_body]
pub fn derive_signing_key(
    secret: &Vec<u8>,
    epoch_secs: u64,
    region: &Vec<u8>,
    service: &Vec<u8>,
) -> (r: Vec<u8>)
    requires
        is_ascii_seq(secret@),
        is_ascii_seq(region@),
        is_ascii_seq(service@),
        epoch_secs <= MAX_EPOCH_SECS,
    ensures
        r@ == signing_key_of(secret@, epoch_secs, region@, service@),
{
    let time = std::time::UNIX_EPOCH + std::time::Duration::from_secs(epoch_secs);
    let key = aws_sigv4::sign::v4::generate_signing_key(
        std::str::from_utf8(secret.as_slice()).unwrap(),
        time,
        std::str::from_utf8(region.as_slice()).unwrap(),
        std::str::from_utf8(service.as_slice()).unwrap(),
    );
    key.as_ref().to_vec()
}

/// Relies on `aws_sigv4::sign::v4::calculate_signature`: the HMAC-SHA-256
/// tag of the message under the key, hex-encoded in lowercase; a function of
/// key and message alone, defined for keys of any length.
#[verifier::external_body]
pub fn hmac_hex(key: &Vec<u8>, msg: &Vec<u8>) -> (r: Vec<u8>)
    ensures
        r@ == hmac_hex_of(key@, msg@),
{
    aws_sigv4::sign::v4::calculate_signature(key.as_slice(), msg.as_slice()).into_bytes()
}

} // verus!
