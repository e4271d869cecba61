use hkdf::Hkdf;
use sha2::Sha256;

use crate::models::CryptoHeader;
use crate::AideError;
use vstd::prelude::*;
use vstd::string::StringSliceAdditionalSpecFns;

verus! {

/// Number of bytes in the wire form of a `CryptoHeader`.
pub const HEADER_LEN: usize = 6;

/// Largest output HKDF-SHA256 can expand to: 255 blocks of 32 bytes.
pub const HKDF_SHA256_MAX_OKM: usize = 8160;

impl CryptoHeader {
    /// The wire form: one byte per field, in declaration order.
    pub open spec fn encode_spec(self) -> Seq<u8> {
        seq![self.version, self.hook_alg, self.payload_alg, self.ze_type, self.ze_version, self.flags]
    }

    /// The header read from a six-byte sequence, byte `i` into field `i`.
    pub open spec fn from_bytes_spec(b: Seq<u8>) -> CryptoHeader
        recommends
            b.len() == HEADER_LEN,
    {
        CryptoHeader {
            version: b[0],
            hook_alg: b[1],
            payload_alg: b[2],
            ze_type: b[3],
            ze_version: b[4],
            flags: b[5],
        }
    }

    /// What decoding yields: a header for exactly six bytes, a length error otherwise.
    pub open spec fn decode_spec(b: Seq<u8>) -> Result<CryptoHeader, AideError> {
        if b.len() != HEADER_LEN {
            Err(AideError::InvalidHeaderLength)
        } else {
            Ok(CryptoHeader::from_bytes_spec(b))
        }
    }

    pub fn encode(&self) -> (r: [u8; 6])
        ensures
            r@ == self.encode_spec(),
    {
        let r: [u8; 6] = [
            self.version,
            self.hook_alg,
            self.payload_alg,
            self.ze_type,
            self.ze_version,
            self.flags,
        ];
        assert(r@ =~= self.encode_spec());
        r
    }

    pub fn decode(bytes: &[u8]) -> (r: Result<CryptoHeader, AideError>)
        ensures
            r == CryptoHeader::decode_spec(bytes@),
            bytes@.len() != HEADER_LEN ==> r == Err::<CryptoHeader, AideError>(
                AideError::InvalidHeaderLength,
            ),
    {
        if bytes.len() != HEADER_LEN {
            return Err(AideError::InvalidHeaderLength);
        }
        Ok(
            CryptoHeader {
                version: bytes[0],
                hook_alg: bytes[1],
                payload_alg: bytes[2],
                ze_type: bytes[3],
                ze_version: bytes[4],
                flags: bytes[5],
            },
        )
    }
}

/// Decoding the encoding of any header gives that header back.
pub proof fn lemma_decode_encode(h: CryptoHeader)
    ensures
        CryptoHeader::decode_spec(h.encode_spec()) == Ok::<CryptoHeader, AideError>(h),
{
}

/// Any six bytes decode to a header whose encoding is those same bytes.
pub proof fn lemma_encode_decode(b: Seq<u8>)
    requires
        b.len() == HEADER_LEN,
    ensures
        CryptoHeader::decode_spec(b) is Ok,
        CryptoHeader::decode_spec(b)->Ok_0.encode_spec() == b,
{
    assert(CryptoHeader::from_bytes_spec(b).encode_spec() =~= b);
}

/// The output keying material of HKDF-SHA256 (RFC 5869, extract then expand)
/// for input key material `ikm`, salt `salt`, context `info` and length `len`.
pub uninterp spec fn hkdf_sha256_okm(ikm: Seq<u8>, salt: Seq<u8>, info: Seq<u8>, len: nat) -> Seq<u8>;

#[verifier::external_type_specification]
#[verifier::external_body]
pub struct ExInvalidLength(hkdf::InvalidLength);

/// Relies on `hkdf::Hkdf::<Sha256>::new(Some(salt), ikm)` followed by
/// `Hkdf::expand(info, okm)`: the expansion fills all of `okm` with the
/// HKDF-SHA256 output, and fails with `InvalidLength`, leaving `okm` untouched,
/// exactly when `okm` is longer than 255 * 32 bytes.
#[verifier::external_body]
fn hkdf_sha256_fill(ikm: &[u8], salt: &[u8], info: &[u8], okm: &mut Vec<u8>) -> (r: Result<
    (),
    hkdf::InvalidLength,
>)
    ensures
        final(okm)@.len() == old(okm)@.len(),
        r is Ok <==> old(okm)@.len() <= HKDF_SHA256_MAX_OKM,
        r is Ok ==> final(okm)@ == hkdf_sha256_okm(ikm@, salt@, info@, old(okm)@.len()),
        r is Err ==> final(okm)@ == old(okm)@,
{
    Hkdf::<Sha256>::new(Some(salt), ikm).expand(info, okm.as_mut_slice())
}

/// Derives `length` bytes of key material bound to `purpose` from a master key
/// and salt with HKDF-SHA256; the purpose label is the HKDF context.
pub fn derive_isolated_key(master_key: &[u8], salt: &[u8], purpose: &str, length: usize) -> (r:
    Result<Vec<u8>, AideError>)
    ensures
        r is Ok <==> length <= HKDF_SHA256_MAX_OKM,
        r matches Ok(k) ==> k@.len() == length,
        r matches Ok(k) ==> k@ == hkdf_sha256_okm(
            master_key@,
            salt@,
            purpose.spec_bytes(),
            length as nat,
        ),
        r is Err ==> r == Err::<Vec<u8>, AideError>(AideError::HkdfError),
{
    let mut okm: Vec<u8> = vec![0u8; length];
    match hkdf_sha256_fill(master_key, salt, purpose.as_bytes(), &mut okm) {
        Ok(()) => Ok(okm),
        Err(_) => Err(AideError::HkdfError),
    }
}

} // verus!
