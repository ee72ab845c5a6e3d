//! Ed25519 signing and verification of packages.
//!
//! The signed message is the canonical signable bytes of the metadata
//! followed by the raw 32-byte payload digest. Keys travel base64-encoded:
//! a key file holds 64 bytes (seed then public key).

use vstd::prelude::*;

use crate::LxeError;
use crate::codec::{hex_text_val, is_hex_text, hex_decode};
use crate::metadata::{LxeMetadata, MetaV, ser_signable, strip_unsigned, lemma_signable_ignores_unsigned_fields};
use sha2::Digest;
use base64::Engine;
use ed25519_dalek::{Signer, Verifier};
use rand::RngCore;

verus! {

/// SHA-256 of a byte string; what `sha2` computes.
pub uninterp spec fn sha256_of(data: Seq<u8>) -> Seq<u8>;

/// The standard base64 encoding of a byte string.
pub uninterp spec fn b64_of(data: Seq<u8>) -> Seq<u8>;

/// The standard base64 decoding of a byte string, where it is well formed.
pub uninterp spec fn b64_decode_of(text: Seq<u8>) -> Option<Seq<u8>>;

/// The Ed25519 public key derived from a 32-byte seed.
pub uninterp spec fn ed_pub_of(seed: Seq<u8>) -> Seq<u8>;

/// The Ed25519 signature of a message under the key with the given seed.
pub uninterp spec fn ed_sig_of(seed: Seq<u8>, msg: Seq<u8>) -> Seq<u8>;

/// Whether an Ed25519 signature verifies for a public key and message.
pub uninterp spec fn ed_verifies(pk: Seq<u8>, msg: Seq<u8>, sig: Seq<u8>) -> bool;

/// Relies on `sha2::Sha256`: a deterministic 32-byte digest of the input.
#[verifier::external_body]
pub fn sha256(data: &Vec<u8>) -> (r: Vec<u8>)
    ensures
        r@ == sha256_of(data@),
        r@.len() == 32,
{
    sha2::Sha256::digest(data.as_slice()).to_vec()
}

/// Relies on `base64`'s standard engine: a deterministic encoding whose
/// decoding returns the input bytes.
#[verifier::external_body]
pub fn b64_encode(data: &Vec<u8>) -> (r: Vec<u8>)
    ensures
        r@ == b64_of(data@),
        b64_decode_of(r@) == Some(data@),
{
    base64::engine::general_purpose::STANDARD.encode(data.as_slice()).into_bytes()
}

/// Relies on `base64`'s standard engine: decodes well-formed base64 text and
/// refuses anything else.
#[verifier::external_body]
pub fn b64_decode(text: &Vec<u8>) -> (r: Option<Vec<u8>>)
    ensures
        match r {
            Some(b) => b64_decode_of(text@) == Some(b@),
            None => b64_decode_of(text@) is None,
        },
{
    match base64::engine::general_purpose::STANDARD.decode(text.as_slice()) {
        Ok(b) => Some(b),
        Err(_) => None,
    }
}

/// Relies on `ed25519_dalek::SigningKey::from_bytes` and `verifying_key`:
/// the public key is a function of the seed alone.
#[verifier::external_body]
pub fn ed25519_public_key(seed: &Vec<u8>) -> (r: Vec<u8>)
    requires
        seed@.len() == 32,
    ensures
        r@ == ed_pub_of(seed@),
        r@.len() == 32,
{
    let mut arr = [0u8; 32];
    arr.copy_from_slice(seed.as_slice());
    let sk = ed25519_dalek::SigningKey::from_bytes(&arr);
    sk.verifying_key().to_bytes().to_vec()
}

/// Relies on `ed25519_dalek`'s `Signer::sign`: a deterministic 64-byte
/// signature that verifies under the matching public key.
#[verifier::external_body]
pub fn ed25519_sign(seed: &Vec<u8>, msg: &Vec<u8>) -> (r: Vec<u8>)
    requires
        seed@.len() == 32,
    ensures
        r@ == ed_sig_of(seed@, msg@),
        r@.len() == 64,
        ed_verifies(ed_pub_of(seed@), msg@, r@),
{
    let mut arr = [0u8; 32];
    arr.copy_from_slice(seed.as_slice());
    let sk = ed25519_dalek::SigningKey::from_bytes(&arr);
    sk.sign(msg.as_slice()).to_bytes().to_vec()
}

/// Relies on `ed25519_dalek`'s `Verifier::verify`: true exactly when the
/// signature verifies; false also when the public key bytes do not decode
/// to a valid key.
#[verifier::external_body]
pub fn ed25519_verify(pk: &Vec<u8>, msg: &Vec<u8>, sig: &Vec<u8>) -> (r: bool)
    requires
        pk@.len() == 32,
        sig@.len() == 64,
    ensures
        r == ed_verifies(pk@, msg@, sig@),
{
    let mut pa = [0u8; 32];
    pa.copy_from_slice(pk.as_slice());
    let mut sa = [0u8; 64];
    sa.copy_from_slice(sig.as_slice());
    match ed25519_dalek::VerifyingKey::from_bytes(&pa) {
        Ok(vk) => vk.verify(msg.as_slice(), &ed25519_dalek::Signature::from_bytes(&sa)).is_ok(),
        Err(_) => false,
    }
}

/// Relies on `rand::rngs::OsRng`: 32 bytes from the operating system's
/// cryptographic generator; nothing is promised of their values.
#[verifier::external_body]
pub fn random_seed() -> (r: Vec<u8>)
    ensures
        r@.len() == 32,
{
    let mut seed = [0u8; 32];
    rand::rngs::OsRng.fill_bytes(&mut seed);
    seed.to_vec()
}

/// A signing keypair: the 32-byte seed and the public key it determines.
pub struct LxeKeyPair {
    pub seed: Vec<u8>,
    pub public: Vec<u8>,
}

impl LxeKeyPair {
    /// The public half is the one the seed determines.
    pub open spec fn wf(&self) -> bool {
        self.seed@.len() == 32 && self.public@.len() == 32 && self.public@ == ed_pub_of(self.seed@)
    }

    /// Draws a fresh keypair from the system's cryptographic generator.
    pub fn generate() -> (r: LxeKeyPair)
        ensures
            r.wf(),
    {
        let seed = random_seed();
        let public = ed25519_public_key(&seed);
        LxeKeyPair { seed, public }
    }

    /// Reads a keypair from the decoded bytes of a key file: 64 bytes, seed
    /// then public key; the public half is re-derived from the seed.
    pub fn from_key_bytes(bytes: &Vec<u8>) -> (r: Result<LxeKeyPair, LxeError>)
        ensures
            match r {
                Ok(kp) => bytes@.len() == 64 && kp.wf() && kp.seed@ == bytes@.subrange(0, 32),
                Err(e) => bytes@.len() != 64 && e == LxeError::ConfigInvalid,
            },
    {
        if bytes.len() != 64 {
            return Err(LxeError::ConfigInvalid);
        }
        let seed = crate::codec::copy_range(bytes, 0, 32);
        let public = ed25519_public_key(&seed);
        Ok(LxeKeyPair { seed, public })
    }

    /// The 64 key-file bytes: seed then public key.
    pub fn to_key_bytes(&self) -> (r: Vec<u8>)
        requires
            self.wf(),
        ensures
            r@ == self.seed@ + self.public@,
    {
        let mut out: Vec<u8> = Vec::new();
        out.extend_from_slice(self.seed.as_slice());
        out.extend_from_slice(self.public.as_slice());
        out
    }

    /// The base64 text of the public key, as embedded in metadata.
    pub fn public_key_base64(&self) -> (r: Vec<u8>)
        ensures
            r@ == b64_of(self.public@),
    {
        b64_encode(&self.public)
    }
}

/// The message a package signature covers: the signable metadata bytes
/// followed by the raw payload digest.
pub open spec fn signable_msg(v: MetaV, digest: Seq<u8>) -> Seq<u8> {
    ser_signable(v) + digest
}

/// Concatenates signable metadata bytes with the digest a hex checksum
/// denotes; refuses a malformed checksum.
pub fn create_signable_data(signable_json: &Vec<u8>, checksum_hex: &Vec<u8>) -> (r: Result<
    Vec<u8>,
    LxeError,
>)
    ensures
        match r {
            Ok(d) => is_hex_text(checksum_hex@) && d@ == signable_json@ + hex_text_val(
                checksum_hex@,
            ),
            Err(e) => !is_hex_text(checksum_hex@) && e == LxeError::MetadataParseError,
        },
{
    let digest = match hex_decode(checksum_hex) {
        Ok(d) => d,
        Err(e) => {
            return Err(e);
        },
    };
    let mut out: Vec<u8> = Vec::new();
    out.extend_from_slice(signable_json.as_slice());
    out.extend_from_slice(digest.as_slice());
    Ok(out)
}

/// Whether the signature fields of `v` verify against the signable bytes and
/// the given payload digest.
pub open spec fn verifies_spec(v: MetaV, digest: Seq<u8>) -> bool {
    match (v.public_key, v.signature) {
        (Some(pkt), Some(sgt)) => match (b64_decode_of(pkt), b64_decode_of(sgt)) {
            (Some(pk), Some(sg)) => pk.len() == 32 && sg.len() == 64 && ed_verifies(
                pk,
                signable_msg(v, digest),
                sg,
            ),
            _ => false,
        },
        _ => false,
    }
}

/// Signs the metadata: sets `public_key` and `signature` so that the package
/// verifies against the given payload digest. Every other field is kept, and
/// since the two fields set lie outside the signable projection, the bytes
/// under the signature are unchanged.
pub fn sign_metadata(m: &mut LxeMetadata, kp: &LxeKeyPair, digest: &Vec<u8>)
    requires
        kp.wf(),
    ensures
        final(m)@ == (MetaV {
            public_key: Some(b64_of(ed_pub_of(kp.seed@))),
            signature: Some(
                b64_of(ed_sig_of(kp.seed@, signable_msg(old(m)@, digest@))),
            ),
            ..old(m)@
        }),
        verifies_spec(final(m)@, digest@),
{
    let signable = m.to_signable_json();
    let mut msg = signable;
    msg.extend_from_slice(digest.as_slice());
    proof {
        assert(msg@ == signable_msg(m@, digest@));
    }
    let sig = ed25519_sign(&kp.seed, &msg);
    let pk_text = b64_encode(&kp.public);
    let sig_text = b64_encode(&sig);
    m.public_key = Some(pk_text);
    m.signature = Some(sig_text);
    proof {
        lemma_signable_ignores_unsigned_fields(old(m)@, m@);
        assert(ser_signable(m@) == ser_signable(old(m)@));
    }
}

/// Applies the verification policy of the format: a package with neither
/// `public_key` nor `signature` is unsigned and passes as such; one with
/// exactly one of them is malformed; one with both must verify against the
/// signable bytes and the digest, any decode failure counting as
/// unauthentic.
pub fn check_package_signature(m: &LxeMetadata, digest: &Vec<u8>) -> (r: Result<bool, LxeError>)
    ensures
        match r {
            Ok(true) => m@.public_key is Some && m@.signature is Some && verifies_spec(
                m@,
                digest@,
            ),
            Ok(false) => m@.public_key is None && m@.signature is None,
            Err(e) => {
                if e == LxeError::MalformedSignature {
                    (m@.public_key is Some) != (m@.signature is Some)
                } else {
                    e == LxeError::UnauthenticPackage && m@.public_key is Some && m@.signature
                        is Some && !verifies_spec(m@, digest@)
                }
            },
        },
{
    match (&m.public_key, &m.signature) {
        (None, None) => Ok(false),
        (Some(_), None) => Err(LxeError::MalformedSignature),
        (None, Some(_)) => Err(LxeError::MalformedSignature),
        (Some(pk_text), Some(sig_text)) => {
            let pk = match b64_decode(pk_text) {
                Some(b) => b,
                None => {
                    return Err(LxeError::UnauthenticPackage);
                },
            };
            let sig = match b64_decode(sig_text) {
                Some(b) => b,
                None => {
                    return Err(LxeError::UnauthenticPackage);
                },
            };
            if pk.len() != 32 || sig.len() != 64 {
                return Err(LxeError::UnauthenticPackage);
            }
            let signable = m.to_signable_json();
            let mut msg = signable;
            msg.extend_from_slice(digest.as_slice());
            proof {
                assert(msg@ == signable_msg(m@, digest@));
            }
            if ed25519_verify(&pk, &msg, &sig) {
                Ok(true)
            } else {
                Err(LxeError::UnauthenticPackage)
            }
        },
    }
}

} // verus!
