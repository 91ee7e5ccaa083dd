use vstd::prelude::*;

use crate::codec::{unsigned_of, varint_bytes, write_var_i32, CodecError};
use crate::packets::{decode_encryption_request, spec_encryption_request};
use rand::{RngCore, SeedableRng};
use rsa::pkcs8::DecodePublicKey;

verus! {

#[verifier::external_type_specification]
#[verifier::external_body]
pub struct ExRsaPublicKey(rsa::RsaPublicKey);

#[verifier::external_type_specification]
#[verifier::external_body]
pub struct ExSpkiError(rsa::pkcs8::spki::Error);

#[verifier::external_type_specification]
#[verifier::external_body]
pub struct ExRsaError(rsa::Error);

/// Why the reply to an encryption request could not be built.
#[derive(Debug, Clone, Copy)]
pub enum AuthError {
    /// The request body could not be read.
    Codec(CodecError),
    /// The server's public key is not a DER-encoded RSA key.
    PublicKey,
    /// The operating system's random source could not give the secret.
    Random,
    /// The secret or the verify token is longer than the key's modulus less eleven bytes.
    Encryption,
}

/// Whether `rsa`'s `RsaPublicKey::from_public_key_der` accepts these bytes.
pub uninterp spec fn accepts_public_key_der(der: Seq<u8>) -> bool;

/// Decodes a DER SubjectPublicKeyInfo holding an RSA key with
/// `rsa::RsaPublicKey::from_public_key_der`. Whether the bytes are accepted depends on the
/// bytes alone; which bytes those are (a well-formed document, a key that passes the crate's
/// checks) is not stated.
#[verifier::external_body]
fn public_key_from_der(der: &[u8]) -> (r: Result<rsa::RsaPublicKey, rsa::pkcs8::spki::Error>)
    ensures
        r is Ok == accepts_public_key_der(der@),
{
    rsa::RsaPublicKey::from_public_key_der(der)
}

/// Whether `ciphertext` is a PKCS#1 v1.5 encryption of `message` under the RSA public key
/// that the DER SubjectPublicKeyInfo `der` holds. The padding is random, so many ciphertexts
/// stand in this relation to one key and message; which ones is not stated.
pub uninterp spec fn pkcs1v15_encryption_of(der: Seq<u8>, message: Seq<u8>, ciphertext: Seq<u8>) -> bool;

/// The length in bytes of the modulus (`PublicKeyParts::size`) of the RSA public key that
/// `rsa::RsaPublicKey::from_public_key_der` reads from `der`; meaningful when the bytes are
/// accepted.
pub uninterp spec fn rsa_modulus_len(der: Seq<u8>) -> nat;

/// Decodes the key with `rsa::RsaPublicKey::from_public_key_der` and encrypts `message` to it
/// with `RsaPublicKey::encrypt` and PKCS#1 v1.5 padding, the padding drawn from a ChaCha
/// generator (`rand`'s `StdRng`) seeded with the thirty-two bytes of `seed`, which never fails.
/// What is claimed, as the crate's source shows it: for an accepted key the call succeeds
/// exactly when the message is at most the modulus length less eleven bytes (a key the decoder
/// accepted has passed the checks that `encrypt` repeats, and the raw RSA step and its
/// left-padding to the modulus length cannot fail); the ciphertext is as long as the modulus
/// and is an encryption of `message` under the key; and nothing is encrypted for bytes the
/// decoder refuses.
#[verifier::external_body]
fn encrypt_pkcs1v15(der: &[u8], message: &[u8], seed: &[u8]) -> (r: Result<Vec<u8>, rsa::Error>)
    requires
        seed@.len() == 32,
    ensures
        r is Ok ==> accepts_public_key_der(der@),
        accepts_public_key_der(der@) ==> (r is Ok <==> message@.len() + 11 <= rsa_modulus_len(
            der@,
        )),
        r matches Ok(c) ==> c@.len() == rsa_modulus_len(der@),
        r matches Ok(c) ==> pkcs1v15_encryption_of(der@, message@, c@),
{
    let mut seed_bytes = [0u8; 32];
    seed_bytes.copy_from_slice(seed);
    let mut rng = rand::rngs::StdRng::from_seed(seed_bytes);
    match rsa::RsaPublicKey::from_public_key_der(der) {
        Ok(key) => key.encrypt(&mut rng, rsa::Pkcs1v15Encrypt, message),
        Err(e) => Err(rsa::Error::Pkcs8(rsa::pkcs8::Error::PublicKey(e))),
    }
}

/// `len` bytes from the operating system's random source (`rand`'s
/// `OsRng::try_fill_bytes`), or `None` when that source reports a failure.
#[verifier::external_body]
fn random_bytes(len: usize) -> (r: Option<Vec<u8>>)
    ensures
        r matches Some(s) ==> s@.len() == len,
{
    let mut bytes = vec![0u8; len];
    match rand::rngs::OsRng.try_fill_bytes(&mut bytes) {
        Ok(()) => Some(bytes),
        Err(_) => None,
    }
}

/// An encryption-response body: the encrypted secret and the encrypted verify token, each
/// after its length as a VarInt.
pub open spec fn encryption_response_body(secret: Seq<u8>, token: Seq<u8>) -> Seq<u8> {
    varint_bytes(unsigned_of(secret.len() as i32)) + secret + varint_bytes(
        unsigned_of(token.len() as i32),
    ) + token
}

/// Builds the encryption-response body for an encrypted secret and verify token.
pub fn encode_encryption_response(secret: &[u8], token: &[u8]) -> (r: Vec<u8>)
    ensures
        r@ == encryption_response_body(secret@, token@),
{
    let mut response: Vec<u8> = Vec::new();
    write_var_i32(&mut response, secret.len() as i32);
    let mut i: usize = 0;
    let ghost start = response@;
    while i < secret.len()
        invariant
            i <= secret@.len(),
            response@ == start + secret@.subrange(0, i as int),
        decreases secret.len() - i,
    {
        response.push(secret[i]);
        i += 1;
        assert(response@ =~= start + secret@.subrange(0, i as int));
    }
    assert(secret@.subrange(0, secret@.len() as int) =~= secret@);
    write_var_i32(&mut response, token.len() as i32);
    let ghost middle = response@;
    let mut j: usize = 0;
    while j < token.len()
        invariant
            j <= token@.len(),
            response@ == middle + token@.subrange(0, j as int),
        decreases token.len() - j,
    {
        response.push(token[j]);
        j += 1;
        assert(response@ =~= middle + token@.subrange(0, j as int));
    }
    assert(token@.subrange(0, token@.len() as int) =~= token@);
    response
}

/// What the client sends back for an encryption request: the shared secret it chose, the
/// secret and the verify token as encrypted to the server's key, and the response body.
pub struct EncryptionReply {
    pub secret: Vec<u8>,
    pub encrypted_secret: Vec<u8>,
    pub encrypted_token: Vec<u8>,
    pub body: Vec<u8>,
}

/// Answers an encryption-request body: reads the server's public key and verify token,
/// chooses a random sixteen-byte secret, encrypts the secret and the token to the key (each
/// with padding from its own freshly drawn seed), and frames both in the response body.
pub fn prepare_encryption_response(request: Vec<u8>) -> (r: Result<EncryptionReply, AuthError>)
    ensures
        match spec_encryption_request(request@) {
            Err(e) => r == Err::<EncryptionReply, AuthError>(AuthError::Codec(e)),
            Ok((der, token)) => match r {
                Ok(reply) => {
                    &&& accepts_public_key_der(der)
                    &&& reply.secret@.len() == 16
                    &&& reply.encrypted_secret@.len() == rsa_modulus_len(der)
                    &&& reply.encrypted_token@.len() == rsa_modulus_len(der)
                    &&& pkcs1v15_encryption_of(der, reply.secret@, reply.encrypted_secret@)
                    &&& pkcs1v15_encryption_of(der, token, reply.encrypted_token@)
                    &&& reply.body@ == encryption_response_body(
                        reply.encrypted_secret@,
                        reply.encrypted_token@,
                    )
                },
                Err(e) => if !accepts_public_key_der(der) {
                    e is PublicKey
                } else if 16 + 11 > rsa_modulus_len(der) || token.len() + 11 > rsa_modulus_len(
                    der,
                ) {
                    e is Random || e is Encryption
                } else {
                    e is Random
                },
            },
        },
{
    let (public_key, token) = match decode_encryption_request(request) {
        Ok(v) => v,
        Err(e) => return Err(AuthError::Codec(e)),
    };
    if public_key_from_der(public_key.as_slice()).is_err() {
        return Err(AuthError::PublicKey);
    }
    let secret = match random_bytes(16) {
        Some(s) => s,
        None => return Err(AuthError::Random),
    };
    let secret_seed = match random_bytes(32) {
        Some(s) => s,
        None => return Err(AuthError::Random),
    };
    let token_seed = match random_bytes(32) {
        Some(s) => s,
        None => return Err(AuthError::Random),
    };
    let encrypted_secret = match encrypt_pkcs1v15(
        public_key.as_slice(),
        secret.as_slice(),
        secret_seed.as_slice(),
    ) {
        Ok(c) => c,
        Err(_) => return Err(AuthError::Encryption),
    };
    let encrypted_token = match encrypt_pkcs1v15(
        public_key.as_slice(),
        token.as_slice(),
        token_seed.as_slice(),
    ) {
        Ok(c) => c,
        Err(_) => return Err(AuthError::Encryption),
    };
    let body = encode_encryption_response(encrypted_secret.as_slice(), encrypted_token.as_slice());
    Ok(EncryptionReply { secret, encrypted_secret, encrypted_token, body })
}

} // verus!
