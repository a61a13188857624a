//! [`Encrypter`](crate::Encrypter) implementations.
//!
//! The one encrypter shipped here, [`Ring`], derives a per-secret key from
//! the password with PBKDF2-HMAC-SHA-256 and a fresh random salt, encrypts
//! with AES-256-GCM under a fresh random nonce, and packs nonce, tag and
//! ciphertext — in that order — into one base64 text.  The cryptographic
//! primitives are called through the trusted wrappers at the bottom of this
//! file; everything else, the packing and unpacking above all, is verified.
use vstd::prelude::*;

use vstd::string::StrSliceExecFns;
use vstd::utf8::{decode_utf8, encode_utf8, encode_utf8_decode_utf8, encode_utf8_valid_utf8,
    valid_utf8};

use crate::{Encrypted, EncryptedView, Encrypter, Error, Secret};

verus! {

/// Nonce length of AES-256-GCM, in bytes.
pub const IV_SIZE: usize = 12;

/// Authentication-tag length of AES-256-GCM, in bytes.
pub const TAG_SIZE: usize = 16;

/// Length of the per-secret key-derivation salt, in bytes.
pub const SALT_SIZE: usize = 32;

/// Length of the derived AES-256 key, in bytes.
pub const KEY_LEN: usize = 32;

/// PBKDF2 iteration count: slow enough to deter offline brute force, fast
/// enough for interactive use.
pub const PBKDF2_ITERATIONS: u32 = 100_000;

/// Cap on the password's length in characters.  Callers check it with
/// `unicode_len`; it keeps the password's UTF-8 form under
/// [`MAX_PASSWORD_BYTES`], so key derivation is total.
pub const MAX_PASSWORD_CHARS: u64 = 0x0400_0000_0000_0000;

/// Cap on the password's UTF-8 length, far below the underlying digest's
/// input limit: under it, key derivation is total.
pub const MAX_PASSWORD_BYTES: u64 = 0x1000_0000_0000_0000;

/// A character sequence's UTF-8 form takes at most four bytes per
/// character.
pub proof fn lemma_encode_utf8_len(chars: Seq<char>)
    ensures
        encode_utf8(chars).len() <= 4 * chars.len(),
    decreases chars.len(),
{
    if chars.len() != 0 {
        lemma_encode_utf8_len(chars.drop_first());
    }
}

/// Cap on a stored salt's length, far below the underlying digest's input
/// limit: under it, key derivation is total.
pub const MAX_SALT_BYTES: u64 = 0x1000_0000_0000_0000;

/// The key PBKDF2-HMAC-SHA-256 derives, at this library's iteration count
/// and a 32-byte output, from the password bytes and the salt.
pub uninterp spec fn kdf_of(password: Seq<u8>, salt: Seq<u8>) -> Seq<u8>;

/// The ciphertext-and-tag AES-256-GCM produces, with empty associated data,
/// from key, nonce and plaintext.
pub uninterp spec fn aes_gcm_seal_of(key: Seq<u8>, nonce: Seq<u8>, plaintext: Seq<u8>) -> Seq<u8>;

/// What opening a ciphertext-and-tag under AES-256-GCM with empty associated
/// data yields: the plaintext, or nothing when the tag does not verify.
pub uninterp spec fn aes_gcm_open_of(key: Seq<u8>, nonce: Seq<u8>, ciphertext: Seq<u8>) -> Option<
    Seq<u8>,
>;

/// The standard, padded base64 text of a byte sequence.
pub uninterp spec fn b64_of(bytes: Seq<u8>) -> Seq<char>;

/// What standard, padded base64 decoding yields: the bytes, or nothing when
/// the text is not base64.
pub uninterp spec fn b64_decode_of(text: Seq<char>) -> Option<Seq<u8>>;

/// What decrypting a record under a password yields, stage by stage: base64
/// decoding of the packed field, the length check on it, base64 decoding of
/// the salt, key derivation, authenticated opening of ciphertext and tag
/// under the packed nonce, and UTF-8 decoding of the plaintext.
pub open spec fn ring_decrypt_spec(password: Seq<char>, enc: EncryptedView) -> Result<
    Seq<char>,
    Error,
> {
    match b64_decode_of(enc.secret) {
        None => Err(Error::DecodingError),
        Some(packed) => if packed.len() < (IV_SIZE + TAG_SIZE) as int {
            Err(Error::AuthenticationFailure)
        } else {
            match b64_decode_of(enc.salt) {
                None => Err(Error::DecodingError),
                Some(salt) => if salt.len() > MAX_SALT_BYTES as int {
                    Err(Error::DecodingError)
                } else {
                    let key = kdf_of(encode_utf8(password), salt);
                    let nonce = packed.subrange(0, IV_SIZE as int);
                    let tag = packed.subrange(IV_SIZE as int, (IV_SIZE + TAG_SIZE) as int);
                    let body = packed.skip((IV_SIZE + TAG_SIZE) as int);
                    match aes_gcm_open_of(key, nonce, body + tag) {
                        None => Err(Error::AuthenticationFailure),
                        Some(pt) => if valid_utf8(pt) {
                            Ok(decode_utf8(pt))
                        } else {
                            Err(Error::DecodingError)
                        },
                    }
                },
            }
        },
    }
}

/// Encrypt with PBKDF2-derived keys and AES-256-GCM, through the `ring`
/// crate.
pub struct Ring(String);

impl Ring {
    #[verifier::type_invariant]
    closed spec fn inv(&self) -> bool {
        encode_utf8(self.0@).len() <= MAX_PASSWORD_BYTES
    }

    /// The password every key of this encrypter is derived from.
    pub closed spec fn spec_password(&self) -> Seq<char> {
        self.0@
    }

    /// An encrypter for the given password; `unicode_len` tells a caller
    /// whether a password is under the cap.
    pub fn new(password: String) -> (r: Self)
        requires
            password@.len() <= MAX_PASSWORD_CHARS,
        ensures
            r.spec_password() == password@,
    {
        proof {
            lemma_encode_utf8_len(password@);
        }
        Ring(password)
    }

    /// The AES key for one salt: PBKDF2-HMAC-SHA-256 over the password.
    fn key(&self, salt: &Vec<u8>) -> (r: Vec<u8>)
        requires
            salt@.len() <= MAX_SALT_BYTES as int,
        ensures
            r@ == kdf_of(encode_utf8(self.spec_password()), salt@),
            r@.len() == KEY_LEN as int,
    {
        proof {
            use_type_invariant(&*self);
        }
        derive_key(self.0.as_str(), salt)
    }
}

impl Encrypter for Ring {
    open spec fn decrypt_spec(&self, enc: EncryptedView) -> Result<Seq<char>, Error> {
        ring_decrypt_spec(self.spec_password(), enc)
    }

    fn encrypt(&self, secret: Secret) -> (r: Result<Encrypted, Error>)
        ensures
            r matches Ok(enc) ==> exists|salt: Seq<u8>, iv: Seq<u8>|
                ({
                    let ct = #[trigger] aes_gcm_seal_of(
                        kdf_of(encode_utf8(self.spec_password()), salt),
                        iv,
                        encode_utf8(secret@.secret),
                    );
                    &&& salt.len() == SALT_SIZE as int
                    &&& iv.len() == IV_SIZE as int
                    &&& ct.len() == encode_utf8(secret@.secret).len() + TAG_SIZE as int
                    &&& enc@.secret == b64_of(
                        iv + ct.skip(ct.len() - TAG_SIZE) + ct.take(ct.len() - TAG_SIZE),
                    )
                    &&& enc@.salt == b64_of(salt)
                }),
            r is Err ==> r == Err::<Encrypted, Error>(Error::IOError),
    {
        proof {
            use_type_invariant(&*self);
        }
        let rng = new_rng();
        let salt = match random_bytes(&rng, SALT_SIZE) {
            Ok(b) => b,
            Err(e) => return Err(e),
        };
        let iv = match random_bytes(&rng, IV_SIZE) {
            Ok(b) => b,
            Err(e) => return Err(e),
        };
        let key = self.key(&salt);
        let pt = secret.secret.as_str().as_bytes_vec();
        let sealed = match aes_gcm_seal(&key, &iv, &pt) {
            Ok(c) => c,
            Err(e) => return Err(e),
        };
        let body_len = sealed.len() - TAG_SIZE;
        let tag = sub_vec(&sealed, body_len, sealed.len());
        let body = sub_vec(&sealed, 0, body_len);
        let ghost iv_seq = iv@;
        let mut packed = iv;
        let mut rest = tag;
        packed.append(&mut rest);
        let mut rest2 = body;
        packed.append(&mut rest2);
        let secret_b64 = b64_encode(&packed);
        let salt_b64 = b64_encode(&salt);
        let enc = Encrypted::new(secret.name, secret_b64, salt_b64);
        proof {
            encode_utf8_valid_utf8(secret.secret@);
            encode_utf8_decode_utf8(secret.secret@);
            assert(packed@.subrange(0, IV_SIZE as int) =~= iv_seq);
            assert(packed@.subrange(IV_SIZE as int, (IV_SIZE + TAG_SIZE) as int) =~= sealed@
                .subrange(body_len as int, sealed@.len() as int));
            assert(packed@.skip((IV_SIZE + TAG_SIZE) as int) =~= sealed@.subrange(
                0,
                body_len as int,
            ));
            assert(packed@.skip((IV_SIZE + TAG_SIZE) as int) + packed@.subrange(
                IV_SIZE as int,
                (IV_SIZE + TAG_SIZE) as int,
            ) =~= sealed@);
            let ct = aes_gcm_seal_of(
                kdf_of(encode_utf8(self.spec_password()), salt@),
                iv_seq,
                encode_utf8(secret@.secret),
            );
            assert(ct == sealed@);
            assert(iv_seq + ct.skip(ct.len() - TAG_SIZE) + ct.take(ct.len() - TAG_SIZE)
                =~= packed@);
            assert(salt@.len() == SALT_SIZE as int);
            assert(iv_seq.len() == IV_SIZE as int);
            assert(ct.len() == encode_utf8(secret@.secret).len() + TAG_SIZE as int);
            assert(enc@.secret == b64_of(
                iv_seq + ct.skip(ct.len() - TAG_SIZE) + ct.take(ct.len() - TAG_SIZE),
            ));
            assert(enc@.salt == b64_of(salt@));
        }
        Ok(enc)
    }

    fn decrypt(&self, encrypted: Encrypted) -> (r: Result<Secret, Error>) {
        proof {
            use_type_invariant(&*self);
        }
        let packed = match b64_decode(encrypted.secret.as_str()) {
            Ok(p) => p,
            Err(e) => return Err(e),
        };
        if packed.len() < IV_SIZE + TAG_SIZE {
            return Err(Error::AuthenticationFailure);
        }
        let salt = match b64_decode(encrypted.salt.as_str()) {
            Ok(s) => s,
            Err(e) => return Err(e),
        };
        if (salt.len() as u64) > MAX_SALT_BYTES {
            return Err(Error::DecodingError);
        }
        let key = self.key(&salt);
        let iv = sub_vec(&packed, 0, IV_SIZE);
        let tag = sub_vec(&packed, IV_SIZE, IV_SIZE + TAG_SIZE);
        let mut ct = sub_vec(&packed, IV_SIZE + TAG_SIZE, packed.len());
        let mut rest = tag;
        ct.append(&mut rest);
        let pt = match aes_gcm_open(&key, &iv, &ct) {
            Ok(p) => p,
            Err(e) => return Err(e),
        };
        let s = match bytes_to_string(pt) {
            Ok(s) => s,
            Err(e) => return Err(e),
        };
        Ok(Secret { name: encrypted.name, secret: s })
    }
}

/// The bytes of `v` from `from` (inclusive) to `to` (exclusive).
fn sub_vec(v: &Vec<u8>, from: usize, to: usize) -> (r: Vec<u8>)
    requires
        from <= to <= v@.len(),
    ensures
        r@ == v@.subrange(from as int, to as int),
{
    let mut out: Vec<u8> = Vec::new();
    let mut i: usize = from;
    while i < to
        invariant
            from <= i <= to <= v@.len(),
            out@ == v@.subrange(from as int, i as int),
        decreases to - i,
    {
        out.push(v[i]);
        proof {
            assert(v@.subrange(from as int, (i + 1) as int) =~= v@.subrange(
                from as int,
                i as int,
            ).push(v@[i as int]));
        }
        i += 1;
    }
    out
}

/// Relies on `ring::pbkdf2::derive` with `PBKDF2_HMAC_SHA256`: it fills the
/// whole output buffer with a key that is a function of the password bytes
/// and the salt alone; the length caps keep its inputs within what the
/// digest accepts.
#[verifier::external_body]
fn derive_key(password: &str, salt: &Vec<u8>) -> (r: Vec<u8>)
    requires
        encode_utf8(password@).len() <= MAX_PASSWORD_BYTES,
        salt@.len() <= MAX_SALT_BYTES as int,
    ensures
        r@ == kdf_of(encode_utf8(password@), salt@),
        r@.len() == KEY_LEN as int,
{
    let mut key = [0u8; 32];
    ring::pbkdf2::derive(
        ring::pbkdf2::PBKDF2_HMAC_SHA256,
        core::num::NonZeroU32::new(PBKDF2_ITERATIONS).expect("iteration count is not zero"),
        salt.as_slice(),
        password.as_bytes(),
        &mut key,
    );
    key.to_vec()
}

/// Relies on `ring::rand::SystemRandom::new`: a handle to the system's
/// secure random source.
#[verifier::external_body]
fn new_rng() -> ring::rand::SystemRandom {
    ring::rand::SystemRandom::new()
}

#[verifier::external_type_specification]
#[verifier::external_body]
pub struct ExSystemRandom(ring::rand::SystemRandom);

/// Relies on `ring::rand::SecureRandom::fill`: on success the buffer holds
/// `n` fresh random bytes; of a random value nothing more can be promised.
/// A failure of the random source surfaces as [`Error::IOError`].
#[verifier::external_body]
fn random_bytes(rng: &ring::rand::SystemRandom, n: usize) -> (r: Result<Vec<u8>, Error>)
    ensures
        match r {
            Ok(b) => b@.len() == n,
            Err(e) => e == Error::IOError,
        },
{
    let mut buf = vec![0u8; n];
    match ring::rand::SecureRandom::fill(rng, &mut buf) {
        Ok(()) => Ok(buf),
        Err(_) => Err(Error::IOError),
    }
}

/// Relies on ring's AES-256-GCM `seal_in_place_append_tag`: the output is
/// the ciphertext followed by the 16-byte tag, a function of key, nonce and
/// plaintext alone, and `open_in_place` under the same key and nonce gives
/// the plaintext back.  A fault of the cipher surfaces as
/// [`Error::IOError`].
#[verifier::external_body]
fn aes_gcm_seal(key: &Vec<u8>, nonce: &Vec<u8>, plaintext: &Vec<u8>) -> (r: Result<Vec<u8>, Error>)
    requires
        key@.len() == KEY_LEN as int,
        nonce@.len() == IV_SIZE as int,
    ensures
        match r {
            Ok(ct) => ct@ == aes_gcm_seal_of(key@, nonce@, plaintext@) && ct@.len()
                == plaintext@.len() + TAG_SIZE && aes_gcm_open_of(key@, nonce@, ct@) == Some(
                plaintext@,
            ),
            Err(e) => e == Error::IOError,
        },
{
    let ukey = match ring::aead::UnboundKey::new(&ring::aead::AES_256_GCM, key.as_slice()) {
        Ok(k) => k,
        Err(_) => return Err(Error::IOError),
    };
    let lkey = ring::aead::LessSafeKey::new(ukey);
    let mut iv = [0u8; 12];
    iv.copy_from_slice(nonce.as_slice());
    let n = ring::aead::Nonce::assume_unique_for_key(iv);
    let mut buf = plaintext.clone();
    match lkey.seal_in_place_append_tag(n, ring::aead::Aad::empty(), &mut buf) {
        Ok(()) => Ok(buf),
        Err(_) => Err(Error::IOError),
    }
}

/// Relies on ring's AES-256-GCM `open_in_place`: it checks the trailing
/// 16-byte tag and returns the plaintext without it; success and plaintext
/// are a function of key, nonce and input alone.
#[verifier::external_body]
fn aes_gcm_open(key: &Vec<u8>, nonce: &Vec<u8>, ciphertext: &Vec<u8>) -> (r: Result<Vec<u8>, Error>)
    requires
        key@.len() == KEY_LEN as int,
        nonce@.len() == IV_SIZE as int,
    ensures
        match r {
            Ok(pt) => aes_gcm_open_of(key@, nonce@, ciphertext@) == Some(pt@),
            Err(e) => aes_gcm_open_of(key@, nonce@, ciphertext@) is None && e
                == Error::AuthenticationFailure,
        },
{
    let ukey = match ring::aead::UnboundKey::new(&ring::aead::AES_256_GCM, key.as_slice()) {
        Ok(k) => k,
        Err(_) => return Err(Error::AuthenticationFailure),
    };
    let lkey = ring::aead::LessSafeKey::new(ukey);
    let mut iv = [0u8; 12];
    iv.copy_from_slice(nonce.as_slice());
    let n = ring::aead::Nonce::assume_unique_for_key(iv);
    let mut buf = ciphertext.clone();
    match lkey.open_in_place(n, ring::aead::Aad::empty(), &mut buf) {
        Ok(pt) => Ok(pt.to_vec()),
        Err(_) => Err(Error::AuthenticationFailure),
    }
}

/// Relies on `base64::encode` (standard alphabet, padded): the text is a
/// function of the input bytes alone, and `base64::decode` maps it back to
/// them.
#[verifier::external_body]
fn b64_encode(bytes: &Vec<u8>) -> (r: String)
    ensures
        r@ == b64_of(bytes@),
        b64_decode_of(r@) == Some(bytes@),
{
    base64::encode(bytes.as_slice())
}

/// Relies on `base64::decode` (standard alphabet, padded): acceptance and
/// the decoded bytes are a function of the input text alone.
#[verifier::external_body]
fn b64_decode(text: &str) -> (r: Result<Vec<u8>, Error>)
    ensures
        match r {
            Ok(b) => b64_decode_of(text@) == Some(b@),
            Err(e) => b64_decode_of(text@) is None && e == Error::DecodingError,
        },
{
    match base64::decode(text) {
        Ok(b) => Ok(b),
        Err(_) => Err(Error::DecodingError),
    }
}

/// Relies on `String::from_utf8`: it succeeds exactly on valid UTF-8 and
/// returns the string those bytes spell.
#[verifier::external_body]
fn bytes_to_string(bytes: Vec<u8>) -> (r: Result<String, Error>)
    ensures
        match r {
            Ok(s) => valid_utf8(bytes@) && s@ == decode_utf8(bytes@),
            Err(e) => !valid_utf8(bytes@) && e == Error::DecodingError,
        },
{
    match String::from_utf8(bytes) {
        Ok(s) => Ok(s),
        Err(_) => Err(Error::DecodingError),
    }
}

} // verus!
