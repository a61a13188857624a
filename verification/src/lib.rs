//! A small encrypted key-value secret store.
//!
//! Plaintext secrets are held as [`Secret`] values; at rest they exist only as
//! [`Encrypted`] records.  An [`Encrypter`] turns one into the other given a
//! password, a [`Backend`] keeps encrypted records by name, and a [`Database`]
//! composes one of each behind a secret-oriented API (store, load, remove,
//! list, rename, rotate).
use vstd::prelude::*;

pub mod backends;
pub mod database;
pub mod encrypters;
pub mod records;

verus! {

/// The error taxonomy of the store.
///
/// `NotFound`: a name is absent from a backend.
/// `AuthenticationFailure`: an authentication tag did not verify (wrong
/// password, tampering, or corruption).
/// `DecodingError`: malformed base64 or UTF-8.
/// `IOError`: a system-level fault (for the in-memory core, a failure of the
/// random source or of the cipher itself).
/// `InvalidLayout`: a storage location of an unrecognized shape.
#[derive(Clone, Copy, Debug, PartialEq, Eq, Structural)]
pub enum Error {
    NotFound,
    AuthenticationFailure,
    DecodingError,
    IOError,
    InvalidLayout,
}

/// A plaintext secret and its name.
#[derive(Debug)]
pub struct Secret {
    pub name: String,
    pub secret: String,
}

/// The mathematical content of a [`Secret`]: both fields as character
/// sequences.
pub ghost struct SecretView {
    pub name: Seq<char>,
    pub secret: Seq<char>,
}

impl View for Secret {
    type V = SecretView;

    open spec fn view(&self) -> SecretView {
        SecretView { name: self.name@, secret: self.secret@ }
    }
}

impl Clone for Secret {
    fn clone(&self) -> (res: Self)
        ensures
            res@ == self@,
    {
        Secret { name: self.name.clone(), secret: self.secret.clone() }
    }
}

/// An encrypted secret and its name.
///
/// `secret` holds the base64 encoding of nonce, tag and ciphertext packed
/// into one byte string; `salt` holds the base64 encoding of the per-secret
/// key-derivation salt.  The record is opaque to every component but the
/// [`Encrypter`] that made it.
#[derive(Debug)]
pub struct Encrypted {
    pub(crate) name: String,
    pub(crate) secret: String,
    pub(crate) salt: String,
}

/// The mathematical content of an [`Encrypted`] record: all three fields as
/// character sequences.
pub ghost struct EncryptedView {
    pub name: Seq<char>,
    pub secret: Seq<char>,
    pub salt: Seq<char>,
}

impl View for Encrypted {
    type V = EncryptedView;

    closed spec fn view(&self) -> EncryptedView {
        EncryptedView { name: self.name@, secret: self.secret@, salt: self.salt@ }
    }
}

impl Clone for Encrypted {
    fn clone(&self) -> (res: Self)
        ensures
            res@ == self@,
    {
        Encrypted { name: self.name.clone(), secret: self.secret.clone(), salt: self.salt.clone() }
    }
}

impl Encrypted {
    /// Assemble a record from its three stored fields.
    pub fn new(name: String, secret: String, salt: String) -> (r: Self)
        ensures
            r@.name == name@,
            r@.secret == secret@,
            r@.salt == salt@,
    {
        Encrypted { name, secret, salt }
    }

    /// The lookup key of the record.
    pub fn name(&self) -> (r: &String)
        ensures
            r@ == self@.name,
    {
        &self.name
    }

    /// The base64 text of the packed nonce, tag and ciphertext.
    pub fn secret(&self) -> (r: &String)
        ensures
            r@ == self@.secret,
    {
        &self.secret
    }

    /// The base64 text of the key-derivation salt.
    pub fn salt(&self) -> (r: &String)
        ensures
            r@ == self@.salt,
    {
        &self.salt
    }
}

/// Storage behavior: what it means to store, load, remove and list encrypted
/// records.
///
/// An implementation's abstract state is the sequence `records()`.  Storing
/// replaces the first record of the same name in place or appends; loading
/// returns the first record of the name; removing drops every record of the
/// name.  Whether removing an absent name succeeds as a no-op or fails with
/// [`Error::NotFound`] is the implementation's documented choice; every other
/// outcome is fixed by the contracts below.
pub trait Backend: Sized {
    /// The records currently held, in storage order.
    spec fn records(&self) -> Seq<EncryptedView>;

    /// Insert the record, replacing the first record of the same name in
    /// place if one exists.
    fn store(&mut self, encrypted: Encrypted) -> (r: Result<(), Error>)
        ensures
            r is Ok ==> final(self).records() == crate::records::upsert(
                old(self).records(),
                encrypted@,
            ),
            r is Err ==> final(self).records() == old(self).records(),
    ;

    /// Return the first record of the given name, or `NotFound`.
    fn load(&self, name: &String) -> (r: Result<Encrypted, Error>)
        ensures
            match r {
                Ok(e) => crate::records::find_first(self.records(), name@) == Some(e@),
                Err(err) => err == Error::NotFound && crate::records::find_first(
                    self.records(),
                    name@,
                ) is None,
            },
    ;

    /// Drop every record of the given name.
    fn remove(&mut self, name: &String) -> (r: Result<(), Error>)
        ensures
            r is Ok ==> final(self).records() == crate::records::remove_all(
                old(self).records(),
                name@,
            ),
            r is Err ==> final(self).records() == old(self).records() && r == Err::<(), Error>(
                Error::NotFound,
            ) && !crate::records::contains_name(old(self).records(), name@),
    ;

    /// Return all records, in storage order.
    fn list(&self) -> (r: Result<Vec<Encrypted>, Error>)
        ensures
            match r {
                Ok(v) => v@.map_values(|e: Encrypted| e@) == self.records(),
                Err(_) => false,
            },
    ;
}

/// Encryption behavior: what it means to encrypt and decrypt.
///
/// `decrypt_spec` is the implementation's decryption function at the level of
/// views: it fixes, for every record, whether decryption succeeds and with
/// which plaintext or error.  `decrypt` returns exactly what it says, and
/// every record that `encrypt` produces is mapped by it back to the plaintext
/// that went in — the round-trip guarantee.
pub trait Encrypter: Sized {
    /// What decrypting a record yields: the plaintext characters, or the
    /// error.
    spec fn decrypt_spec(&self, enc: EncryptedView) -> Result<Seq<char>, Error>;

    /// Encrypt a secret into a record of the same name whose decryption,
    /// under this encrypter, is the plaintext that went in.
    fn encrypt(&self, secret: Secret) -> (r: Result<Encrypted, Error>)
        ensures
            r matches Ok(enc) ==> enc@.name == secret@.name && self.decrypt_spec(enc@)
                == Ok::<Seq<char>, Error>(secret@.secret),
    ;

    /// Decrypt a record, keeping its name; the outcome is exactly
    /// `decrypt_spec`.
    fn decrypt(&self, encrypted: Encrypted) -> (r: Result<Secret, Error>)
        ensures
            match r {
                Ok(s) => self.decrypt_spec(encrypted@) == Ok::<Seq<char>, Error>(s@.secret)
                    && s@.name == encrypted@.name,
                Err(err) => self.decrypt_spec(encrypted@) == Err::<Seq<char>, Error>(err),
            },
    ;
}

/// A handle to the underlying secrets database: one [`Backend`] and one
/// [`Encrypter`], composed behind the secret-level API.
///
/// The database holds no cache: every call goes through the backend and the
/// encrypter.
pub struct Database<B: Backend, E: Encrypter> {
    pub(crate) b: B,
    pub(crate) e: E,
}

} // verus!
