//! The settings that the server and the client share: the secret derived
//! from the password, and the size of the batches SSH traffic is sent in.

use vstd::prelude::*;
use vstd::string::StringSliceAdditionalSpecFns;
use vstd::utf8::encode_utf8;
use scrypt::password_hash::{PasswordHasher, SaltString};
use scrypt::Scrypt;
use crate::error::NatError;

verus! {

/// `scrypt::password_hash::Error`, carried as an opaque value.
#[verifier::external_type_specification]
#[verifier::external_body]
pub struct ExPasswordHashError(scrypt::password_hash::Error);

/// The PHC string (`$scrypt$...`) of scrypt, with its default parameters,
/// over `password` salted with `salt`.
pub uninterp spec fn scrypt_phc_of(password: Seq<u8>, salt: Seq<u8>) -> Seq<char>;

/// Trusted: wraps `Scrypt::hash_password` (scrypt 0.11, default parameters),
/// with the salt given as raw bytes and encoded by `SaltString::encode_b64`,
/// and the resulting hash rendered as its PHC string. The result is a
/// function of the password and the salt alone, named by `scrypt_phc_of`.
/// The salt must encode to 4 to 64 B64 characters (`Salt::MIN_LENGTH`,
/// `Salt::MAX_LENGTH`), that is 3 to 48 bytes: a shorter one makes
/// `hash_password` panic when it reads the salt back. With such a salt and
/// the default parameters (a 32-byte output) the hash succeeds.
#[verifier::external_body]
fn scrypt_hash(password: &[u8], salt: &[u8]) -> (r: Result<String, scrypt::password_hash::Error>)
    requires
        3 <= salt@.len() <= 48,
    ensures
        r is Ok,
        r matches Ok(s) ==> s@ == scrypt_phc_of(password@, salt@),
{
    let salt = SaltString::encode_b64(salt)?;
    Ok(Scrypt.hash_password(password, &salt)?.to_string())
}

/// The fixed salt of the key derivation.
pub open spec fn kdf_salt() -> Seq<u8> {
    seq![0u8, 0u8, 0u8, 0u8]
}

/// The secret derived from `password`: its scrypt PHC string under the fixed salt.
pub open spec fn derived_secret(password: Seq<char>) -> Seq<char> {
    scrypt_phc_of(encode_utf8(password), kdf_salt())
}

fn kdf(password: &String) -> (r: Result<String, NatError>)
    ensures
        r is Ok,
        r matches Ok(s) ==> s@ == derived_secret(password@),
{
    let salt: [u8; 4] = [0, 0, 0, 0];
    assert(salt@ =~= kdf_salt());
    match scrypt_hash(password.as_str().as_bytes(), &salt) {
        Ok(s) => Ok(s),
        Err(_) => Err(NatError::KeyDerivation),
    }
}

/// The settings that the server and the client share.
#[derive(Debug, Clone)]
pub struct Context {
    secret: String,
    ssh_mtu: u16,
}

impl Context {
    /// The secret that encrypts the traffic, derived from the password.
    pub closed spec fn secret(&self) -> Seq<char> {
        self.secret@
    }

    /// The most bytes one SSH message relays.
    pub closed spec fn ssh_mtu(&self) -> u16 {
        self.ssh_mtu
    }

    /// Derives the secret from `password`; with the fixed, valid salt the key
    /// derivation always succeeds.
    pub fn new(password: String, ssh_mtu: u16) -> (r: Result<Self, NatError>)
        ensures
            r is Ok,
            r matches Ok(c) ==> c.secret() == derived_secret(password@) && c.ssh_mtu() == ssh_mtu,
    {
        match kdf(&password) {
            Ok(secret) => Ok(Self { secret, ssh_mtu }),
            Err(e) => Err(e),
        }
    }

    /// A copy of the secret.
    pub fn get_secret(&self) -> (r: String)
        ensures
            r@ == self.secret(),
    {
        self.secret.clone()
    }

    /// The most bytes one SSH message relays.
    pub fn get_ssh_mtu(&self) -> (r: usize)
        ensures
            r == self.ssh_mtu(),
    {
        self.ssh_mtu as usize
    }
}

} // verus!
