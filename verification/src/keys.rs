//! The key hierarchy: a password gives a user key, the user key wraps the
//! random master key, and only the wrapped form is ever written down.
//!
//! The password hash is outside code; what this module believes of it is
//! stated on `derive_key`.

use vstd::prelude::*;
use argon2::Argon2;
use crate::envelope::{
    aead_open, aead_seal, array_at, random_bytes, xchacha20poly1305_open, xchacha20poly1305_seal,
};
use crate::error::VaultError;
use crate::hex::{from_hex, hex_of, is_hex, lemma_hex_roundtrip, to_hex, unhex};

verus! {

/// The longest password the hash takes, in bytes.
pub const MAX_PASSWORD_LEN: usize = 0xFFFF_FFFF;

/// The 32 bytes that Argon2id, with the parameters the `argon2` crate
/// recommends, derives from `password` and `salt`; `None` where it refuses them.
pub uninterp spec fn argon2id_derive(password: Seq<u8>, salt: Seq<u8>) -> Option<Seq<u8>>;

/// Calls `Argon2::default().hash_password_into` for a 32-byte result.
///
/// Believed of it: the result is a function of password and salt, and with a
/// 16-byte salt only a password longer than `MAX_PASSWORD_LEN` is refused.
#[verifier::external_body]
fn derive_key(password: &Vec<u8>, salt: &[u8; 16]) -> (r: Option<[u8; 32]>)
    ensures
        r matches Some(k) ==> argon2id_derive(password@, salt@) == Some(k@),
        r is None ==> argon2id_derive(password@, salt@) is None,
        password@.len() <= MAX_PASSWORD_LEN ==> r is Some,
{
    let mut out = [0u8; 32];
    match Argon2::default().hash_password_into(password, salt, &mut out) {
        Ok(()) => Some(out),
        Err(_) => None,
    }
}

/// A password held in memory: the bytes that are fed to the password hash.
pub struct CachedPassword {
    secret: Vec<u8>,
}

impl View for CachedPassword {
    type V = Seq<u8>;

    closed spec fn view(&self) -> Seq<u8> {
        self.secret@
    }
}

impl CachedPassword {
    /// Keeps the UTF-8 bytes of `text`.
    pub fn from_string(text: String) -> (r: CachedPassword)
        ensures
            r@ == vstd::utf8::encode_utf8(text@),
    {
        CachedPassword { secret: text.as_str().as_bytes_vec() }
    }

    /// Whether two passwords are the same bytes.
    pub fn same_as(&self, other: &CachedPassword) -> (r: bool)
        ensures
            r == (self@ == other@),
    {
        if self.secret.len() != other.secret.len() {
            return false;
        }
        let mut same = true;
        let mut i: usize = 0;
        assert(self@.take(0) =~= other@.take(0));
        while i < self.secret.len()
            invariant
                i <= self.secret.len(),
                self.secret.len() == other.secret.len(),
                same == (self@.take(i as int) == other@.take(i as int)),
            decreases self.secret.len() - i,
        {
            if self.secret[i] != other.secret[i] {
                same = false;
            }
            proof {
                let a = self@.take(i + 1);
                let b = other@.take(i + 1);
                assert(a.drop_last() == self@.take(i as int));
                assert(b.drop_last() == other@.take(i as int));
                assert(a.last() == self@[i as int] && b.last() == other@[i as int]);
                if self@.take(i as int) == other@.take(i as int) && self@[i as int] == other@[i as int] {
                    assert(a =~= b);
                }
            }
            i += 1;
        }
        assert(self@.take(i as int) == self@ && other@.take(i as int) == other@);
        same
    }

    /// Overwrites every byte of the password with zero.
    pub fn wipe(&mut self)
        ensures
            final(self)@.len() == old(self)@.len(),
            forall|i: int| 0 <= i < final(self)@.len() ==> final(self)@[i] == 0,
    {
        let mut i: usize = 0;
        while i < self.secret.len()
            invariant
                i <= self.secret.len(),
                self.secret.len() == old(self).secret.len(),
                forall|k: int| 0 <= k < i ==> self.secret@[k] == 0,
            decreases self.secret.len() - i,
        {
            self.secret.set(i, 0);
            i += 1;
        }
    }
}

impl Clone for CachedPassword {
    fn clone(&self) -> (r: Self)
        ensures
            r@ == self@,
    {
        CachedPassword { secret: self.secret.clone() }
    }
}

/// The key that a password gives under one salt.
pub struct UserVaultKey {
    key: [u8; 32],
    salt: [u8; 16],
}

impl UserVaultKey {
    pub closed spec fn key(&self) -> Seq<u8> {
        self.key@
    }

    pub closed spec fn salt(&self) -> Seq<u8> {
        self.salt@
    }

    /// Whether this is the key that `password` gives under this key's salt.
    pub open spec fn derived_from(&self, password: Seq<u8>) -> bool {
        argon2id_derive(password, self.salt()) == Some(self.key())
    }

    /// Derives the key for `password` under `salt`. Only a password longer
    /// than `MAX_PASSWORD_LEN` is refused.
    pub fn derive(password: &CachedPassword, salt: &[u8; 16]) -> (r: Result<
        UserVaultKey,
        VaultError,
    >)
        ensures
            password@.len() <= MAX_PASSWORD_LEN ==> r is Ok,
            r matches Ok(k) ==> k.salt() == salt@ && k.derived_from(password@),
            r matches Err(e) ==> e == VaultError::AuthError && argon2id_derive(password@, salt@)
                is None,
    {
        match derive_key(&password.secret, salt) {
            Some(key) => Ok(UserVaultKey { key, salt: *salt }),
            None => Err(VaultError::AuthError),
        }
    }

    /// Draws a random salt and derives the key for `password` under it.
    pub fn init_fresh(password: &CachedPassword) -> (r: Result<UserVaultKey, VaultError>)
        ensures
            password@.len() <= MAX_PASSWORD_LEN ==> r is Ok,
            r matches Ok(k) ==> k.derived_from(password@),
            r matches Err(e) ==> e == VaultError::AuthError,
    {
        let salt: [u8; 16] = random_bytes::<16>();
        Self::derive(password, &salt)
    }
}

/// The random key under which every archive of a vault is sealed.
pub struct MasterVaultKey {
    key: [u8; 32],
}

impl View for MasterVaultKey {
    type V = Seq<u8>;

    closed spec fn view(&self) -> Seq<u8> {
        self.key@
    }
}

impl MasterVaultKey {
    /// Draws 32 random bytes.
    pub fn generate() -> (r: MasterVaultKey)
        ensures
            r@.len() == 32,
    {
        MasterVaultKey { key: random_bytes::<32>() }
    }

    /// Overwrites every byte of the key with zero.
    pub fn wipe(&mut self)
        ensures
            forall|i: int| 0 <= i < 32 ==> final(self)@[i] == 0,
    {
        let mut i: usize = 0;
        while i < 32
            invariant
                i <= 32,
                forall|k: int| 0 <= k < i ==> self.key@[k] == 0,
            decreases 32 - i,
        {
            self.key[i] = 0;
            i += 1;
        }
    }

    pub fn key_bytes(&self) -> (r: &[u8; 32])
        ensures
            r@ == self@,
    {
        &self.key
    }
}

impl Clone for MasterVaultKey {
    fn clone(&self) -> (r: Self)
        ensures
            r@ == self@,
    {
        MasterVaultKey { key: self.key }
    }
}

/// What a wrapped key records.
pub struct WrappedKeyView {
    pub salt: Seq<u8>,
    pub nonce: Seq<u8>,
    pub ciphertext: Seq<u8>,
}

/// The master key sealed under a user key, with the salt and nonce needed to
/// open it again. This is the only key material that is written to disk.
pub struct WrappedKey {
    salt: [u8; 16],
    nonce: [u8; 24],
    ciphertext: Vec<u8>,
}

impl View for WrappedKey {
    type V = WrappedKeyView;

    closed spec fn view(&self) -> WrappedKeyView {
        WrappedKeyView { salt: self.salt@, nonce: self.nonce@, ciphertext: self.ciphertext@ }
    }
}

/// The master key that `w` gives up to `password`: the password is hashed
/// under the stored salt, and the result must open the stored ciphertext to
/// 32 bytes.
pub open spec fn unwrapped(w: WrappedKeyView, password: Seq<u8>) -> Option<Seq<u8>> {
    match argon2id_derive(password, w.salt) {
        Some(user) => match xchacha20poly1305_open(user, w.nonce, w.ciphertext) {
            Some(master) => if master.len() == 32 {
                Some(master)
            } else {
                None
            },
            None => None,
        },
        None => None,
    }
}

/// The bytes that stand for `w` in the state file, before they are written as hex.
pub open spec fn wrapped_bytes(w: WrappedKeyView) -> Seq<u8> {
    w.salt + w.nonce + w.ciphertext
}

/// The wrapped key that the bytes `b` stand for.
pub open spec fn wrapped_of_bytes(b: Seq<u8>) -> WrappedKeyView {
    WrappedKeyView { salt: b.subrange(0, 16), nonce: b.subrange(16, 40), ciphertext: b.skip(40) }
}

/// The wrapped key that the text `s` stands for: hexadecimal digits for at
/// least a salt and a nonce.
pub open spec fn wrapped_of_hex(s: Seq<char>) -> Option<WrappedKeyView> {
    if is_hex(s) && s.len() >= 80 {
        Some(wrapped_of_bytes(unhex(s)))
    } else {
        None
    }
}

impl WrappedKey {
    /// Whether the salt and nonce have their fixed lengths.
    pub open spec fn shaped(w: WrappedKeyView) -> bool {
        w.salt.len() == 16 && w.nonce.len() == 24
    }

    /// Seals `master` under `user_key` with a fresh random nonce.
    pub fn init(user_key: &UserVaultKey, master: &MasterVaultKey) -> (r: Result<
        WrappedKey,
        VaultError,
    >)
        ensures
            r is Ok,
            r matches Ok(w) ==> {
                &&& Self::shaped(w@)
                &&& w@.salt == user_key.salt()
                &&& w@.ciphertext == xchacha20poly1305_seal(user_key.key(), w@.nonce, master@)
                &&& forall|password: Seq<u8>| #[trigger]
                    user_key.derived_from(password) ==> unwrapped(w@, password) == Some(master@)
            },
    {
        let nonce: [u8; 24] = random_bytes::<24>();
        let mut plain: Vec<u8> = Vec::new();
        let mut i: usize = 0;
        while i < 32
            invariant
                i <= 32,
                plain@ == master.key@.subrange(0, i as int),
            decreases 32 - i,
        {
            plain.push(master.key[i]);
            assert(master.key@.subrange(0, i + 1) == master.key@.subrange(0, i as int).push(
                master.key@[i as int],
            ));
            i += 1;
        }
        assert(master.key@.subrange(0, 32) == master.key@);
        match aead_seal(&user_key.key, &nonce, &plain) {
            Some(ciphertext) => Ok(WrappedKey { salt: user_key.salt, nonce, ciphertext }),
            None => Err(VaultError::IoError),
        }
    }

    /// Opens the wrapped key with `password`. Any failure is an
    /// authentication failure: the password is wrong, or the record is not
    /// what was written.
    pub fn get_master_key_with_no_rewrap(&self, password: &CachedPassword) -> (r: Result<
        MasterVaultKey,
        VaultError,
    >)
        ensures
            r matches Ok(m) ==> unwrapped(self@, password@) == Some(m@),
            r matches Err(e) ==> e == VaultError::AuthError && unwrapped(self@, password@) is None,
    {
        match self.open_with(password) {
            Ok((_, master)) => Ok(master),
            Err(e) => Err(e),
        }
    }

    /// Opens the wrapped key with `password` and seals the master key again
    /// under the same user key with a fresh nonce. The new record opens
    /// under the same password to the same master key.
    pub fn get_master_key(&self, password: &CachedPassword) -> (r: Result<
        (WrappedKey, MasterVaultKey),
        VaultError,
    >)
        ensures
            r matches Ok(pair) ==> {
                &&& Self::shaped(pair.0@)
                &&& unwrapped(self@, password@) == Some(pair.1@)
                &&& unwrapped(pair.0@, password@) == Some(pair.1@)
                &&& pair.0@.salt == self@.salt
            },
            r matches Err(e) ==> e == VaultError::AuthError && unwrapped(self@, password@) is None,
    {
        match self.open_with(password) {
            Ok((user, master)) => {
                match Self::init(&user, &master) {
                    Ok(fresh) => Ok((fresh, master)),
                    Err(_) => {
                        assert(false);
                        Err(VaultError::AuthError)
                    },
                }
            },
            Err(e) => Err(e),
        }
    }

    fn open_with(&self, password: &CachedPassword) -> (r: Result<
        (UserVaultKey, MasterVaultKey),
        VaultError,
    >)
        ensures
            r matches Ok(pair) ==> unwrapped(self@, password@) == Some(pair.1@)
                && pair.0.derived_from(password@) && pair.0.salt() == self@.salt,
            r matches Err(e) ==> e == VaultError::AuthError && unwrapped(self@, password@) is None,
    {
        match UserVaultKey::derive(password, &self.salt) {
            Err(_) => Err(VaultError::AuthError),
            Ok(user) => match aead_open(&user.key, &self.nonce, &self.ciphertext) {
                None => Err(VaultError::AuthError),
                Some(plain) => {
                    if plain.len() != 32 {
                        Err(VaultError::AuthError)
                    } else {
                        let key: [u8; 32] = array_at::<32>(&plain, 0);
                        assert(plain@.subrange(0, 32) == plain@);
                        Ok((user, MasterVaultKey { key }))
                    }
                },
            },
        }
    }

    /// The record as it is written to the state file: salt, nonce and
    /// ciphertext in hexadecimal.
    pub fn to_hex(&self) -> (r: String)
        ensures
            r@ == hex_of(wrapped_bytes(self@)),
    {
        let mut bytes: Vec<u8> = Vec::new();
        let mut i: usize = 0;
        while i < 16
            invariant
                i <= 16,
                bytes@ == self.salt@.subrange(0, i as int),
            decreases 16 - i,
        {
            bytes.push(self.salt[i]);
            assert(self.salt@.subrange(0, i + 1) == self.salt@.subrange(0, i as int).push(
                self.salt@[i as int],
            ));
            i += 1;
        }
        assert(self.salt@.subrange(0, 16) == self.salt@);
        let mut j: usize = 0;
        while j < 24
            invariant
                j <= 24,
                bytes@ == self.salt@ + self.nonce@.subrange(0, j as int),
            decreases 24 - j,
        {
            bytes.push(self.nonce[j]);
            assert(self.nonce@.subrange(0, j + 1) == self.nonce@.subrange(0, j as int).push(
                self.nonce@[j as int],
            ));
            j += 1;
        }
        assert(self.nonce@.subrange(0, 24) == self.nonce@);
        let mut k: usize = 0;
        while k < self.ciphertext.len()
            invariant
                k <= self.ciphertext.len(),
                bytes@ == self.salt@ + self.nonce@ + self.ciphertext@.subrange(0, k as int),
            decreases self.ciphertext.len() - k,
        {
            bytes.push(self.ciphertext[k]);
            assert(self.ciphertext@.subrange(0, k + 1) == self.ciphertext@.subrange(
                0,
                k as int,
            ).push(self.ciphertext@[k as int]));
            k += 1;
        }
        assert(self.ciphertext@.subrange(0, self.ciphertext@.len() as int) == self.ciphertext@);
        to_hex(&bytes)
    }

    /// Reads a record back from the state file. Text that is not
    /// hexadecimal, or too short to hold a salt and a nonce, is a corrupt
    /// state file.
    pub fn from_hex(text: &str) -> (r: Result<WrappedKey, VaultError>)
        ensures
            r matches Ok(w) ==> wrapped_of_hex(text@) == Some(w@) && Self::shaped(w@),
            r matches Err(e) ==> e == VaultError::StateCorruption && wrapped_of_hex(text@) is None,
    {
        match from_hex(text) {
            None => Err(VaultError::StateCorruption),
            Some(bytes) => {
                if bytes.len() < 40 {
                    Err(VaultError::StateCorruption)
                } else {
                    let salt: [u8; 16] = array_at::<16>(&bytes, 0);
                    let nonce: [u8; 24] = array_at::<24>(&bytes, 16);
                    let mut ciphertext: Vec<u8> = Vec::new();
                    let mut i: usize = 40;
                    while i < bytes.len()
                        invariant
                            40 <= i <= bytes.len(),
                            ciphertext@ == bytes@.subrange(40, i as int),
                        decreases bytes.len() - i,
                    {
                        ciphertext.push(bytes[i]);
                        assert(bytes@.subrange(40, i + 1) == bytes@.subrange(40, i as int).push(
                            bytes@[i as int],
                        ));
                        i += 1;
                    }
                    assert(bytes@.subrange(40, bytes@.len() as int) == bytes@.skip(40));
                    Ok(WrappedKey { salt, nonce, ciphertext })
                }
            },
        }
    }
}

impl Clone for WrappedKey {
    fn clone(&self) -> (r: Self)
        ensures
            r@ == self@,
    {
        WrappedKey { salt: self.salt, nonce: self.nonce, ciphertext: self.ciphertext.clone() }
    }
}

/// Every wrapped key has a salt of 16 bytes and a nonce of 24.
pub proof fn lemma_wrapped_key_is_shaped(w: WrappedKey)
    ensures
        WrappedKey::shaped(w@),
{
}

/// A wrapped key that was written to the state file is read back as it was.
pub proof fn lemma_wrapped_hex_roundtrip(w: WrappedKeyView)
    requires
        WrappedKey::shaped(w),
    ensures
        wrapped_of_hex(hex_of(wrapped_bytes(w))) == Some(w),
{
    let b = wrapped_bytes(w);
    lemma_hex_roundtrip(b);
    assert(b.subrange(0, 16) =~= w.salt);
    assert(b.subrange(16, 40) =~= w.nonce);
    assert(b.skip(40) =~= w.ciphertext);
}

/// A key wrapped under the user key of a password opens under that
/// password to the master key that was wrapped.
pub proof fn lemma_wrap_then_unwrap(
    user: UserVaultKey,
    password: Seq<u8>,
    w: WrappedKeyView,
    master: Seq<u8>,
)
    requires
        user.derived_from(password),
        w.salt == user.salt(),
        master.len() == 32,
        xchacha20poly1305_open(user.key(), w.nonce, w.ciphertext) == Some(master),
    ensures
        unwrapped(w, password) == Some(master),
{
}

} // verus!
