//! The envelope: the authenticated, encrypted form in which every archive is
//! kept on disk.
//!
//! ```text
//!  0..4   magic "NOVO"
//!  4..8   zero bytes (format version)
//!  8..32  nonce
//! 32..    XChaCha20-Poly1305 ciphertext with its 16-byte tag
//! ```
//!
//! The cipher and the random number generator are outside code; what this
//! module believes of them is stated on `aead_seal`, `aead_open` and
//! `random_bytes`.

use vstd::prelude::*;
use aes_gcm::KeyInit;
use aes_gcm::aead::AeadMutInPlace;
use chacha20poly1305::{Key, XChaCha20Poly1305, XNonce};
use crate::error::VaultError;

verus! {

/// The ciphertext and tag that XChaCha20-Poly1305 gives for `plaintext`
/// under `key` and `nonce`, with no associated data.
pub uninterp spec fn xchacha20poly1305_seal(key: Seq<u8>, nonce: Seq<u8>, plaintext: Seq<u8>) -> Seq<u8>;

/// The plaintext that XChaCha20-Poly1305 recovers from `sealed` under `key`
/// and `nonce`, with no associated data; `None` where the tag does not verify.
pub uninterp spec fn xchacha20poly1305_open(key: Seq<u8>, nonce: Seq<u8>, sealed: Seq<u8>) -> Option<Seq<u8>>;

/// The longest plaintext the cipher takes: it refuses one that fills
/// `u32::MAX` or more 64-byte blocks.
pub open spec fn sealable(len: nat) -> bool {
    len / 64 < 0xFFFF_FFFF
}

/// Calls `XChaCha20Poly1305::encrypt_in_place` on a copy of `plaintext`, with
/// empty associated data.
///
/// Believed of it: it fails only on a plaintext too long for the cipher; the
/// result is the plaintext's length plus the tag; it is a function of key,
/// nonce and plaintext; and opening it under the same key and nonce gives the
/// plaintext back.
#[verifier::external_body]
pub(crate) fn aead_seal(key: &[u8; 32], nonce: &[u8; 24], plaintext: &Vec<u8>) -> (r: Option<Vec<u8>>)
    ensures
        r is Some <==> sealable(plaintext@.len()),
        r matches Some(sealed) ==> sealed@ == xchacha20poly1305_seal(key@, nonce@, plaintext@)
            && sealed@.len() == plaintext@.len() + 16 && xchacha20poly1305_open(
            key@,
            nonce@,
            sealed@,
        ) == Some(plaintext@),
{
    let mut buffer = plaintext.clone();
    let mut cipher = XChaCha20Poly1305::new(Key::from_slice(key));
    match cipher.encrypt_in_place(XNonce::from_slice(nonce), &[], &mut buffer) {
        Ok(()) => Some(buffer),
        Err(_) => None,
    }
}

/// Calls `XChaCha20Poly1305::decrypt_in_place` on a copy of `sealed`, with
/// empty associated data.
///
/// Believed of it: whether it succeeds and what it returns is a function of
/// key, nonce and input; an input shorter than the tag is refused; a result
/// is the input's length less the tag.
#[verifier::external_body]
pub(crate) fn aead_open(key: &[u8; 32], nonce: &[u8; 24], sealed: &Vec<u8>) -> (r: Option<Vec<u8>>)
    ensures
        r is Some <==> xchacha20poly1305_open(key@, nonce@, sealed@) is Some,
        r matches Some(plain) ==> xchacha20poly1305_open(key@, nonce@, sealed@) == Some(plain@)
            && plain@.len() + 16 == sealed@.len(),
        sealed@.len() < 16 ==> r is None,
{
    let mut buffer = sealed.clone();
    let mut cipher = XChaCha20Poly1305::new(Key::from_slice(key));
    match cipher.decrypt_in_place(XNonce::from_slice(nonce), &[], &mut buffer) {
        Ok(()) => Some(buffer),
        Err(_) => None,
    }
}

/// Calls `rand::fill` on a fresh array. Nothing is believed of the bytes.
#[verifier::external_body]
pub(crate) fn random_bytes<const N: usize>() -> (r: [u8; N]) {
    let mut bytes = [0u8; N];
    rand::fill(&mut bytes[..]);
    bytes
}

/// The first four bytes of every envelope: `NOVO`.
pub open spec fn magic() -> Seq<u8> {
    seq![0x4Eu8, 0x4Fu8, 0x56u8, 0x4Fu8]
}

/// The 32-byte header of an envelope that was sealed with `nonce`.
pub open spec fn header_of(nonce: Seq<u8>) -> Seq<u8> {
    magic() + seq![0u8, 0u8, 0u8, 0u8] + nonce
}

/// Whether `header` can stand at the start of an envelope: 32 bytes that
/// begin with the magic.
pub open spec fn header_ok(header: Seq<u8>) -> bool {
    header.len() == 32 && header.subrange(0, 4) == magic()
}

/// What an envelope holds: the plaintext where the blob has a header, the
/// magic is right and the tag verifies under `key`; nothing otherwise.
pub open spec fn opened(blob: Seq<u8>, key: Seq<u8>) -> Option<Seq<u8>> {
    if blob.len() < 32 || !header_ok(blob.subrange(0, 32)) {
        None
    } else {
        xchacha20poly1305_open(key, blob.subrange(8, 32), blob.skip(32))
    }
}

/// Whether `blob` is `plaintext` sealed under `key` with the nonce that the
/// blob itself carries.
pub open spec fn is_envelope(blob: Seq<u8>, key: Seq<u8>, plaintext: Seq<u8>) -> bool {
    &&& blob.len() == 32 + plaintext.len() + 16
    &&& blob.subrange(0, 32) == header_of(blob.subrange(8, 32))
    &&& blob.skip(32) == xchacha20poly1305_seal(key, blob.subrange(8, 32), plaintext)
    &&& opened(blob, key) == Some(plaintext)
}

/// The `N` bytes of `v` that start at `at`.
pub fn array_at<const N: usize>(v: &Vec<u8>, at: usize) -> (r: [u8; N])
    requires
        at + N <= v.len(),
    ensures
        r@ == v@.subrange(at as int, at + N),
{
    let mut r = [0u8; N];
    let mut i: usize = 0;
    while i < N
        invariant
            i <= N,
            at + N <= v.len(),
            r@.len() == N,
            forall|k: int| 0 <= k < i ==> r@[k] == v@[at + k],
        decreases N - i,
    {
        r[i] = v[at + i];
        i += 1;
    }
    assert(r@ =~= v@.subrange(at as int, at + N));
    r
}

/// Whether `header` is 32 bytes that begin with the magic.
pub fn check_header(header: &Vec<u8>) -> (r: bool)
    ensures
        r == header_ok(header@),
{
    if header.len() != 32 {
        return false;
    }
    let r = header[0] == 0x4E && header[1] == 0x4F && header[2] == 0x56 && header[3] == 0x4F;
    proof {
        let m = header@.subrange(0, 4);
        assert(m[0] == header@[0] && m[1] == header@[1] && m[2] == header@[2] && m[3]
            == header@[3]);
        if r {
            assert(m =~= magic());
        }
    }
    r
}

/// Seals `plaintext` under `key` with a fresh random nonce and puts the
/// header in front. Only a plaintext too long for the cipher is refused.
pub fn seal_blob(plaintext: &Vec<u8>, key: &[u8; 32]) -> (r: Result<Vec<u8>, VaultError>)
    ensures
        r is Ok <==> sealable(plaintext@.len()),
        r matches Ok(blob) ==> is_envelope(blob@, key@, plaintext@),
        r matches Err(e) ==> e == VaultError::IoError,
{
    let nonce: [u8; 24] = random_bytes::<24>();
    match aead_seal(key, &nonce, plaintext) {
        None => Err(VaultError::IoError),
        Some(sealed) => {
            let mut blob: Vec<u8> = Vec::new();
            blob.push(0x4E);
            blob.push(0x4F);
            blob.push(0x56);
            blob.push(0x4F);
            blob.push(0);
            blob.push(0);
            blob.push(0);
            blob.push(0);
            let mut i: usize = 0;
            while i < 24
                invariant
                    i <= 24,
                    blob@ == magic() + seq![0u8, 0u8, 0u8, 0u8] + nonce@.subrange(0, i as int),
                decreases 24 - i,
            {
                blob.push(nonce[i]);
                assert(nonce@.subrange(0, i + 1) == nonce@.subrange(0, i as int).push(
                    nonce@[i as int],
                ));
                i += 1;
            }
            assert(nonce@.subrange(0, 24) == nonce@);
            let ghost head = blob@;
            let mut j: usize = 0;
            while j < sealed.len()
                invariant
                    j <= sealed.len(),
                    head.len() == 32,
                    blob@ == head + sealed@.subrange(0, j as int),
                decreases sealed.len() - j,
            {
                blob.push(sealed[j]);
                assert(sealed@.subrange(0, j + 1) == sealed@.subrange(0, j as int).push(
                    sealed@[j as int],
                ));
                j += 1;
            }
            proof {
                assert(sealed@.subrange(0, sealed@.len() as int) == sealed@);
                assert(blob@.subrange(0, 32) =~= head);
                assert(blob@.subrange(8, 32) =~= nonce@);
                assert(blob@.skip(32) =~= sealed@);
                assert(head.subrange(0, 4) =~= magic());
            }
            Ok(blob)
        },
    }
}

/// Opens an envelope under `key`. A blob without a full header, with the
/// wrong magic, or whose tag does not verify is an integrity failure.
pub fn open_blob(blob: &Vec<u8>, key: &[u8; 32]) -> (r: Result<Vec<u8>, VaultError>)
    ensures
        r matches Ok(plain) ==> opened(blob@, key@) == Some(plain@),
        r matches Err(e) ==> e == VaultError::IntegrityError && opened(blob@, key@) is None,
{
    if blob.len() < 32 {
        return Err(VaultError::IntegrityError);
    }
    let mut header: Vec<u8> = Vec::new();
    let mut body: Vec<u8> = Vec::new();
    let mut i: usize = 0;
    while i < blob.len()
        invariant
            32 <= blob.len(),
            i <= blob.len(),
            header@ == blob@.subrange(0, if i < 32 { i as int } else { 32 }),
            body@ == blob@.subrange(32, if i < 32 { 32 } else { i as int }),
        decreases blob.len() - i,
    {
        if i < 32 {
            header.push(blob[i]);
        } else {
            body.push(blob[i]);
        }
        assert(blob@.subrange(0, i + 1) == blob@.subrange(0, i as int).push(blob@[i as int]));
        if i >= 32 {
            assert(blob@.subrange(32, i + 1) == blob@.subrange(32, i as int).push(
                blob@[i as int],
            ));
        }
        i += 1;
    }
    assert(body@ == blob@.skip(32));
    assert(header@ + body@ =~= blob@);
    match decrypt(&header, &mut body, key) {
        Ok(()) => Ok(body),
        Err(e) => Err(e),
    }
}

/// Opens what follows a header: on success `vault` holds the plaintext in
/// place of the ciphertext. A header of the wrong length or with the wrong
/// magic, or a tag that does not verify, is an integrity failure and leaves
/// `vault` as it was.
pub fn decrypt(header: &Vec<u8>, vault: &mut Vec<u8>, key: &[u8; 32]) -> (r: Result<
    (),
    VaultError,
>)
    ensures
        r is Ok ==> opened(header@ + old(vault)@, key@) == Some(final(vault)@),
        r matches Err(e) ==> e == VaultError::IntegrityError && final(vault)@ == old(vault)@ && (
        !header_ok(header@) || opened(header@ + old(vault)@, key@) is None),
        header_ok(header@) ==> (r is Ok <==> opened(header@ + old(vault)@, key@) is Some),
        !header_ok(header@) ==> r is Err,
{
    if !check_header(header) {
        return Err(VaultError::IntegrityError);
    }
    let nonce: [u8; 24] = array_at::<24>(header, 8);
    proof {
        let blob = header@ + vault@;
        assert(blob.subrange(0, 32) =~= header@);
        assert(blob.subrange(8, 32) =~= header@.subrange(8, 32));
        assert(blob.skip(32) =~= vault@);
    }
    match aead_open(key, &nonce, vault) {
        Some(plain) => {
            *vault = plain;
            Ok(())
        },
        None => Err(VaultError::IntegrityError),
    }
}

/// An envelope cut short of its header opens under no key.
pub proof fn lemma_truncated_header_fails(blob: Seq<u8>, key: Seq<u8>)
    requires
        blob.len() < 32,
    ensures
        opened(blob, key) is None,
{
}

/// An envelope in which any byte of the magic was changed opens under no key.
pub proof fn lemma_corrupt_magic_fails(blob: Seq<u8>, key: Seq<u8>, at: int, byte: u8)
    requires
        opened(blob, key) is Some,
        0 <= at < 4,
        byte != blob[at],
    ensures
        opened(blob.update(at, byte), key) is None,
{
    let bad = blob.update(at, byte);
    let m = bad.subrange(0, 32).subrange(0, 4);
    assert(blob.subrange(0, 32).subrange(0, 4)[at] == blob[at]);
    assert(m[at] == byte);
    assert(magic()[at] == blob[at]);
}

/// What `seal_blob` returns, `open_blob` opens under the same key to the
/// same plaintext, whatever nonce was drawn.
pub proof fn lemma_seal_then_open(blob: Seq<u8>, key: Seq<u8>, plaintext: Seq<u8>)
    requires
        is_envelope(blob, key, plaintext),
    ensures
        opened(blob, key) == Some(plaintext),
{
}

} // verus!
