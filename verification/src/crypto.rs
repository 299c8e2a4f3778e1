//! Trusted boundary to the cryptographic primitives.
//!
//! Each `external_body` function here wraps exactly one outside call.
//! Digests, ciphers and key derivation are deterministic functions of their
//! arguments alone, so their results are given names (`..._of` spec
//! functions) that the wrappers' contracts apply; random material is
//! described only by what holds of every outcome.  PKCS#7 padding is the
//! library's own, verified code: the outside cipher is only ever asked to
//! move whole blocks, the one job it cannot refuse.

use vstd::prelude::*;
use vstd::slice::{slice_subrange, slice_to_vec};
use crypto::buffer::ReadBuffer;
use crypto::buffer::WriteBuffer;
use rand::RngCore;

verus! {

/// The SHA-512 digest (64 bytes) of `data`.
pub uninterp spec fn sha512_of(data: Seq<u8>) -> Seq<u8>;

/// The SHA-256 digest (32 bytes) of `data`.
pub uninterp spec fn sha256_of(data: Seq<u8>) -> Seq<u8>;

/// The first 48 bytes of the PBKDF2-HMAC-SHA512 stream for
/// `(password, salt, iterations)`.
pub uninterp spec fn kdf_of(password: Seq<u8>, salt: Seq<u8>, iterations: u32) -> Seq<u8>;

/// Raw AES-256-CBC encryption of a whole number of 16-byte blocks under
/// `(key, iv)`; no padding is involved.
pub uninterp spec fn aes_raw_encrypt_of(key: Seq<u8>, iv: Seq<u8>, data: Seq<u8>) -> Seq<u8>;

/// Raw AES-256-CBC decryption under `(key, iv)`; `None` when the input is
/// not a whole number of 16-byte blocks.
pub uninterp spec fn aes_raw_decrypt_of(key: Seq<u8>, iv: Seq<u8>, data: Seq<u8>) -> Option<
    Seq<u8>,
>;

/// PKCS#7 padding: between 1 and 16 bytes, each holding the pad width,
/// bring the length to a multiple of 16.
pub open spec fn pkcs7_pad_spec(data: Seq<u8>) -> Seq<u8> {
    let n = 16 - (data.len() % 16);
    data + Seq::new(n as nat, |i: int| n as u8)
}

/// PKCS#7 unpadding: the last byte gives the pad width, which must be
/// 1 to 16, available, and repeated over the whole pad.  A pad byte of 0 is
/// rejected.
pub open spec fn pkcs7_strip_spec(p: Seq<u8>) -> Option<Seq<u8>> {
    if p.len() == 0 {
        None
    } else {
        let n = p.last() as int;
        if 1 <= n && n <= 16 && n <= p.len() && (forall|i: int|
            p.len() - n <= i < p.len() ==> p[i] == p.last()) {
            Some(p.take(p.len() - n))
        } else {
            None
        }
    }
}

/// Unpadding inverts padding.
pub proof fn lemma_pkcs7_roundtrip(data: Seq<u8>)
    ensures
        pkcs7_strip_spec(pkcs7_pad_spec(data)) == Some(data),
{
    let n = 16 - (data.len() % 16);
    let p = pkcs7_pad_spec(data);
    assert(p.len() == data.len() + n);
    assert(p.last() == n as u8);
    assert forall|i: int| p.len() - n <= i < p.len() implies p[i] == p.last() by {}
    assert(p.take(p.len() - n) =~= data);
}

/// AES-256-CBC with PKCS#7 padding of `data` under `(key, iv)`: pad, then
/// encrypt the blocks.
pub open spec fn aes_encrypt_of(key: Seq<u8>, iv: Seq<u8>, data: Seq<u8>) -> Seq<u8> {
    aes_raw_encrypt_of(key, iv, pkcs7_pad_spec(data))
}

/// The inverse: decrypt the blocks, then unpad; `None` when the input is
/// not a well-padded ciphertext for that key.
pub open spec fn aes_decrypt_of(key: Seq<u8>, iv: Seq<u8>, data: Seq<u8>) -> Option<Seq<u8>> {
    match aes_raw_decrypt_of(key, iv, data) {
        None => None,
        Some(p) => pkcs7_strip_spec(p),
    }
}

/// The sealed box (Curve25519/XSalsa20/Poly1305) over message `m` with nonce
/// `n`, public key `pk` and secret key `sk`.
pub uninterp spec fn box_seal_of(m: Seq<u8>, n: Seq<u8>, pk: Seq<u8>, sk: Seq<u8>) -> Seq<u8>;

/// Opening a sealed box; `None` when verification fails.
pub uninterp spec fn box_open_of(c: Seq<u8>, n: Seq<u8>, pk: Seq<u8>, sk: Seq<u8>) -> Option<
    Seq<u8>,
>;

/// The Curve25519 key pair that one 32-byte seed determines.
pub uninterp spec fn box_keypair_of(seed: Seq<u8>) -> (Seq<u8>, Seq<u8>);

/// The key halves come from one seed — what `box_keypair_from_seed` hands
/// out.  A public key generated this way is a clamped base-point multiple,
/// never one of the small-order points on which the sealing primitive
/// degenerates.
pub open spec fn honest_box_keys(pk: Seq<u8>, sk: Seq<u8>) -> bool {
    exists|seed: Seq<u8>| seed.len() == 32 && #[trigger] box_keypair_of(seed) == (pk, sk)
}

/// Relies on sodiumoxide::crypto::hash::sha512::hash: a 64-byte digest that
/// depends on the input bytes alone.
#[verifier::external_body]
pub fn sha512_hash(data: &[u8]) -> (r: Vec<u8>)
    ensures
        r@ == sha512_of(data@),
        r@.len() == 64,
{
    sodiumoxide::crypto::hash::sha512::hash(data).as_ref().to_vec()
}

/// Relies on sodiumoxide::crypto::hash::sha256::hash: a 32-byte digest that
/// depends on the input bytes alone.
#[verifier::external_body]
pub fn sha256_hash(data: &[u8]) -> (r: Vec<u8>)
    ensures
        r@ == sha256_of(data@),
        r@.len() == 32,
{
    sodiumoxide::crypto::hash::sha256::hash(data).as_ref().to_vec()
}

/// Relies on crypto::pbkdf2::pbkdf2 with an HMAC-SHA512 pseudo-random
/// function: fills the output buffer with a stream that depends only on
/// `(password, salt, iterations)`.  The wrapper always asks for 48 bytes.
#[verifier::external_body]
pub fn kdf_derive(password: &[u8], salt: &[u8], iterations: u32) -> (r: Vec<u8>)
    requires
        iterations > 0,
    ensures
        r@ == kdf_of(password@, salt@, iterations),
        r@.len() == 48,
{
    let mut mac = crypto::hmac::Hmac::new(crypto::sha2::Sha512::new(), password);
    let mut out = vec![0u8; 48];
    crypto::pbkdf2::pbkdf2(&mut mac, salt, iterations, &mut out);
    out
}

/// Relies on crypto::aes::cbc_encryptor with NoPadding: on a whole number
/// of blocks, one call encrypts the stream (the `data.len() + 16` buffer
/// rules out overflow) and the result depends only on `(key, iv, data)`;
/// cbc_decryptor with NoPadding inverts it block for block.
#[verifier::external_body]
fn aes256_cbc_encrypt_raw(key: &[u8], iv: &[u8], data: &[u8]) -> (r: Vec<u8>)
    requires
        key@.len() == 32,
        iv@.len() == 16,
        data@.len() % 16 == 0,
    ensures
        r@ == aes_raw_encrypt_of(key@, iv@, data@),
        aes_raw_decrypt_of(key@, iv@, r@) == Some(data@),
{
    let mut enc = crypto::aes::cbc_encryptor(
        crypto::aes::KeySize::KeySize256,
        key,
        iv,
        crypto::blockmodes::NoPadding,
    );
    let mut out = vec![0u8; data.len() + 16];
    let mut read = crypto::buffer::RefReadBuffer::new(data);
    let mut write = crypto::buffer::RefWriteBuffer::new(&mut out);
    match enc.encrypt(&mut read, &mut write, true) {
        Ok(_) => write.take_read_buffer().take_remaining().to_vec(),
        Err(_) => Vec::new(),
    }
}

/// Relies on crypto::aes::cbc_decryptor with NoPadding: it decrypts a whole
/// number of blocks deterministically, rejects any other length as
/// `InvalidLength`, and — with no padding processor stripping the output —
/// has no failure path beyond that.
#[verifier::external_body]
fn aes256_cbc_decrypt_raw(key: &[u8], iv: &[u8], data: &[u8]) -> (r: Option<Vec<u8>>)
    requires
        key@.len() == 32,
        iv@.len() == 16,
    ensures
        (match r {
            Some(v) => aes_raw_decrypt_of(key@, iv@, data@) == Some(v@),
            None => aes_raw_decrypt_of(key@, iv@, data@) is None,
        }),
{
    let mut dec = crypto::aes::cbc_decryptor(
        crypto::aes::KeySize::KeySize256,
        key,
        iv,
        crypto::blockmodes::NoPadding,
    );
    let mut out = vec![0u8; data.len() + 16];
    let mut read = crypto::buffer::RefReadBuffer::new(data);
    let mut write = crypto::buffer::RefWriteBuffer::new(&mut out);
    match dec.decrypt(&mut read, &mut write, true) {
        Ok(_) => Some(write.take_read_buffer().take_remaining().to_vec()),
        Err(_) => None,
    }
}

/// Appends PKCS#7 padding, as `pkcs7_pad_spec` describes.
pub fn pkcs7_pad(data: &[u8]) -> (r: Vec<u8>)
    ensures
        r@ == pkcs7_pad_spec(data@),
        r@.len() % 16 == 0,
{
    let n: usize = 16 - (data.len() % 16);
    let mut out = slice_to_vec(data);
    for i in 0..n
        invariant
            n == 16 - (data@.len() % 16),
            out@ =~= data@ + Seq::new(i as nat, |j: int| n as u8),
    {
        out.push(n as u8);
        proof {
            assert(out@ =~= data@ + Seq::new((i + 1) as nat, |j: int| n as u8));
        }
    }
    proof {
        assert(out@ =~= pkcs7_pad_spec(data@));
        assert(out@.len() == data@.len() + n);
        assert(out@.len() % 16 == 0) by (nonlinear_arith)
            requires
                out@.len() == data@.len() + (16 - (data@.len() % 16)),
        ;
    }
    out
}

/// Removes PKCS#7 padding, as `pkcs7_strip_spec` describes.
pub fn pkcs7_strip(p: &[u8]) -> (r: Option<Vec<u8>>)
    ensures
        (match r {
            Some(v) => pkcs7_strip_spec(p@) == Some(v@),
            None => pkcs7_strip_spec(p@) is None,
        }),
{
    if p.len() == 0 {
        return None;
    }
    let last: u8 = p[p.len() - 1];
    let n: usize = last as usize;
    if n < 1 || n > 16 || n > p.len() {
        return None;
    }
    let start: usize = p.len() - n;
    for i in start..p.len()
        invariant
            start == p@.len() - n,
            last == p@.last(),
            n == p@.last() as int,
            1 <= n <= 16,
            n <= p@.len(),
            forall|j: int| start <= j < i ==> p@[j] == p@.last(),
    {
        if p[i] != last {
            proof {
                assert(p@[i as int] != p@.last());
            }
            return None;
        }
    }
    Some(slice_to_vec(slice_subrange(p, 0, start)))
}

/// AES-256-CBC with PKCS#7 padding: pads in verified code, encrypts the
/// blocks through the raw cipher.  The result decrypts back to `data`
/// under the same key and IV.
pub fn aes256_cbc_encrypt(key: &[u8], iv: &[u8], data: &[u8]) -> (r: Vec<u8>)
    requires
        key@.len() == 32,
        iv@.len() == 16,
    ensures
        r@ == aes_encrypt_of(key@, iv@, data@),
        aes_decrypt_of(key@, iv@, r@) == Some(data@),
{
    let padded = pkcs7_pad(data);
    let r = aes256_cbc_encrypt_raw(key, iv, padded.as_slice());
    proof {
        lemma_pkcs7_roundtrip(data@);
    }
    r
}

/// The inverse: decrypts the blocks through the raw cipher, unpads in
/// verified code; `None` on any length or padding failure.
pub fn aes256_cbc_decrypt(key: &[u8], iv: &[u8], data: &[u8]) -> (r: Option<Vec<u8>>)
    requires
        key@.len() == 32,
        iv@.len() == 16,
    ensures
        (match r {
            Some(v) => aes_decrypt_of(key@, iv@, data@) == Some(v@),
            None => aes_decrypt_of(key@, iv@, data@) is None,
        }),
{
    match aes256_cbc_decrypt_raw(key, iv, data) {
        None => None,
        Some(p) => pkcs7_strip(p.as_slice()),
    }
}

/// Relies on sodiumoxide::crypto::box_::seal: it ignores the return code of
/// the underlying primitive, and on a small-order public key the primitive
/// fails and leaves the buffer unwritten — so nothing is claimed of such
/// keys.  For key halves that one seed determines, the public key is a
/// clamped base-point multiple, the shared secret cannot be the forbidden
/// all-zero value, and the call encrypts deterministically; box_::open
/// derives the shared key from the same `(pk, sk)` arguments and inverts
/// it, so the returned box opens under identical nonce and keys to the
/// original message.
#[verifier::external_body]
pub fn box_seal(m: &[u8], n: &[u8], pk: &[u8], sk: &[u8]) -> (r: Vec<u8>)
    requires
        n@.len() == 24,
        pk@.len() == 32,
        sk@.len() == 32,
    ensures
        honest_box_keys(pk@, sk@) ==> r@ == box_seal_of(m@, n@, pk@, sk@),
        honest_box_keys(pk@, sk@) ==> box_open_of(r@, n@, pk@, sk@) == Some(m@),
{
    let nonce = sodiumoxide::crypto::box_::Nonce::from_slice(n).unwrap();
    let public = sodiumoxide::crypto::box_::PublicKey::from_slice(pk).unwrap();
    let secret = sodiumoxide::crypto::box_::SecretKey::from_slice(sk).unwrap();
    sodiumoxide::crypto::box_::seal(m, &nonce, &public, &secret)
}

/// Relies on sodiumoxide::crypto::box_::open: verifies and decrypts a sealed
/// box.  `seal` and `open` derive the shared key from the same `(pk, sk)`
/// arguments, so a box sealed with identical nonce and keys opens to the
/// original message; a ciphertext that fails verification yields `None`.
#[verifier::external_body]
pub fn box_open(c: &[u8], n: &[u8], pk: &[u8], sk: &[u8]) -> (r: Option<Vec<u8>>)
    requires
        n@.len() == 24,
        pk@.len() == 32,
        sk@.len() == 32,
    ensures
        (match r {
            Some(v) => box_open_of(c@, n@, pk@, sk@) == Some(v@),
            None => box_open_of(c@, n@, pk@, sk@) is None,
        }),
{
    let nonce = sodiumoxide::crypto::box_::Nonce::from_slice(n).unwrap();
    let public = sodiumoxide::crypto::box_::PublicKey::from_slice(pk).unwrap();
    let secret = sodiumoxide::crypto::box_::SecretKey::from_slice(sk).unwrap();
    match sodiumoxide::crypto::box_::open(c, &nonce, &public, &secret) {
        Ok(v) => Some(v),
        Err(()) => None,
    }
}

/// Relies on sodiumoxide::crypto::box_::keypair_from_seed: hashes the seed,
/// clamps it, and multiplies the base point — a pure function of the seed
/// that cannot fail, yielding a 32-byte public and a 32-byte secret half.
#[verifier::external_body]
pub fn box_keypair_from_seed(seed: &[u8]) -> (r: (Vec<u8>, Vec<u8>))
    requires
        seed@.len() == 32,
    ensures
        r.0@.len() == 32,
        r.1@.len() == 32,
        (r.0@, r.1@) == box_keypair_of(seed@),
{
    let s = sodiumoxide::crypto::box_::Seed::from_slice(seed).unwrap();
    let (pk, sk) = sodiumoxide::crypto::box_::keypair_from_seed(&s);
    (pk.as_ref().to_vec(), sk.0.to_vec())
}

/// Relies on sodiumoxide::crypto::sign::keypair_from_seed: derives an
/// Ed25519 key pair (32-byte public, 64-byte secret) from a 32-byte seed.
#[verifier::external_body]
pub fn sign_keypair_from_seed(seed: &[u8]) -> (r: (Vec<u8>, Vec<u8>))
    requires
        seed@.len() == 32,
    ensures
        r.0@.len() == 32,
        r.1@.len() == 64,
{
    let s = sodiumoxide::crypto::sign::Seed::from_slice(seed).unwrap();
    let (pk, sk) = sodiumoxide::crypto::sign::keypair_from_seed(&s);
    (pk.as_ref().to_vec(), sk.0.to_vec())
}

/// Relies on rand::rngs::OsRng::fill_bytes: fills the buffer from the
/// operating system's secure random source.  Nothing can be promised of the
/// values, only of the count.
#[verifier::external_body]
pub fn random_bytes(count: usize) -> (r: Vec<u8>)
    ensures
        r@.len() == count,
{
    let mut buf = vec![0u8; count];
    rand::rngs::OsRng.fill_bytes(&mut buf);
    buf
}

/// Relies on sodiumoxide::init: prepares the library (thread safety and
/// runtime selection) before other sodiumoxide calls.
#[verifier::external_body]
pub fn init_crypto() -> (r: bool)
{
    sodiumoxide::init().is_ok()
}

} // verus!
