//! Optional **encryption at rest** for the on-disk store: XChaCha20-Poly1305
//! (AEAD, random 192-bit nonce per value) under a key derived from a
//! passphrase with Argon2id, plus an HMAC-SHA256 index-token subkey.

use argon2::{Algorithm, Argon2, Params, Version};
use chacha20poly1305::aead::{Aead, KeyInit};
use chacha20poly1305::{Key, XChaCha20Poly1305, XNonce};
use hmac::{Hmac, Mac};
use rand::RngCore;
use sha2::Sha256;
use vstd::prelude::*;

use crate::auth::{hex, push_hex};
use crate::error::NucleusError;

verus! {

broadcast use vstd::string::group_string_axioms;

/// XChaCha20 nonce length (192-bit → safe to pick at random per message).
pub const NONCE_LEN: usize = 24;
/// Argon2id salt length.
pub const SALT_LEN: usize = 16;

/// Argon2id cost parameters, persisted next to the salt.
#[derive(Clone, Copy, Debug, PartialEq, Eq, Structural)]
pub struct KdfParams {
    /// Memory cost in KiB.
    pub m_cost: u32,
    /// Iteration (time) cost.
    pub t_cost: u32,
    /// Parallelism (lanes).
    pub p_cost: u32,
}

/// The four little-endian bytes of `x`.
pub open spec fn le32(x: u32) -> Seq<u8> {
    seq![(x % 256) as u8, ((x / 256) % 256) as u8, ((x / 65536) % 256) as u8, (x / 16777216) as u8]
}

/// The `u32` whose little-endian bytes are `b[o..o + 4]`.
pub open spec fn read_le32(b: Seq<u8>, o: int) -> u32 {
    (b[o] + 256 * b[o + 1] + 65536 * b[o + 2] + 16777216 * b[o + 3]) as u32
}

/// The 12-byte header layout of KDF parameters.
pub open spec fn kdf_layout(p: KdfParams) -> Seq<u8> {
    le32(p.m_cost) + le32(p.t_cost) + le32(p.p_cost)
}

fn put_le32(b: &mut [u8; 12], o: usize, x: u32)
    requires o + 4 <= 12,
    ensures
        final(b)@ == old(b)@.update(o as int, le32(x)[0]).update(o + 1, le32(x)[1]).update(o + 2, le32(x)[2])
            .update(o + 3, le32(x)[3]),
{
    b[o] = (x % 256) as u8;
    b[o + 1] = ((x / 256) % 256) as u8;
    b[o + 2] = ((x / 65536) % 256) as u8;
    b[o + 3] = (x / 16777216) as u8;
}

fn get_le32(b: &[u8], o: usize) -> (r: u32)
    requires o + 4 <= b@.len(),
    ensures r == read_le32(b@, o as int),
{
    (b[o] as u32) + 256 * (b[o + 1] as u32) + 65536 * (b[o + 2] as u32) + 16777216 * (b[o + 3] as u32)
}

impl KdfParams {
    /// Serialise to a fixed 12-byte little-endian layout for the crypto header.
    pub fn to_bytes(self) -> (r: [u8; 12])
        ensures r@ == kdf_layout(self),
    {
        let mut b = [0u8; 12];
        put_le32(&mut b, 0, self.m_cost);
        put_le32(&mut b, 4, self.t_cost);
        put_le32(&mut b, 8, self.p_cost);
        assert(b@ =~= kdf_layout(self));
        b
    }

    /// Parse the 12-byte layout written by [`to_bytes`](KdfParams::to_bytes);
    /// any other length is a `Crypto` error.
    pub fn from_bytes(b: &[u8]) -> (r: Result<Self, NucleusError>)
        ensures
            match r {
                Ok(p) => b@.len() == 12 && p == (KdfParams {
                    m_cost: read_le32(b@, 0),
                    t_cost: read_le32(b@, 4),
                    p_cost: read_le32(b@, 8),
                }),
                Err(e) => b@.len() != 12 && (e matches NucleusError::Crypto(m) && m@ == "malformed KDF parameters"@),
            },
    {
        if b.len() != 12 {
            return Err(NucleusError::Crypto(String::from_str("malformed KDF parameters")));
        }
        Ok(Self { m_cost: get_le32(b, 0), t_cost: get_le32(b, 4), p_cost: get_le32(b, 8) })
    }
}

impl Default for KdfParams {
    /// OWASP-recommended interactive defaults for Argon2id: 19 MiB, t=2, p=1.
    fn default() -> (r: Self)
        ensures r == (KdfParams { m_cost: 19456, t_cost: 2, p_cost: 1 }),
    {
        KdfParams { m_cost: 19 * 1024, t_cost: 2, p_cost: 1 }
    }
}

proof fn lemma_le32_roundtrip(x: u32)
    ensures read_le32(le32(x), 0) == x,
{
    let b = le32(x);
    assert(x == (x % 256) + 256 * ((x / 256) % 256) + 65536 * ((x / 65536) % 256)
        + 16777216 * (x / 16777216)) by (nonlinear_arith);
}

/// Reading back the bytes that [`KdfParams::to_bytes`] writes gives the same
/// parameters: the header layout loses nothing.
pub proof fn lemma_kdf_params_roundtrip(p: KdfParams)
    ensures
        kdf_layout(p).len() == 12,
        read_le32(kdf_layout(p), 0) == p.m_cost,
        read_le32(kdf_layout(p), 4) == p.t_cost,
        read_le32(kdf_layout(p), 8) == p.p_cost,
{
    lemma_le32_roundtrip(p.m_cost);
    lemma_le32_roundtrip(p.t_cost);
    lemma_le32_roundtrip(p.p_cost);
    let l = kdf_layout(p);
    assert(l.subrange(0, 4) =~= le32(p.m_cost));
    assert(l.subrange(4, 8) =~= le32(p.t_cost));
    assert(l.subrange(8, 12) =~= le32(p.p_cost));
}

// ---------------------------------------------------------------------------
// Outside primitives
// ---------------------------------------------------------------------------

/// The Argon2id (v0x13) 32-byte key for `passphrase`/`salt` under the given
/// memory, time and lane costs, or `None` when argon2 rejects the parameters
/// or inputs.
pub uninterp spec fn argon2id_key(passphrase: Seq<u8>, salt: Seq<u8>, m: u32, t: u32, p: u32) -> Option<Seq<u8>>;

/// HMAC-SHA256 of `data` under `key`.
pub uninterp spec fn hmac_sha256(key: Seq<u8>, data: Seq<u8>) -> Seq<u8>;

/// XChaCha20-Poly1305 encryption of `pt` under `key` and `nonce` (ciphertext
/// with its tag), or `None` when the cipher refuses the input.
pub uninterp spec fn aead_seal(key: Seq<u8>, nonce: Seq<u8>, pt: Seq<u8>) -> Option<Seq<u8>>;

/// XChaCha20-Poly1305 decryption of `ct`, or `None` when authentication fails.
pub uninterp spec fn aead_open(key: Seq<u8>, nonce: Seq<u8>, ct: Seq<u8>) -> Option<Seq<u8>>;

/// `Params::new(m, t, p, Some(32))` then `Argon2::new(Argon2id, V0x13, ..)
/// .hash_password_into`: the result (or refusal) is named by `argon2id_key`.
/// `Params::new` multiplies `p` by 8 before it checks `p` against its maximum
/// (`0xFFFFFF`), so lane counts above that maximum are excluded.
#[verifier::external_body]
fn argon2id(passphrase: &[u8], salt: &[u8], m: u32, t: u32, p: u32) -> (r: Result<[u8; 32], String>)
    requires p <= 0xFF_FFFF,
    ensures
        match r {
            Ok(k) => argon2id_key(passphrase@, salt@, m, t, p) == Some(k@),
            Err(_) => argon2id_key(passphrase@, salt@, m, t, p) is None,
        },
{
    let params = Params::new(m, t, p, Some(32)).map_err(|e| format!("argon2 params: {e}"))?;
    let a2 = Argon2::new(Algorithm::Argon2id, Version::V0x13, params);
    let mut key = [0u8; 32];
    a2.hash_password_into(passphrase, salt, &mut key).map_err(|e| format!("argon2 derive: {e}"))?;
    Ok(key)
}

/// `Hmac::<Sha256>::new_from_slice(key)` (which accepts any key length), then
/// `update(data)` and `finalize()`: the tag, named by `hmac_sha256`.
#[verifier::external_body]
fn hmac_tag(key: &[u8], data: &[u8]) -> (r: [u8; 32])
    ensures r@ == hmac_sha256(key@, data@),
{
    let mut mac = <Hmac<Sha256> as Mac>::new_from_slice(key).expect("HMAC accepts any key length");
    mac.update(data);
    mac.finalize().into_bytes().into()
}

/// `XChaCha20Poly1305::new(key).encrypt(nonce, pt)`: named by `aead_seal`. It
/// fails exactly when the plaintext has `u32::MAX` or more 64-byte blocks (the
/// ChaCha20 block counter would overflow); its message is not described.
#[verifier::external_body]
fn xchacha_encrypt(key: &[u8; 32], nonce: &[u8], pt: &[u8]) -> (r: Result<Vec<u8>, String>)
    requires nonce@.len() == 24,
    ensures
        r is Ok <==> pt@.len() / 64 < u32::MAX,
        match r {
            Ok(ct) => aead_seal(key@, nonce@, pt@) == Some(ct@),
            Err(_) => aead_seal(key@, nonce@, pt@) is None,
        },
{
    XChaCha20Poly1305::new(Key::from_slice(key))
        .encrypt(XNonce::from_slice(nonce), pt)
        .map_err(|e| format!("encrypt: {e}"))
}

/// `XChaCha20Poly1305::new(key).decrypt(nonce, ct)`: named by `aead_open`. As
/// for any AEAD, a ciphertext that encryption produced under the same key and
/// nonce decrypts to its plaintext.
#[verifier::external_body]
fn xchacha_decrypt(key: &[u8; 32], nonce: &[u8], ct: &[u8]) -> (r: Result<Vec<u8>, ()>)
    requires nonce@.len() == 24,
    ensures
        match r {
            Ok(v) => aead_open(key@, nonce@, ct@) == Some(v@)
                && forall|pt: Seq<u8>| #[trigger] aead_seal(key@, nonce@, pt) == Some(ct@) ==> v@ == pt,
            Err(_) => aead_open(key@, nonce@, ct@) is None
                && forall|pt: Seq<u8>| #[trigger] aead_seal(key@, nonce@, pt) != Some(ct@),
        },
{
    XChaCha20Poly1305::new(Key::from_slice(key)).decrypt(XNonce::from_slice(nonce), ct).map_err(|_| ())
}

/// `rand::rng().fill_bytes` into a fresh buffer of `n` bytes (from the OS-seeded
/// CSPRNG). Only the length is claimed.
#[verifier::external_body]
pub fn random_bytes(n: usize) -> (r: Vec<u8>)
    ensures r@.len() == n,
{
    let mut b = vec![0u8; n];
    rand::rng().fill_bytes(&mut b);
    b
}

// ---------------------------------------------------------------------------
// Keys and the cipher
// ---------------------------------------------------------------------------

/// Derive a 32-byte key from a passphrase and salt with Argon2id; a refusal by
/// argon2 (bad costs, short salt) is a `Crypto` error. A lane count above
/// argon2's maximum (`0xFFFFFF`) is refused before argon2 is asked.
pub fn derive_key(passphrase: &[u8], salt: &[u8], p: KdfParams) -> (r: Result<[u8; 32], NucleusError>)
    ensures
        p.p_cost > 0xFF_FFFF ==> (r matches Err(NucleusError::Crypto(m))
            && m@ == "argon2 params: too many threads"@),
        p.p_cost <= 0xFF_FFFF ==> match r {
            Ok(k) => argon2id_key(passphrase@, salt@, p.m_cost, p.t_cost, p.p_cost) == Some(k@),
            Err(e) => argon2id_key(passphrase@, salt@, p.m_cost, p.t_cost, p.p_cost) is None
                && e is Crypto,
        },
{
    if p.p_cost > 0xFF_FFFF {
        return Err(NucleusError::Crypto(String::from_str("argon2 params: too many threads")));
    }
    match argon2id(passphrase, salt, p.m_cost, p.t_cost, p.p_cost) {
        Ok(k) => Ok(k),
        Err(msg) => Err(NucleusError::Crypto(msg)),
    }
}

/// The label the index-MAC subkey is derived under.
pub open spec fn index_label() -> Seq<u8> {
    seq![110u8, 117, 99, 108, 101, 117, 115, 47, 105, 110, 100, 101, 120, 45, 109, 97, 99, 47, 118, 49]
}

/// Derive a 32-byte subkey from `key` for a given purpose `label`, keeping the
/// AEAD and MAC keys independent (`HMAC(key, label)`).
fn derive_subkey(key: &[u8; 32], label: &[u8]) -> (r: [u8; 32])
    ensures r@ == hmac_sha256(key@, label@),
{
    hmac_tag(key, label)
}

/// AEAD cipher over stored values, plus an index-MAC subkey for opaque lookup
/// tokens.
pub struct Cipher {
    key: [u8; 32],
    index_key: [u8; 32],
}

/// `blob` is a nonce followed by the encryption of `pt` under `key` with that
/// nonce: what [`Cipher::seal`] produces.
pub open spec fn sealed(key: Seq<u8>, pt: Seq<u8>, blob: Seq<u8>) -> bool {
    blob.len() >= 24 && aead_seal(key, blob.subrange(0, 24), pt) == Some(blob.subrange(24, blob.len() as int))
}

impl Cipher {
    /// The AEAD key.
    pub closed spec fn spec_key(&self) -> Seq<u8> {
        self.key@
    }

    /// The index-MAC subkey.
    pub closed spec fn spec_index_key(&self) -> Seq<u8> {
        self.index_key@
    }

    /// Build a cipher directly from a 32-byte key.
    pub fn new(key: &[u8; 32]) -> (r: Self)
        ensures
            r.spec_key() == key@,
            r.spec_index_key() == hmac_sha256(key@, index_label()),
    {
        let label: [u8; 20] = [110, 117, 99, 108, 101, 117, 115, 47, 105, 110, 100, 101, 120, 45, 109, 97, 99, 47, 118, 49];
        assert(label@ == index_label());
        Self { key: *key, index_key: derive_subkey(key, &label) }
    }

    /// Deterministic, keyed token for a lookup key: lowercase hex of
    /// `HMAC-SHA256(index_key, data)`.
    pub fn index_token(&self, data: &str) -> (r: String)
        ensures r@ == hex(hmac_sha256(self.spec_index_key(), vstd::utf8::encode_utf8(data@))),
    {
        let tag = hmac_tag(&self.index_key, data.as_bytes());
        let mut s = String::new();
        push_hex(&mut s, &tag);
        assert(Seq::<char>::empty() + hex(tag@) =~= hex(tag@));
        s
    }

    /// Derive a key from a passphrase/salt (Argon2id) and build a cipher.
    pub fn from_passphrase(passphrase: &str, salt: &[u8], p: KdfParams) -> (r: Result<Self, NucleusError>)
        ensures
            p.p_cost > 0xFF_FFFF ==> (r matches Err(NucleusError::Crypto(m))
                && m@ == "argon2 params: too many threads"@),
            p.p_cost <= 0xFF_FFFF ==> match r {
                Ok(c) => argon2id_key(vstd::utf8::encode_utf8(passphrase@), salt@, p.m_cost, p.t_cost, p.p_cost)
                    == Some(c.spec_key()),
                Err(e) => argon2id_key(vstd::utf8::encode_utf8(passphrase@), salt@, p.m_cost, p.t_cost, p.p_cost)
                    is None && e is Crypto,
            },
    {
        match derive_key(passphrase.as_bytes(), salt, p) {
            Ok(key) => Ok(Self::new(&key)),
            Err(e) => Err(e),
        }
    }

    /// Encrypt `plaintext`: the output is `nonce (24 B) || ciphertext+tag` with a
    /// fresh random nonce. It fails only on a plaintext of `u32::MAX` or more
    /// 64-byte blocks, which the cipher cannot count.
    pub fn seal(&self, plaintext: &[u8]) -> (r: Result<Vec<u8>, NucleusError>)
        ensures
            r is Ok <==> plaintext@.len() / 64 < u32::MAX,
            match r {
                Ok(blob) => sealed(self.spec_key(), plaintext@, blob@),
                Err(e) => e is Crypto,
            },
    {
        let nonce_bytes = random_bytes(NONCE_LEN);
        let ct = match xchacha_encrypt(&self.key, nonce_bytes.as_slice(), plaintext) {
            Ok(ct) => ct,
            Err(msg) => return Err(NucleusError::Crypto(msg)),
        };
        let mut out: Vec<u8> = Vec::new();
        let mut i: usize = 0;
        while i < nonce_bytes.len()
            invariant
                i <= nonce_bytes@.len(),
                out@ == nonce_bytes@.take(i as int),
            decreases nonce_bytes.len() - i,
        {
            out.push(nonce_bytes[i]);
            i = i + 1;
            assert(out@ =~= nonce_bytes@.take(i as int));
        }
        let mut j: usize = 0;
        while j < ct.len()
            invariant
                j <= ct@.len(),
                out@ == nonce_bytes@ + ct@.take(j as int),
            decreases ct.len() - j,
        {
            out.push(ct[j]);
            j = j + 1;
            assert(out@ =~= nonce_bytes@ + ct@.take(j as int));
        }
        assert(out@.subrange(0, 24) =~= nonce_bytes@);
        assert(out@.subrange(24, out@.len() as int) =~= ct@);
        Ok(out)
    }

    /// Decrypt a blob produced by [`seal`](Cipher::seal). Shorter than a nonce,
    /// a wrong key or a tampered ciphertext give a `Crypto` error; a blob that
    /// seals `pt` under this key opens to `pt`.
    pub fn open(&self, blob: &[u8]) -> (r: Result<Vec<u8>, NucleusError>)
        ensures
            match r {
                Ok(pt) => blob@.len() >= 24
                    && aead_open(self.spec_key(), blob@.subrange(0, 24), blob@.subrange(24, blob@.len() as int)) == Some(pt@),
                Err(e) => if blob@.len() < 24 {
                    e matches NucleusError::Crypto(m) && m@ == "ciphertext too short"@
                } else {
                    aead_open(self.spec_key(), blob@.subrange(0, 24), blob@.subrange(24, blob@.len() as int)) is None
                        && (e matches NucleusError::Crypto(m) && m@ == "decryption failed (wrong passphrase or corrupt data)"@)
                },
            },
            forall|pt: Seq<u8>| #[trigger] sealed(self.spec_key(), pt, blob@) ==> (r matches Ok(v) && v@ == pt),
    {
        if blob.len() < NONCE_LEN {
            return Err(NucleusError::Crypto(String::from_str("ciphertext too short")));
        }
        let nonce = slice_range(blob, 0, NONCE_LEN);
        let ct = slice_range(blob, NONCE_LEN, blob.len());
        match xchacha_decrypt(&self.key, nonce.as_slice(), ct.as_slice()) {
            Ok(pt) => Ok(pt),
            Err(_) => Err(NucleusError::Crypto(String::from_str(
                "decryption failed (wrong passphrase or corrupt data)",
            ))),
        }
    }
}

/// A copy of `b[from..to]`.
pub fn slice_range(b: &[u8], from: usize, to: usize) -> (r: Vec<u8>)
    requires from <= to <= b@.len(),
    ensures r@ == b@.subrange(from as int, to as int),
{
    let mut out: Vec<u8> = Vec::new();
    let mut i = from;
    while i < to
        invariant
            from <= i <= to <= b@.len(),
            out@ == b@.subrange(from as int, i as int),
        decreases to - i,
    {
        out.push(b[i]);
        i = i + 1;
        assert(out@ =~= b@.subrange(from as int, i as int));
    }
    out
}

/// Protect machine-key bytes for storage. On this platform the file's owner-only
/// permissions protect it, so the bytes are stored as they are.
pub fn wrap(data: &[u8]) -> (r: Result<Vec<u8>, NucleusError>)
    ensures r matches Ok(v) && v@ == data@,
{
    Ok(slice_range(data, 0, data.len()))
}

/// Recover machine-key bytes written by [`wrap`].
pub fn unwrap(data: &[u8]) -> (r: Result<Vec<u8>, NucleusError>)
    ensures r matches Ok(v) && v@ == data@,
{
    Ok(slice_range(data, 0, data.len()))
}

/// The machine key held by a key file's contents: `None` for an empty file (a
/// concurrent creation still flushing), the unwrapped 32 bytes, or a `Crypto`
/// error when they are not exactly 32 bytes.
pub fn machine_key_from_file(wrapped: &[u8]) -> (r: Result<Option<[u8; 32]>, NucleusError>)
    ensures
        match r {
            Ok(None) => wrapped@.len() == 0,
            Ok(Some(k)) => wrapped@.len() == 32 && k@ == wrapped@,
            Err(e) => wrapped@.len() != 0 && wrapped@.len() != 32
                && (e matches NucleusError::Crypto(m) && m@ == "machine key file is corrupt"@),
        },
{
    if wrapped.len() == 0 {
        return Ok(None);
    }
    let raw = unwrap(wrapped)?;
    if raw.len() != 32 {
        return Err(NucleusError::Crypto(String::from_str("machine key file is corrupt")));
    }
    let mut arr = [0u8; 32];
    let mut i: usize = 0;
    while i < 32
        invariant
            raw@.len() == 32,
            i <= 32,
            forall|k: int| 0 <= k < i ==> arr@[k] == raw@[k],
        decreases 32 - i,
    {
        arr[i] = raw[i];
        i = i + 1;
    }
    assert(arr@ =~= raw@);
    Ok(Some(arr))
}

} // verus!
