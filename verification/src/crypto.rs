//! Encryption of stored keys: AES-256-GCM under a key derived from the
//! configured secret, as base64 text with the nonce in front.

use aes_gcm::aead::{Aead, OsRng};
use aes_gcm::{Aes256Gcm, Key, KeyInit, Nonce};
use base64::Engine as _;
use rand::RngCore;
use sha2::{Digest, Sha256};
use vstd::prelude::*;

verus! {

pub const NONCE_LEN: usize = 12;

/// The bytes of the tag at the end of a ciphertext.
pub const TAG_LEN: usize = 16;

/// The secret that stands in for an empty one in debug builds.
pub const FALLBACK_SECRET: &'static str = "e621-account-parser:key-encryption:fallback:v1";

/// The SHA-256 digest of a byte string, as the `sha2` crate computes it.
pub uninterp spec fn sha256(bytes: Seq<u8>) -> Seq<u8>;

/// What AES-256-GCM of the `aes-gcm` crate makes of a plaintext under a key and a
/// nonce: the ciphertext with its tag, or the text of the error.
pub uninterp spec fn sealed(key: Seq<u8>, nonce: Seq<u8>, plain: Seq<u8>) -> Result<
    Seq<u8>,
    Seq<char>,
>;

/// What AES-256-GCM of the `aes-gcm` crate makes of a ciphertext with its tag
/// under a key and a nonce: the plaintext, or the text of the error.
pub uninterp spec fn opened(key: Seq<u8>, nonce: Seq<u8>, cipher: Seq<u8>) -> Result<
    Seq<u8>,
    Seq<char>,
>;

/// The standard base64 text of a byte string, as the `base64` crate writes it.
pub uninterp spec fn base64_text(bytes: Seq<u8>) -> Seq<char>;

/// What the `base64` crate reads from a text in the standard alphabet: the bytes,
/// or the text of the error.
pub uninterp spec fn base64_bytes(text: Seq<char>) -> Result<Seq<u8>, Seq<char>>;

/// The view of a result of bytes.
pub open spec fn bytes_view(r: Result<Vec<u8>, String>) -> Result<Seq<u8>, Seq<char>> {
    match r {
        Ok(v) => Ok(v@),
        Err(e) => Err(e@),
    }
}

/// A success with the given bytes.
pub open spec fn good(bytes: Seq<u8>) -> Result<Seq<u8>, Seq<char>> {
    Ok(bytes)
}

/// Calls `sha2::Sha256::digest`. The result is the digest, 32 bytes long.
#[verifier::external_body]
pub(crate) fn sha256_digest(bytes: &[u8]) -> (r: Vec<u8>)
    ensures
        r@ == sha256(bytes@),
        r@.len() == 32,
{
    Sha256::digest(bytes).to_vec()
}

/// The longest plaintext that AES-GCM takes, in bytes.
pub const MAX_PLAINTEXT: u64 = 0x10_0000_0000;

/// The body of a ciphertext, in front of the 16 bytes of its tag, belongs to the
/// plaintext alone: whatever is sealed into the same body under the same key and
/// nonce is that plaintext.
pub open spec fn body_is_of(key: Seq<u8>, nonce: Seq<u8>, cipher: Seq<u8>, plain: Seq<u8>) -> bool {
    forall|q: Seq<u8>, c: Seq<u8>|
        #[trigger] sealed(key, nonce, q) == #[trigger] good(c) && c.len() == cipher.len() && c.take(
            c.len() - TAG_LEN,
        ) == cipher.take(cipher.len() - TAG_LEN) ==> q == plain
}

/// The tag of a ciphertext belongs to the nonce: nothing is sealed into the same
/// ciphertext under another nonce.
pub open spec fn nonce_is_of(key: Seq<u8>, nonce: Seq<u8>, cipher: Seq<u8>) -> bool {
    forall|n: Seq<u8>, q: Seq<u8>|
        n.len() == NONCE_LEN && #[trigger] sealed(key, n, q) == good(cipher) ==> n == nonce
}

/// The two have one length and differ in one byte.
pub open spec fn one_byte_apart(a: Seq<u8>, b: Seq<u8>) -> bool {
    a.len() == b.len() && exists|i: int|
        0 <= i < a.len() && a[i] != (#[trigger] b[i]) && b == a.update(i, b[i])
}

/// Under the key the tag does not depend on what is sealed. Such is a key for which
/// the hash of AES-GCM, a polynomial in a block that the key gives, is constant.
pub open spec fn is_blind(key: Seq<u8>) -> bool {
    forall|n: Seq<u8>, p: Seq<u8>, q: Seq<u8>, c: Seq<u8>, d: Seq<u8>|
        #![trigger sealed(key, n, p), sealed(key, n, q), good(c), good(d)]
        n.len() == NONCE_LEN && sealed(key, n, p) == good(c) && sealed(key, n, q) == good(d)
            ==> c.skip(c.len() - TAG_LEN) == d.skip(d.len() - TAG_LEN)
}

/// Every byte of a ciphertext counts: nothing is sealed into one that differs in a
/// single byte, unless the key is blind.
pub open spec fn bytes_bind(key: Seq<u8>, nonce: Seq<u8>, cipher: Seq<u8>) -> bool {
    forall|q: Seq<u8>, c: Seq<u8>|
        #[trigger] sealed(key, nonce, q) == #[trigger] good(c) && one_byte_apart(c, cipher)
            ==> is_blind(key)
}

/// A ciphertext is the one of its plaintext, and its body, its nonce and each of its
/// bytes are bound to it.
pub open spec fn is_genuine(key: Seq<u8>, nonce: Seq<u8>, cipher: Seq<u8>, plain: Seq<u8>) -> bool {
    &&& sealed(key, nonce, plain) == good(cipher)
    &&& body_is_of(key, nonce, cipher, plain)
    &&& nonce_is_of(key, nonce, cipher)
    &&& bytes_bind(key, nonce, cipher)
}

/// Calls `Aead::encrypt` of `aes_gcm::Aes256Gcm`. The result is the ciphertext
/// with the 16 bytes of its tag, or the text of the error; it is an error for a
/// plaintext beyond the longest only. What was encrypted is what `Aead::decrypt`
/// gives back under the same key and nonce.
///
/// The ciphertext is genuine. Its body is the plaintext under a key stream of the
/// key and the nonce, so no other plaintext has it. Its tag is the hash of the body
/// under a mask, which is the block of the nonce under the cipher: as the cipher is
/// one to one, another nonce has another mask. The hash adds up the blocks of the
/// body times powers of a field element that the key gives: a change within one
/// block changes it, unless that element is zero, and then it is constant.
#[verifier::external_body]
fn seal(key: &[u8], nonce: &[u8], plain: &[u8]) -> (r: Result<Vec<u8>, String>)
    requires
        key@.len() == 32,
        nonce@.len() == 12,
    ensures
        bytes_view(r) == sealed(key@, nonce@, plain@),
        r is Ok <==> plain@.len() <= MAX_PLAINTEXT,
        r matches Ok(c) ==> c@.len() == plain@.len() + TAG_LEN,
        r matches Ok(c) ==> opened(key@, nonce@, c@) == good(plain@),
        r matches Ok(c) ==> is_genuine(key@, nonce@, c@, plain@),
{
    let cipher = Aes256Gcm::new(Key::<Aes256Gcm>::from_slice(key));
    cipher.encrypt(Nonce::from_slice(nonce), plain).map_err(|e| format!("{e}"))
}

/// Calls `Aead::decrypt` of `aes_gcm::Aes256Gcm`. The result is the plaintext, or
/// the text of the error. A ciphertext opens only where its tag is the one that
/// `Aead::encrypt` gives for its body, so what opens is genuine; this is stated for
/// plaintexts that can be encrypted, since somewhat longer ones open.
#[verifier::external_body]
fn open_sealed(key: &[u8], nonce: &[u8], cipher: &[u8]) -> (r: Result<Vec<u8>, String>)
    requires
        key@.len() == 32,
        nonce@.len() == 12,
    ensures
        bytes_view(r) == opened(key@, nonce@, cipher@),
        r matches Ok(p) ==> cipher@.len() == p@.len() + TAG_LEN,
        r matches Ok(p) ==> p@.len() <= MAX_PLAINTEXT ==> is_genuine(
            key@,
            nonce@,
            cipher@,
            p@,
        ),
{
    let aead = Aes256Gcm::new(Key::<Aes256Gcm>::from_slice(key));
    aead.decrypt(Nonce::from_slice(nonce), cipher).map_err(|e| format!("{e}"))
}

/// Calls `RngCore::try_fill_bytes` of the operating system's generator on twelve
/// bytes. Nothing is promised of the bytes but their number; `None` where the
/// system has no random source.
#[verifier::external_body]
pub(crate) fn random_nonce() -> (r: Option<Vec<u8>>)
    ensures
        r matches Some(v) ==> v@.len() == 12,
{
    let mut nonce = vec![0u8; 12];
    OsRng.try_fill_bytes(&mut nonce).ok()?;
    Some(nonce)
}

/// Calls `Engine::encode` of `base64`'s standard engine. The result is the base64
/// text, from which the same engine's `decode` reads the bytes back.
#[verifier::external_body]
fn encode_base64(bytes: &[u8]) -> (r: String)
    ensures
        r@ == base64_text(bytes@),
        base64_bytes(r@) == good(bytes@),
{
    base64::engine::general_purpose::STANDARD.encode(bytes)
}

/// Calls `Engine::decode` of `base64`'s standard engine. The result is the bytes
/// of the text, or the text of the error.
#[verifier::external_body]
fn decode_base64(text: &str) -> (r: Result<Vec<u8>, String>)
    ensures
        bytes_view(r) == base64_bytes(text@),
{
    base64::engine::general_purpose::STANDARD.decode(text).map_err(|e| format!("{e}"))
}

/// Whether the warning about an empty secret is due: the first time only.
pub fn log_empty_secret_once(warned: &mut bool) -> (due: bool)
    ensures
        due == !*old(warned),
        *final(warned),
{
    let due: bool = !*warned;
    *warned = true;
    due
}

/// The message that refuses an empty secret in a release build.
pub open spec fn empty_secret_message() -> Seq<char> {
    "e621_key_encryption_secret is empty; refusing to use a fixed fallback key "@
        + "in a release build — set a strong secret in config.toml"@
}

/// The key of a secret: its digest. An empty secret has a fixed key in debug
/// builds and none in release builds.
pub open spec fn key_of(secret: Seq<char>, debug: bool) -> Result<Seq<u8>, Seq<char>> {
    if secret.len() > 0 {
        Ok(sha256(vstd::utf8::encode_utf8(secret)))
    } else if debug {
        Ok(sha256(vstd::utf8::encode_utf8(FALLBACK_SECRET@)))
    } else {
        Err(empty_secret_message())
    }
}

/// The key of a secret.
pub fn encryption_key(secret: &str, debug: bool) -> (r: Result<Vec<u8>, String>)
    ensures
        bytes_view(r) == key_of(secret@, debug),
        r matches Ok(k) ==> k@.len() == 32,
{
    if secret.is_empty() {
        if !debug {
            let mut m = String::from_str(
                "e621_key_encryption_secret is empty; refusing to use a fixed fallback key ",
            );
            m.append("in a release build — set a strong secret in config.toml");
            return Err(m);
        }
        Ok(sha256_digest(FALLBACK_SECRET.as_bytes()))
    } else {
        Ok(sha256_digest(secret.as_bytes()))
    }
}

/// What stands behind the nonce and under the key of the secret in a base64 text.
pub open spec fn decrypted(encoded: Seq<char>, secret: Seq<char>, debug: bool) -> Result<
    Seq<u8>,
    Seq<char>,
> {
    match base64_bytes(encoded) {
        Err(e) => Err("invalid base64 ciphertext: "@ + e),
        Ok(blob) => if blob.len() < NONCE_LEN + 1 {
            Err("ciphertext blob too short"@)
        } else {
            match key_of(secret, debug) {
                Err(e) => Err(e),
                Ok(key) => match opened(
                    key,
                    blob.take(NONCE_LEN as int),
                    blob.skip(NONCE_LEN as int),
                ) {
                    Ok(p) => Ok(p),
                    Err(e) => Err(
                        "AES-GCM decrypt failed (secret mismatch or corrupt blob): "@ + e,
                    ),
                },
            }
        },
    }
}

/// A stored text is authentic for a plaintext: behind its nonce stands the genuine
/// ciphertext of the plaintext.
pub open spec fn is_authentic(
    encoded: Seq<char>,
    plain: Seq<u8>,
    secret: Seq<char>,
    debug: bool,
) -> bool {
    &&& base64_bytes(encoded) is Ok
    &&& key_of(secret, debug) is Ok
    &&& {
        let blob = base64_bytes(encoded)->Ok_0;
        let key = key_of(secret, debug)->Ok_0;
        let nonce = blob.take(NONCE_LEN as int);
        let cipher = blob.skip(NONCE_LEN as int);
        &&& blob.len() == NONCE_LEN + plain.len() + TAG_LEN
        &&& is_genuine(key, nonce, cipher, plain)
    }
}

/// A blob was changed: in its tag alone, in its nonce alone, or in a single byte
/// where the key is not blind.
pub open spec fn is_changed(blob: Seq<u8>, changed: Seq<u8>, key: Seq<u8>) -> bool {
    &&& changed != blob
    &&& changed.len() == blob.len()
    &&& {
        ||| changed.take(blob.len() - TAG_LEN) == blob.take(blob.len() - TAG_LEN)
        ||| changed.skip(NONCE_LEN as int) == blob.skip(NONCE_LEN as int)
        ||| one_byte_apart(blob, changed) && !is_blind(key)
    }
}

/// A stored text was made by changing an authentic one.
pub open spec fn is_tampered(changed: Seq<char>, secret: Seq<char>, debug: bool) -> bool {
    exists|stored: Seq<char>, plain: Seq<u8>|
        plain.len() <= MAX_PLAINTEXT && #[trigger] is_authentic(stored, plain, secret, debug)
            && base64_bytes(changed) is Ok && is_changed(
            base64_bytes(stored)->Ok_0,
            base64_bytes(changed)->Ok_0,
            key_of(secret, debug)->Ok_0,
        )
}

/// Decrypts a stored text. What comes out was sealed under the nonce of the text,
/// and a text that was tampered with is refused.
pub fn decrypt(encoded: &str, secret: &str, debug: bool) -> (r: Result<Vec<u8>, String>)
    ensures
        bytes_view(r) == decrypted(encoded@, secret@, debug),
        r matches Ok(p) ==> p@.len() <= MAX_PLAINTEXT ==> is_authentic(
            encoded@,
            p@,
            secret@,
            debug,
        ),
        is_tampered(encoded@, secret@, debug) ==> r is Err,
{
    let blob = match decode_base64(encoded) {
        Ok(b) => b,
        Err(e) => {
            let mut m = String::from_str("invalid base64 ciphertext: ");
            m.append(e.as_str());
            return Err(m);
        },
    };
    if blob.len() < NONCE_LEN + 1 {
        return Err(String::from_str("ciphertext blob too short"));
    }
    let key = match encryption_key(secret, debug) {
        Ok(k) => k,
        Err(e) => {
            return Err(e);
        },
    };
    let (nonce, ct) = blob.as_slice().split_at(NONCE_LEN);
    proof {
        assert(nonce@ =~= blob@.take(NONCE_LEN as int));
        assert(ct@ =~= blob@.skip(NONCE_LEN as int));
    }
    match open_sealed(key.as_slice(), nonce, ct) {
        Ok(p) => {
            proof {
                if is_tampered(encoded@, secret@, debug) {
                    let (stored, plain) = choose|stored: Seq<char>, plain: Seq<u8>|
                        plain.len() <= MAX_PLAINTEXT && #[trigger] is_authentic(
                            stored,
                            plain,
                            secret@,
                            debug,
                        ) && base64_bytes(encoded@) is Ok && is_changed(
                            base64_bytes(stored)->Ok_0,
                            base64_bytes(encoded@)->Ok_0,
                            key_of(secret@, debug)->Ok_0,
                        );
                    law_tampered_text_is_refused(stored, encoded@, plain, p@, secret@, debug);
                }
            }
            Ok(p)
        },
        Err(e) => {
            let mut m = String::from_str(
                "AES-GCM decrypt failed (secret mismatch or corrupt blob): ",
            );
            m.append(e.as_str());
            Err(m)
        },
    }
}

/// The stored text of a plaintext under a given nonce.
pub open spec fn encrypted(
    plain: Seq<u8>,
    nonce: Seq<u8>,
    secret: Seq<char>,
    debug: bool,
) -> Result<Seq<char>, Seq<char>> {
    match key_of(secret, debug) {
        Err(e) => Err(e),
        Ok(key) => match sealed(key, nonce, plain) {
            Ok(c) => Ok(base64_text(nonce + c)),
            Err(e) => Err("AES-GCM encrypt failed: "@ + e),
        },
    }
}

pub open spec fn text_view(r: Result<String, String>) -> Result<Seq<char>, Seq<char>> {
    match r {
        Ok(v) => Ok(v@),
        Err(e) => Err(e@),
    }
}

/// A stored text starts with the nonce.
pub open spec fn carries_nonce(encoded: Seq<char>, nonce: Seq<u8>) -> bool {
    base64_bytes(encoded) matches Ok(blob) && blob.len() >= NONCE_LEN && blob.take(NONCE_LEN as int)
        == nonce
}

/// Encrypts a plaintext under a given nonce. Decrypting the result under the same
/// secret gives the plaintext back.
pub fn encrypt_with_nonce(plain: &[u8], nonce: &Vec<u8>, secret: &str, debug: bool) -> (r: Result<
    String,
    String,
>)
    requires
        nonce@.len() == NONCE_LEN,
    ensures
        text_view(r) == encrypted(plain@, nonce@, secret@, debug),
        r is Ok <==> (secret@.len() > 0 || debug) && plain@.len() <= MAX_PLAINTEXT,
        r matches Ok(t) ==> decrypted(t@, secret@, debug) == good(plain@),
        r matches Ok(t) ==> is_authentic(t@, plain@, secret@, debug),
        r matches Ok(t) ==> carries_nonce(t@, nonce@),
{
    let key = match encryption_key(secret, debug) {
        Ok(k) => k,
        Err(e) => {
            return Err(e);
        },
    };
    match seal(key.as_slice(), nonce.as_slice(), plain) {
        Ok(ct) => {
            let mut blob: Vec<u8> = Vec::new();
            let mut i: usize = 0;
            while i < nonce.len()
                invariant
                    i <= nonce.len(),
                    blob@ == nonce@.take(i as int),
                decreases nonce.len() - i,
            {
                blob.push(nonce[i]);
                proof {
                    assert(nonce@.take(i + 1) =~= nonce@.take(i as int).push(nonce@[i as int]));
                }
                i += 1;
            }
            let mut j: usize = 0;
            proof {
                assert(nonce@.take(nonce@.len() as int) =~= nonce@);
                assert(nonce@ + ct@.take(0) =~= nonce@);
            }
            while j < ct.len()
                invariant
                    j <= ct.len(),
                    blob@ == nonce@ + ct@.take(j as int),
                decreases ct.len() - j,
            {
                blob.push(ct[j]);
                proof {
                    assert(nonce@ + ct@.take(j + 1) =~= (nonce@ + ct@.take(j as int)).push(
                        ct@[j as int],
                    ));
                }
                j += 1;
            }
            proof {
                assert(ct@.take(ct@.len() as int) =~= ct@);
                assert(blob@.take(NONCE_LEN as int) =~= nonce@);
                assert(blob@.skip(NONCE_LEN as int) =~= ct@);
            }
            Ok(encode_base64(blob.as_slice()))
        },
        Err(e) => {
            let mut m = String::from_str("AES-GCM encrypt failed: ");
            m.append(e.as_str());
            Err(m)
        },
    }
}

/// The stored text of a plaintext under the nonce that the random source gave, if
/// it gave one.
pub open spec fn encrypted_under(
    plain: Seq<u8>,
    nonce: Option<Seq<u8>>,
    secret: Seq<char>,
    debug: bool,
) -> Result<Seq<char>, Seq<char>> {
    match key_of(secret, debug) {
        Err(e) => Err(e),
        Ok(_) => match nonce {
            Some(n) => encrypted(plain, n, secret, debug),
            None => Err("no random nonce available"@),
        },
    }
}

pub open spec fn nonce_view(nonce: Option<Vec<u8>>) -> Option<Seq<u8>> {
    match nonce {
        Some(n) => Some(n@),
        None => None,
    }
}

/// Where there is a nonce, it has the length of one.
pub open spec fn is_nonce(nonce: Option<Seq<u8>>) -> bool {
    nonce matches Some(n) ==> n.len() == NONCE_LEN
}

/// Encrypts a plaintext under the nonce that the random source gave; without one
/// it is an error. Decrypting the result under the same secret gives the plaintext
/// back.
pub fn encrypt_under(plain: &[u8], nonce: Option<Vec<u8>>, secret: &str, debug: bool) -> (r: Result<
    String,
    String,
>)
    requires
        is_nonce(nonce_view(nonce)),
    ensures
        text_view(r) == encrypted_under(plain@, nonce_view(nonce), secret@, debug),
        r is Ok <==> nonce is Some && (secret@.len() > 0 || debug) && plain@.len() <= MAX_PLAINTEXT,
        r matches Ok(t) ==> decrypted(t@, secret@, debug) == good(plain@),
        r matches Ok(t) ==> is_authentic(t@, plain@, secret@, debug),
        r matches Ok(t) ==> carries_nonce(t@, nonce->0@),
{
    match nonce {
        Some(n) => encrypt_with_nonce(plain, &n, secret, debug),
        None => match encryption_key(secret, debug) {
            Ok(_) => Err(String::from_str("no random nonce available")),
            Err(e) => Err(e),
        },
    }
}

/// Encrypts a plaintext under a fresh random nonce. Decrypting the result under
/// the same secret gives the plaintext back. Whether the system gives a nonce is
/// not known beforehand.
pub fn encrypt(plain: &[u8], secret: &str, debug: bool) -> (r: Result<String, String>)
    ensures
        exists|nonce: Option<Seq<u8>>|
            is_nonce(nonce) && text_view(r) == #[trigger] encrypted_under(
                plain@,
                nonce,
                secret@,
                debug,
            ),
        r is Ok ==> (secret@.len() > 0 || debug) && plain@.len() <= MAX_PLAINTEXT,
        r matches Ok(t) ==> decrypted(t@, secret@, debug) == good(plain@),
        r matches Ok(t) ==> is_authentic(t@, plain@, secret@, debug),
{
    encrypt_under(plain, random_nonce(), secret, debug)
}

/// A stored text whose bytes were changed behind the nonce never opens as the
/// plaintext that was stored.
pub proof fn law_changed_text_is_not_the_plaintext(
    stored: Seq<char>,
    changed: Seq<char>,
    plain: Seq<u8>,
    secret: Seq<char>,
    debug: bool,
)
    requires
        is_authentic(stored, plain, secret, debug),
        base64_bytes(changed) is Ok,
        base64_bytes(changed)->Ok_0 != base64_bytes(stored)->Ok_0,
        base64_bytes(changed)->Ok_0.take(NONCE_LEN as int) == base64_bytes(stored)->Ok_0.take(
            NONCE_LEN as int,
        ),
    ensures
        !is_authentic(changed, plain, secret, debug),
{
    let a = base64_bytes(stored)->Ok_0;
    let b = base64_bytes(changed)->Ok_0;
    if is_authentic(changed, plain, secret, debug) {
        assert(good(a.skip(NONCE_LEN as int)) == good(b.skip(NONCE_LEN as int)));
        assert(a =~= a.take(NONCE_LEN as int) + a.skip(NONCE_LEN as int));
        assert(b =~= b.take(NONCE_LEN as int) + b.skip(NONCE_LEN as int));
    }
}

/// A stored text that was changed does not open as anything: not with another tag,
/// not with another nonce, and, unless the key is blind, not with another byte.
pub proof fn law_tampered_text_is_refused(
    stored: Seq<char>,
    changed: Seq<char>,
    plain: Seq<u8>,
    other: Seq<u8>,
    secret: Seq<char>,
    debug: bool,
)
    requires
        is_authentic(stored, plain, secret, debug),
        base64_bytes(changed) is Ok,
        is_changed(
            base64_bytes(stored)->Ok_0,
            base64_bytes(changed)->Ok_0,
            key_of(secret, debug)->Ok_0,
        ),
    ensures
        !is_authentic(changed, other, secret, debug),
{
    let a = base64_bytes(stored)->Ok_0;
    let b = base64_bytes(changed)->Ok_0;
    let key = key_of(secret, debug)->Ok_0;
    let n = NONCE_LEN as int;
    let m = a.len() - TAG_LEN;
    let c = a.skip(n);
    let d = b.skip(n);
    assert(a =~= a.take(n) + c);
    assert(b =~= b.take(n) + d);
    if is_authentic(changed, other, secret, debug) {
        if b.take(m) == a.take(m) {
            assert(a.take(n) =~= a.take(m).take(n));
            assert(b.take(n) =~= b.take(m).take(n));
            assert(c.take(c.len() - TAG_LEN) =~= a.take(m).skip(n));
            assert(d.take(d.len() - TAG_LEN) =~= b.take(m).skip(n));
            assert(sealed(key, b.take(n), plain) == good(c));
            assert(plain == other);
        } else if d == c {
            assert(sealed(key, b.take(n), other) == good(c));
        } else {
            let i = choose|i: int|
                0 <= i < a.len() && a[i] != (#[trigger] b[i]) && b == a.update(i, b[i]);
            if i < n {
                assert(d =~= c);
            } else {
                assert(b.take(n) =~= a.take(n));
                assert(c[i - n] != d[i - n]);
                assert(d =~= c.update(i - n, d[i - n]));
                assert(one_byte_apart(c, d));
                assert(sealed(key, b.take(n), plain) == good(c));
            }
        }
    }
}

/// Texts that were stored under different nonces are different.
pub proof fn law_fresh_nonces_give_fresh_texts(
    a: Seq<char>,
    b: Seq<char>,
    first: Seq<u8>,
    second: Seq<u8>,
)
    requires
        carries_nonce(a, first),
        carries_nonce(b, second),
        first != second,
    ensures
        a != b,
{
}

/// A text that is no base64, or too short for a nonce and a byte more, is refused.
pub proof fn law_broken_text_is_refused(encoded: Seq<char>, secret: Seq<char>, debug: bool)
    requires
        base64_bytes(encoded) matches Ok(blob) ==> blob.len() < NONCE_LEN + 1,
    ensures
        decrypted(encoded, secret, debug) is Err,
{
}

/// An empty secret works in no release build.
pub proof fn law_release_needs_a_secret(encoded: Seq<char>, plain: Seq<u8>, nonce: Seq<u8>)
    ensures
        decrypted(encoded, Seq::<char>::empty(), false) is Err,
        encrypted(plain, nonce, Seq::<char>::empty(), false) is Err,
{
}

/// A secret has its own digest as the key, in every build.
pub proof fn law_key_is_the_digest_of_the_secret(secret: Seq<char>, debug: bool)
    requires
        secret.len() > 0,
    ensures
        key_of(secret, debug) == good(sha256(vstd::utf8::encode_utf8(secret))),
{
}

} // verus!
