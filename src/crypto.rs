use vstd::prelude::*;
use aes_gcm::aead::{Aead, KeyInit};
use base64::Engine;
use sha2::Digest;
use argon2::password_hash::{PasswordHasher, PasswordVerifier};

verus! {

/// Width in bytes of a session key.
pub const KEY_LEN: usize = 32;

/// Width in bytes of the random nonce that prefixes every sealed blob.
pub const NONCE_LEN: usize = 12;

/// Width in bytes of the authentication tag that AES-256-GCM appends.
pub const TAG_LEN: usize = 16;

/// Longest plaintext, in bytes, that AES-256-GCM accepts.
pub const MAX_PLAINTEXT_LEN: u64 = 68719476736;

/// The UTF-8 encoding of one character: one to four bytes by its scalar value.
pub open spec fn utf8_char(c: char) -> Seq<u8> {
    let v = c as u32;
    if v < 0x80 {
        seq![v as u8]
    } else if v < 0x800 {
        seq![(0xC0 + v / 64) as u8, (0x80 + v % 64) as u8]
    } else if v < 0x10000 {
        seq![(0xE0 + v / 4096) as u8, (0x80 + (v / 64) % 64) as u8, (0x80 + v % 64) as u8]
    } else {
        seq![
            (0xF0 + v / 262144) as u8,
            (0x80 + (v / 4096) % 64) as u8,
            (0x80 + (v / 64) % 64) as u8,
            (0x80 + v % 64) as u8,
        ]
    }
}

/// The UTF-8 encoding of a string: its characters' encodings in order.
pub open spec fn utf8_of(s: Seq<char>) -> Seq<u8>
    decreases s.len(),
{
    if s.len() == 0 {
        Seq::empty()
    } else {
        utf8_of(s.drop_last()) + utf8_char(s.last())
    }
}

/// Each character takes one to four bytes in UTF-8.
pub proof fn lemma_utf8_len(s: Seq<char>)
    ensures
        s.len() <= utf8_of(s).len() <= 4 * s.len(),
    decreases s.len(),
{
    if s.len() > 0 {
        lemma_utf8_len(s.drop_last());
    }
}

/// The SHA-256 digest of a byte string.
pub uninterp spec fn sha256_of(data: Seq<u8>) -> Seq<u8>;

/// AES-256-GCM with an empty associated-data field: ciphertext followed by tag.
pub uninterp spec fn aes_gcm_seal_of(key: Seq<u8>, nonce: Seq<u8>, plaintext: Seq<u8>) -> Seq<u8>;

/// The base64 alphabet of RFC 4648: `A`-`Z`, `a`-`z`, `0`-`9`, `+`, `/`.
pub open spec fn b64_alphabet() -> Seq<char> {
    seq![
        'A', 'B', 'C', 'D', 'E', 'F', 'G', 'H', 'I', 'J', 'K', 'L', 'M', 'N', 'O', 'P', 'Q', 'R',
        'S', 'T', 'U', 'V', 'W', 'X', 'Y', 'Z', 'a', 'b', 'c', 'd', 'e', 'f', 'g', 'h', 'i', 'j',
        'k', 'l', 'm', 'n', 'o', 'p', 'q', 'r', 's', 't', 'u', 'v', 'w', 'x', 'y', 'z', '0', '1',
        '2', '3', '4', '5', '6', '7', '8', '9', '+', '/',
    ]
}

/// Four characters for three bytes: the 24 bits in groups of six, high first.
pub open spec fn b64_quad(a: u8, b: u8, c: u8) -> Seq<char> {
    let x = a as int * 65536 + b as int * 256 + c as int;
    seq![
        b64_alphabet()[x / 262144],
        b64_alphabet()[(x / 4096) % 64],
        b64_alphabet()[(x / 64) % 64],
        b64_alphabet()[x % 64],
    ]
}

/// Base64 text of a byte string: a group of four characters for each three
/// bytes, the last group cut short after the bits of the bytes left (zero
/// bits filling the last character), and filled with `=` when `padded`.
pub open spec fn b64_text(data: Seq<u8>, padded: bool) -> Seq<char>
    decreases data.len(),
{
    if data.len() >= 3 {
        b64_quad(data[0], data[1], data[2]) + b64_text(data.subrange(3, data.len() as int), padded)
    } else if data.len() == 2 {
        let q = b64_quad(data[0], data[1], 0);
        if padded {
            q.subrange(0, 3).push('=')
        } else {
            q.subrange(0, 3)
        }
    } else if data.len() == 1 {
        let q = b64_quad(data[0], 0, 0);
        if padded {
            q.subrange(0, 2) + seq!['=', '=']
        } else {
            q.subrange(0, 2)
        }
    } else {
        Seq::empty()
    }
}

/// Standard base64 text (RFC 4648 alphabet, with padding) of a byte string.
pub open spec fn base64_of(data: Seq<u8>) -> Seq<char> {
    b64_text(data, true)
}

/// The PHC string that Argon2 (default parameters) gives for a password and a
/// base64 salt.
pub uninterp spec fn argon2_phc_of(password: Seq<u8>, salt: Seq<char>) -> Seq<char>;

/// Unpadded B64 text, as the PHC string format writes salts, of a byte string:
/// the same alphabet as base64, without `=`.
pub open spec fn phc_b64_of(data: Seq<u8>) -> Seq<char> {
    b64_text(data, false)
}

/// Longest password, in bytes, that Argon2 accepts.
pub const MAX_PASSWORD_LEN: u64 = 4294967295;

/// A salt as `fresh_salt` makes them: the B64 text of 16 bytes.
pub open spec fn is_generated_salt(salt: Seq<char>) -> bool {
    exists|b: Seq<u8>| b.len() == 16 && #[trigger] phc_b64_of(b) == salt
}

/// A PHC string that `hash_password` makes: the Argon2 hash of a password
/// within the limit under a generated salt.
pub open spec fn is_argon2_hash(h: Seq<char>) -> bool {
    exists|p: Seq<u8>, b: Seq<u8>|
        p.len() <= MAX_PASSWORD_LEN && b.len() == 16 && #[trigger] argon2_phc_of(p, phc_b64_of(b)) == h
}

/// Argon2 verification of a password against a stored PHC string.
pub uninterp spec fn argon2_accepts(password: Seq<u8>, phc: Seq<char>) -> bool;

/// The session key for a master password and an installation's salt.
pub open spec fn derived_key(password: Seq<char>, salt: Seq<char>) -> Seq<u8> {
    sha256_of(utf8_of(password) + utf8_of(salt))
}

/// The stored text form of `plaintext` sealed under `key` with `nonce`:
/// base64 of nonce, ciphertext and tag.
pub open spec fn sealed_blob(key: Seq<u8>, nonce: Seq<u8>, plaintext: Seq<char>) -> Seq<char> {
    base64_of(nonce + aes_gcm_seal_of(key, nonce, utf8_of(plaintext)))
}

/// `blob` is an authentic sealing of `plaintext` under `key`, with some nonce:
/// it decodes to the nonce, a ciphertext as long as the plaintext's bytes, and
/// the tag.
pub open spec fn blob_opens_to(key: Seq<u8>, blob: Seq<char>, plaintext: Seq<char>) -> bool {
    exists|nonce: Seq<u8>|
        nonce.len() == NONCE_LEN && #[trigger] sealed_blob(key, nonce, plaintext) == blob
            && aes_gcm_seal_of(key, nonce, utf8_of(plaintext)).len() == utf8_of(plaintext).len()
            + TAG_LEN
}

/// Length of the stored text of a blob that seals `n` plaintext bytes.
pub open spec fn blob_text_len(n: nat) -> nat {
    4 * ((NONCE_LEN + n + TAG_LEN + 2) / 3) as nat
}

/// `plaintext` is short enough for AES-256-GCM.
pub open spec fn fits_cipher(plaintext: Seq<char>) -> bool {
    utf8_of(plaintext).len() <= MAX_PLAINTEXT_LEN
}

/// Relies on `str::as_bytes`: the UTF-8 bytes of the string.
#[verifier::external_body]
pub(crate) fn utf8_bytes(s: &str) -> (r: Vec<u8>)
    ensures
        r@ == utf8_of(s@),
{
    s.as_bytes().to_vec()
}

/// Relies on `String::from_utf8`: it accepts exactly the UTF-8 encodings of
/// strings, and gives back the string encoded.
#[verifier::external_body]
fn utf8_string(bytes: Vec<u8>) -> (r: Option<String>)
    ensures
        r matches Some(x) ==> utf8_of(x@) == bytes@ && forall|s: Seq<char>|
            #[trigger] utf8_of(s) == bytes@ ==> s == x@,
        r is None ==> forall|s: Seq<char>| #[trigger] utf8_of(s) != bytes@,
{
    String::from_utf8(bytes).ok()
}

/// Relies on `sha2::Sha256::digest`: the 32-byte SHA-256 digest.
#[verifier::external_body]
fn sha256(data: &[u8]) -> (r: Vec<u8>)
    ensures
        r@ == sha256_of(data@),
        r@.len() == KEY_LEN,
{
    sha2::Sha256::digest(data).to_vec()
}

/// Relies on `aes_gcm::Aes256Gcm::encrypt`, which fails only on a plaintext
/// longer than its limit, and appends a 16-byte tag to a ciphertext as long as
/// the plaintext.
#[verifier::external_body]
fn aes_gcm_seal(key: &[u8], nonce: &[u8], plaintext: &[u8]) -> (r: Vec<u8>)
    requires
        key@.len() == KEY_LEN,
        nonce@.len() == NONCE_LEN,
        plaintext@.len() <= MAX_PLAINTEXT_LEN,
    ensures
        r@ == aes_gcm_seal_of(key@, nonce@, plaintext@),
        r@.len() == plaintext@.len() + TAG_LEN,
{
    let cipher = aes_gcm::Aes256Gcm::new(aes_gcm::Key::<aes_gcm::Aes256Gcm>::from_slice(key));
    cipher.encrypt(aes_gcm::Nonce::from_slice(nonce), plaintext).expect("plaintext within the limit")
}

/// Relies on `aes_gcm::Aes256Gcm::decrypt`: it returns a plaintext only when
/// the tag verifies, that is when sealing the plaintext gives the input back,
/// and it opens every sealing of a plaintext within the limit. It strips the
/// 16-byte tag, so an input shorter than a tag opens to nothing; what is left
/// after the tag is checked against the cipher's ciphertext limit, which is the
/// plaintext limit and a tag.
#[verifier::external_body]
fn aes_gcm_open(key: &[u8], nonce: &[u8], sealed: &[u8]) -> (r: Option<Vec<u8>>)
    requires
        key@.len() == KEY_LEN,
        nonce@.len() == NONCE_LEN,
    ensures
        r matches Some(x) ==> sealed@.len() == x@.len() + TAG_LEN,
        r matches Some(x) ==> x@.len() <= MAX_PLAINTEXT_LEN + TAG_LEN,
        r matches Some(x) ==> aes_gcm_seal_of(key@, nonce@, x@) == sealed@ && forall|p: Seq<u8>|
            #[trigger] aes_gcm_seal_of(key@, nonce@, p) == sealed@ ==> p == x@,
        r is None ==> forall|p: Seq<u8>|
            p.len() <= MAX_PLAINTEXT_LEN ==> #[trigger] aes_gcm_seal_of(key@, nonce@, p) != sealed@,
{
    let cipher = aes_gcm::Aes256Gcm::new(aes_gcm::Key::<aes_gcm::Aes256Gcm>::from_slice(key));
    cipher.decrypt(aes_gcm::Nonce::from_slice(nonce), sealed).ok()
}

/// Relies on `base64::engine::general_purpose::STANDARD.encode`: padded
/// output, four characters for each started group of three bytes.
#[verifier::external_body]
fn base64_encode(data: &[u8]) -> (r: String)
    ensures
        r@ == base64_of(data@),
        r@.len() == 4 * ((data@.len() + 2) / 3),
{
    base64::engine::general_purpose::STANDARD.encode(data)
}

/// Relies on `base64::engine::general_purpose::STANDARD.decode`, whose
/// configuration demands canonical padding and no trailing bits: it accepts
/// exactly the texts that `encode` produces, and inverts it.
#[verifier::external_body]
fn base64_decode(text: &str) -> (r: Option<Vec<u8>>)
    ensures
        r matches Some(x) ==> base64_of(x@) == text@ && forall|b: Seq<u8>|
            #[trigger] base64_of(b) == text@ ==> b == x@,
        r is None ==> forall|b: Seq<u8>| #[trigger] base64_of(b) != text@,
{
    base64::engine::general_purpose::STANDARD.decode(text).ok()
}

/// Relies on `rand::random`: a nonce drawn from the thread-local generator.
/// Nothing is known of its bytes but their number.
#[verifier::external_body]
fn fresh_nonce() -> (r: Vec<u8>)
    ensures
        r@.len() == NONCE_LEN,
{
    rand::random::<[u8; 12]>().to_vec()
}

/// A 256-bit secret that seals and opens the records of a session.
pub struct SessionKey {
    bytes: Vec<u8>,
}

impl View for SessionKey {
    type V = Seq<u8>;

    closed spec fn view(&self) -> Seq<u8> {
        self.bytes@
    }
}

impl SessionKey {
    /// The key's bytes.
    pub fn as_bytes(&self) -> (r: &[u8])
        ensures
            r@ == self@,
    {
        self.bytes.as_slice()
    }

    /// Overwrites every byte of the key with zero, so that the secret does not
    /// outlive the session in memory.
    pub fn wipe(&mut self)
        ensures
            final(self)@ == Seq::new(old(self)@.len(), |i: int| 0u8),
    {
        let n = self.bytes.len();
        let mut i: usize = 0;
        while i < n
            invariant
                self.bytes@.len() == n,
                i <= n,
                forall|j: int| 0 <= j < i ==> self.bytes@[j] == 0u8,
            decreases n - i,
        {
            self.bytes.set(i, 0);
            i += 1;
        }
        assert(self@ =~= Seq::new(n as nat, |i: int| 0u8));
    }
}

/// Derives the session key from a master password and the installation's salt:
/// the SHA-256 digest of the password's bytes followed by the salt's.
pub fn derive_key_from_password(password: &str, salt: &str) -> (r: SessionKey)
    ensures
        r@ == derived_key(password@, salt@),
        r@.len() == KEY_LEN,
{
    let mut material = utf8_bytes(password);
    let mut salt_bytes = utf8_bytes(salt);
    material.append(&mut salt_bytes);
    SessionKey { bytes: sha256(material.as_slice()) }
}

/// Seals `plaintext` under `key` with the given nonce, and returns the blob in
/// its stored text form; `None` when the plaintext is too long for the cipher.
pub fn seal_blob(key: &SessionKey, nonce: &[u8], plaintext: &str) -> (r: Option<String>)
    requires
        key@.len() == KEY_LEN,
        nonce@.len() == NONCE_LEN,
    ensures
        fits_cipher(plaintext@) ==> (r matches Some(b) && b@ == sealed_blob(key@, nonce@, plaintext@)
            && b@.len() == blob_text_len(utf8_of(plaintext@).len())),
        fits_cipher(plaintext@) ==> aes_gcm_seal_of(key@, nonce@, utf8_of(plaintext@)).len()
            == utf8_of(plaintext@).len() + TAG_LEN,
        !fits_cipher(plaintext@) ==> r is None,
{
    let pt = utf8_bytes(plaintext);
    if pt.len() as u64 > MAX_PLAINTEXT_LEN {
        return None;
    }
    let mut sealed = aes_gcm_seal(key.bytes.as_slice(), nonce, pt.as_slice());
    let mut blob = vstd::slice::slice_to_vec(nonce);
    blob.append(&mut sealed);
    Some(base64_encode(blob.as_slice()))
}

/// Seals `plaintext` under `key` with a fresh random nonce.
pub fn encrypt_blob(key: &SessionKey, plaintext: &str) -> (r: Option<String>)
    requires
        key@.len() == KEY_LEN,
    ensures
        fits_cipher(plaintext@) ==> (r matches Some(b) && blob_opens_to(key@, b@, plaintext@)
            && b@.len() == blob_text_len(utf8_of(plaintext@).len())),
        r matches Some(b) ==> b@.len() > plaintext@.len(),
        !fits_cipher(plaintext@) ==> r is None,
{
    let nonce = fresh_nonce();
    let r = seal_blob(key, nonce.as_slice(), plaintext);
    proof {
        lemma_utf8_len(plaintext@);
    }
    if let Some(b) = &r {
        assert(sealed_blob(key@, nonce@, plaintext@) == b@);
    }
    r
}

/// The nonce with which a blob that opens to `q` was sealed.
proof fn lemma_opening_witness(key: Seq<u8>, blob: Seq<char>, q: Seq<char>) -> (n: Seq<u8>)
    requires
        blob_opens_to(key, blob, q),
    ensures
        n.len() == NONCE_LEN,
        sealed_blob(key, n, q) == blob,
        base64_of(n + aes_gcm_seal_of(key, n, utf8_of(q))) == blob,
        aes_gcm_seal_of(key, n, utf8_of(q)).len() == utf8_of(q).len() + TAG_LEN,
{
    choose|n: Seq<u8>|
        n.len() == NONCE_LEN && #[trigger] sealed_blob(key, n, q) == blob
            && aes_gcm_seal_of(key, n, utf8_of(q)).len() == utf8_of(q).len() + TAG_LEN
}

/// Opens a stored blob under `key`. It returns the one plaintext that the
/// blob is an authentic sealing of, and `None` when there is none: a blob that
/// is not base64, too short to hold a nonce, sealed under another key, or
/// altered after sealing.
pub fn decrypt_blob(key: &SessionKey, blob: &str) -> (r: Option<String>)
    requires
        key@.len() == KEY_LEN,
    ensures
        r matches Some(p) ==> fits_cipher(p@),
        forall|b: Seq<u8>|
            #[trigger] base64_of(b) == blob@ && b.len() < NONCE_LEN + TAG_LEN ==> r is None,
        r matches Some(p) ==> blob_opens_to(key@, blob@, p@) && forall|q: Seq<char>|
            #[trigger] blob_opens_to(key@, blob@, q) ==> q == p@,
        r is None ==> forall|q: Seq<char>|
            fits_cipher(q) ==> !#[trigger] blob_opens_to(key@, blob@, q),
{
    let bytes = match base64_decode(blob) {
        Some(b) => b,
        None => {
            assert forall|q: Seq<char>| fits_cipher(q) implies !#[trigger] blob_opens_to(key@, blob@, q) by {
                if blob_opens_to(key@, blob@, q) {
                    let n = lemma_opening_witness(key@, blob@, q);
                }
            }
            return None;
        },
    };
    if bytes.len() < NONCE_LEN {
        assert forall|q: Seq<char>| fits_cipher(q) implies !#[trigger] blob_opens_to(key@, blob@, q) by {
            if blob_opens_to(key@, blob@, q) {
                let n = lemma_opening_witness(key@, blob@, q);
            }
        }
        return None;
    }
    let mut nonce: Vec<u8> = Vec::new();
    let mut i: usize = 0;
    while i < NONCE_LEN
        invariant
            i <= NONCE_LEN <= bytes@.len(),
            nonce@ == bytes@.subrange(0, i as int),
        decreases NONCE_LEN - i,
    {
        nonce.push(bytes[i]);
        i += 1;
    }
    let mut sealed: Vec<u8> = Vec::new();
    while i < bytes.len()
        invariant
            NONCE_LEN <= i <= bytes@.len(),
            nonce@ == bytes@.subrange(0, NONCE_LEN as int),
            sealed@ == bytes@.subrange(NONCE_LEN as int, i as int),
        decreases bytes.len() - i,
    {
        sealed.push(bytes[i]);
        i += 1;
    }
    assert(bytes@ =~= nonce@ + sealed@);
    proof {
        assert forall|q: Seq<char>, n: Seq<u8>|
            n.len() == NONCE_LEN && #[trigger] sealed_blob(key@, n, q) == blob@ implies n == nonce@
            && aes_gcm_seal_of(key@, n, utf8_of(q)) == sealed@ by {
            let whole = n + aes_gcm_seal_of(key@, n, utf8_of(q));
            assert(base64_of(whole) == blob@);
            assert(whole == bytes@);
            assert(n =~= whole.subrange(0, NONCE_LEN as int));
            assert(aes_gcm_seal_of(key@, n, utf8_of(q)) =~= whole.subrange(NONCE_LEN as int, whole.len() as int));
        }
    }
    if sealed.len() as u64 > MAX_PLAINTEXT_LEN + TAG_LEN as u64 {
        assert forall|q: Seq<char>| fits_cipher(q) implies !#[trigger] blob_opens_to(key@, blob@, q) by {
            if blob_opens_to(key@, blob@, q) {
                let n = lemma_opening_witness(key@, blob@, q);
            }
        }
        return None;
    }
    let opened = aes_gcm_open(key.bytes.as_slice(), nonce.as_slice(), sealed.as_slice());
    let plain = match opened {
        Some(p) => p,
        None => {
            assert forall|q: Seq<char>| fits_cipher(q) implies !#[trigger] blob_opens_to(key@, blob@, q) by {
                if blob_opens_to(key@, blob@, q) {
                    let n = lemma_opening_witness(key@, blob@, q);
                }
            }
            return None;
        },
    };
    let ghost plain_bytes = plain@;
    let r = utf8_string(plain);
    proof {
        assert forall|q: Seq<char>| #[trigger] blob_opens_to(key@, blob@, q) implies utf8_of(q) == plain_bytes by {
            let n = lemma_opening_witness(key@, blob@, q);
        }
        if let Some(s) = &r {
            assert(sealed_blob(key@, nonce@, s@) == blob@);
        }
    }
    r
}

/// Relies on `argon2::password_hash::SaltString::generate` with the operating
/// system's generator: a fresh random salt in base64 text.
#[verifier::external_body]
pub(crate) fn fresh_salt() -> (r: String)
    ensures
        is_generated_salt(r@),
{
    argon2::password_hash::SaltString::generate(&mut argon2::password_hash::rand_core::OsRng)
        .as_str()
        .to_string()
}

/// Relies on `argon2::Argon2::default().hash_password`, after reading the salt
/// with `Salt::from_b64`: the PHC string of the hash, or `None` when either
/// refuses its input. They accept a salt that is the B64 text of 16 bytes
/// (length and alphabet checked by `from_b64`, decoding by `hash_password`)
/// and a password within Argon2's `MAX_PWD_LEN`.
#[verifier::external_body]
pub(crate) fn argon2_phc(password: &[u8], salt: &str) -> (r: Option<String>)
    ensures
        r matches Some(h) ==> h@ == argon2_phc_of(password@, salt@),
        r is None ==> password@.len() > MAX_PASSWORD_LEN || forall|b: Seq<u8>|
            b.len() == 16 ==> #[trigger] phc_b64_of(b) != salt@,
{
    let salt = argon2::password_hash::Salt::from_b64(salt).ok()?;
    argon2::Argon2::default().hash_password(password, salt).ok().map(|h| h.to_string())
}

/// Relies on `argon2::password_hash::PasswordHash::new`, which parses a PHC
/// string (`None` when it is malformed, as no output of `hash_password` is), and
/// on `argon2::Argon2::default().verify_password`, which recomputes the hash
/// with the parameters and salt that the string records, so it accepts the
/// password that produced the string. Both facts are stated only of strings
/// that `hash_password` makes: a password within `MAX_PWD_LEN` and a salt that
/// is the B64 text of 16 bytes.
#[verifier::external_body]
pub(crate) fn argon2_verify(password: &[u8], phc: &str) -> (r: Option<bool>)
    ensures
        r matches Some(b) ==> b == argon2_accepts(password@, phc@),
        r is None ==> forall|p: Seq<u8>, b: Seq<u8>|
            p.len() <= MAX_PASSWORD_LEN && b.len() == 16 ==> #[trigger] argon2_phc_of(p, phc_b64_of(b))
                != phc@,
        r != Some(true) ==> forall|b: Seq<u8>|
            password@.len() <= MAX_PASSWORD_LEN && b.len() == 16 ==> #[trigger] argon2_phc_of(
                password@,
                phc_b64_of(b),
            ) != phc@,
{
    let parsed = argon2::password_hash::PasswordHash::new(phc).ok()?;
    Some(argon2::Argon2::default().verify_password(password, &parsed).is_ok())
}

/// Sealing then opening gives the plaintext back: a blob that `seal_blob` or
/// `encrypt_blob` produced under a key opens, under that key, to the plaintext
/// sealed, which `decrypt_blob` then returns. (The length of the sealed part is
/// what `seal_blob` ensures of every plaintext it seals.)
pub proof fn lemma_round_trip(key: Seq<u8>, nonce: Seq<u8>, plaintext: Seq<char>)
    requires
        nonce.len() == NONCE_LEN,
        aes_gcm_seal_of(key, nonce, utf8_of(plaintext)).len() == utf8_of(plaintext).len() + TAG_LEN,
    ensures
        blob_opens_to(key, sealed_blob(key, nonce, plaintext), plaintext),
{
    assert(sealed_blob(key, nonce, plaintext) == sealed_blob(key, nonce, plaintext));
}

/// Key derivation is a function of the password and salt alone: equal inputs
/// give equal keys, in any session.
pub proof fn lemma_derivation_deterministic(
    password1: Seq<char>,
    salt1: Seq<char>,
    password2: Seq<char>,
    salt2: Seq<char>,
)
    requires
        password1 == password2,
        salt1 == salt2,
    ensures
        derived_key(password1, salt1) == derived_key(password2, salt2),
{
}

} // verus!
