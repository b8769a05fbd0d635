//! XChaCha20-Poly1305 tokens for login values, and the random identifiers and
//! keys that go with them.
//!
//! A token is `base64(nonce):base64(ciphertext)`. Values kept at rest carry
//! the `enc:v1:` marker in front of the token, so a value in clear written by
//! an older build stays readable.
use base64::engine::general_purpose::STANDARD as BASE64;
use argon2::{Algorithm, Argon2, Params, Version};
use base64::Engine as _;
use chacha20poly1305::aead::{Aead, KeyInit, Payload};
use chacha20poly1305::{Key, XChaCha20Poly1305, XNonce};
use vstd::prelude::*;
use vstd::string::*;
use vstd::utf8::*;

use crate::error::NarouError;
use crate::hashing::{hex_encode, hex_text};
use crate::text::{is_white_space, push_char, string_of_range, to_chars, trim, trim_seq, drop_start, drop_end, TrimSet, is_prefix, starts_with};

verus! {

/// Length of a login key.
pub const KEY_LEN: usize = 32;

/// Length of the Argon2id salt of an encrypted envelope.
pub const SALT_LEN: usize = 16;

/// Length of the XChaCha20 nonce.
pub const NONCE_LEN: usize = 24;

/// Marker of a value encrypted at rest.
pub const AT_REST_PREFIX: &'static str = "enc:v1:";

/// Label of the associated data of an encrypted export.
pub const ENVELOPE_AAD: &'static str = "narou.rs/login-export";

/// Label of the associated data of values encrypted at rest.
pub const AT_REST_AAD: &'static str = "narou.rs/login-cookie";

#[verifier::external_type_specification]
#[verifier::external_body]
pub struct ExRandomError(getrandom::Error);

#[verifier::external_type_specification]
#[verifier::external_body]
pub struct ExAeadError(chacha20poly1305::aead::Error);

#[verifier::external_type_specification]
#[verifier::external_body]
pub struct ExArgon2Error(argon2::Error);

pub(crate) fn login_error(message: String) -> (e: NarouError)
    ensures
        e == NarouError::Login(message),
{
    NarouError::Login(message)
}

/// Fills `bytes` from the operating system's random source:
/// `getrandom::fill`. Nothing is claimed of the bytes it writes.
#[verifier::external_body]
fn fill_random<const N: usize>(bytes: &mut [u8; N]) -> (r: Result<(), getrandom::Error>) {
    getrandom::fill(bytes)
}

/// The message of a random-source error (its `Display`).
#[verifier::external_body]
fn random_error_text(error: &getrandom::Error) -> (r: String) {
    error.to_string()
}

/// `N` bytes from the operating system's random source.
pub fn random_bytes<const N: usize>() -> (r: Result<[u8; N], NarouError>)
    ensures
        r matches Err(e) ==> e is Login,
{
    let mut bytes = [0u8; N];
    match fill_random(&mut bytes) {
        Ok(()) => Ok(bytes),
        Err(error) => {
            let mut message = "random source unavailable: ".to_owned();
            message.append(random_error_text(&error).as_str());
            Err(login_error(message))
        },
    }
}

/// A fresh login key.
pub fn random_key() -> (r: Result<[u8; KEY_LEN], NarouError>)
    ensures
        r matches Err(e) ==> e is Login,
{
    random_bytes()
}

/// The bytes of a version 4 UUID made of `b`: the high nibble of byte 6 set
/// to the version (4) and the two high bits of byte 8 to the variant (`10`).
pub open spec fn uuid_v4_bytes(b: Seq<u8>) -> Seq<u8> {
    b.update(6, (b[6] % 16 + 64) as u8).update(8, (b[8] % 64 + 128) as u8)
}

/// Lower-case hex of 16 bytes in the 8-4-4-4-12 layout of a UUID.
pub open spec fn uuid_text(b: Seq<u8>) -> Seq<char> {
    hex_text(b.subrange(0, 4)) + seq!['-'] + hex_text(b.subrange(4, 6)) + seq!['-'] + hex_text(
        b.subrange(6, 8),
    ) + seq!['-'] + hex_text(b.subrange(8, 10)) + seq!['-'] + hex_text(b.subrange(10, 16))
}

fn hex_of_range(bytes: &Vec<u8>, lo: usize, hi: usize) -> (r: String)
    requires
        lo <= hi <= bytes@.len(),
    ensures
        r@ == hex_text(bytes@.subrange(lo as int, hi as int)),
{
    let mut part: Vec<u8> = Vec::new();
    let mut i: usize = lo;
    while i < hi
        invariant
            lo <= i <= hi <= bytes@.len(),
            part@ == bytes@.subrange(lo as int, i as int),
        decreases hi - i,
    {
        part.push(bytes[i]);
        i = i + 1;
        assert(part@ =~= bytes@.subrange(lo as int, i as int));
    }
    hex_encode(part.as_slice())
}

/// The credential identifier made of 16 random bytes: a version 4 UUID in
/// lower-case hex.
pub fn credential_id_from_bytes(bytes: &[u8; 16]) -> (r: String)
    ensures
        r@ == uuid_text(uuid_v4_bytes(bytes@)),
{
    let mut v: Vec<u8> = Vec::new();
    let mut i: usize = 0;
    while i < 16
        invariant
            i <= 16,
            bytes@.len() == 16,
            v@ == bytes@.subrange(0, i as int),
        decreases 16 - i,
    {
        v.push(bytes[i]);
        i = i + 1;
        assert(v@ =~= bytes@.subrange(0, i as int));
    }
    assert(v@ =~= bytes@);
    let b6 = v[6];
    let b8 = v[8];
    assert((b6 & 0x0f) | 0x40 == b6 % 16 + 64) by (bit_vector);
    assert((b8 & 0x3f) | 0x80 == b8 % 64 + 128) by (bit_vector);
    v.set(6, (b6 & 0x0f) | 0x40);
    v.set(8, (b8 & 0x3f) | 0x80);
    assert(v@ =~= uuid_v4_bytes(bytes@));
    let mut out = hex_of_range(&v, 0, 4);
    push_char(&mut out, '-');
    out.append(hex_of_range(&v, 4, 6).as_str());
    push_char(&mut out, '-');
    out.append(hex_of_range(&v, 6, 8).as_str());
    push_char(&mut out, '-');
    out.append(hex_of_range(&v, 8, 10).as_str());
    push_char(&mut out, '-');
    out.append(hex_of_range(&v, 10, 16).as_str());
    out
}

/// A fresh identifier for one stored login credential: a random version 4
/// UUID in lower-case hex.
pub fn new_credential_id() -> (r: Result<String, NarouError>)
    ensures
        match r {
            Ok(id) => exists|b: Seq<u8>| b.len() == 16 && id@ == uuid_text(uuid_v4_bytes(b)),
            Err(e) => e is Login,
        },
{
    let bytes: [u8; 16] = random_bytes()?;
    let id = credential_id_from_bytes(&bytes);
    proof {
        assert(bytes@.len() == 16);
    }
    Ok(id)
}

/// What `base64::engine::general_purpose::STANDARD.encode` writes for
/// `bytes`.
pub uninterp spec fn base64_standard(bytes: Seq<u8>) -> Seq<char>;

/// What `base64::engine::general_purpose::STANDARD.decode` reads from `text`
/// (`None` where it fails).
pub uninterp spec fn base64_decoded(text: Seq<char>) -> Option<Seq<u8>>;

/// The XChaCha20-Poly1305 ciphertext, tag included, of `msg` under `key`,
/// `nonce` and the associated data `aad`.
pub uninterp spec fn xchacha_seal(key: Seq<u8>, nonce: Seq<u8>, aad: Seq<u8>, msg: Seq<u8>) -> Seq<u8>;

/// What XChaCha20-Poly1305 decryption of `ciphertext` under `key`, `nonce`
/// and `aad` gives back (`None` where authentication fails).
pub uninterp spec fn xchacha_open(key: Seq<u8>, nonce: Seq<u8>, aad: Seq<u8>, ciphertext: Seq<u8>) -> Option<Seq<u8>>;

/// The key that Argon2id (19 MiB, t=2, p=1, version 0x13) derives from
/// `password` and `salt`.
pub uninterp spec fn argon2id_key(password: Seq<u8>, salt: Seq<u8>) -> Seq<u8>;

/// The characters of the standard base64 alphabet, padding included.
pub open spec fn is_base64_char(c: char) -> bool {
    ('A' <= c && c <= 'Z') || ('a' <= c && c <= 'z') || ('0' <= c && c <= '9') || c == '+' || c
        == '/' || c == '='
}

pub open spec fn is_base64_text(s: Seq<char>) -> bool {
    forall|i: int| 0 <= i < s.len() ==> is_base64_char(#[trigger] s[i])
}

/// The length of the padded base64 text of `n` bytes.
pub open spec fn base64_len(n: int) -> int {
    4 * ((n + 2) / 3)
}

/// Standard base64 with padding: `STANDARD.encode`. Its text uses the
/// standard alphabet, has four characters per started group of three bytes,
/// and decodes back to `bytes`.
#[verifier::external_body]
pub(crate) fn base64_encode(bytes: &[u8]) -> (r: String)
    requires
        base64_len(bytes@.len() as int) <= usize::MAX,
    ensures
        r@ == base64_standard(bytes@),
        r@.len() == base64_len(bytes@.len() as int),
        is_base64_text(r@),
        base64_decoded(r@) == Some(bytes@),
{
    BASE64.encode(bytes)
}

/// The message of the error that `STANDARD.decode` gives for `text` (its
/// `Display`).
pub uninterp spec fn base64_error_message(text: Seq<char>) -> Seq<char>;

/// Standard base64 decoding with canonical padding: `STANDARD.decode`; a
/// failure is given by its message.
#[verifier::external_body]
pub(crate) fn base64_decode(text: &str) -> (r: Result<Vec<u8>, String>)
    ensures
        match r {
            Ok(v) => base64_decoded(text@) == Some(v@),
            Err(m) => base64_decoded(text@) is None && m@ == base64_error_message(text@),
        },
{
    match BASE64.decode(text) {
        Ok(v) => Ok(v),
        Err(e) => Err(e.to_string()),
    }
}

/// XChaCha20-Poly1305 encryption: `Aead::encrypt` of `XChaCha20Poly1305`.
/// It refuses a message of `u32::MAX` blocks of 64 bytes or more; what it
/// returns decrypts back to `msg`.
#[verifier::external_body]
fn xchacha_encrypt(key: &[u8; KEY_LEN], nonce: &[u8; NONCE_LEN], aad: &[u8], msg: &[u8]) -> (r:
    Result<Vec<u8>, chacha20poly1305::aead::Error>)
    ensures
        r is Ok <==> msg@.len() / 64 < u32::MAX,
        r matches Ok(c) ==> c@.len() == msg@.len() + 16,
        r matches Ok(c) ==> c@ == xchacha_seal(key@, nonce@, aad@, msg@) && xchacha_open(
            key@,
            nonce@,
            aad@,
            c@,
        ) == Some(msg@),
{
    XChaCha20Poly1305::new(&Key::from(*key)).encrypt(&XNonce::from(*nonce), Payload { msg, aad })
}

/// XChaCha20-Poly1305 decryption: `Aead::decrypt` of `XChaCha20Poly1305`.
#[verifier::external_body]
fn xchacha_decrypt(key: &[u8; KEY_LEN], nonce: &[u8; NONCE_LEN], aad: &[u8], ciphertext: &[u8]) -> (r:
    Result<Vec<u8>, chacha20poly1305::aead::Error>)
    ensures
        match r {
            Ok(p) => xchacha_open(key@, nonce@, aad@, ciphertext@) == Some(p@),
            Err(_) => xchacha_open(key@, nonce@, aad@, ciphertext@) is None,
        },
{
    XChaCha20Poly1305::new(&Key::from(*key)).decrypt(
        &XNonce::from(*nonce),
        Payload { msg: ciphertext, aad },
    )
}

/// The message of the error that `String::from_utf8` gives for `bytes` (its
/// `Display`).
pub uninterp spec fn utf8_error_message(bytes: Seq<u8>) -> Seq<char>;

/// `String::from_utf8`: the text whose UTF-8 encoding is `bytes`, or, where
/// `bytes` is not UTF-8, the message of its error.
#[verifier::external_body]
fn utf8_string(bytes: Vec<u8>) -> (r: Result<String, String>)
    ensures
        r is Ok <==> valid_utf8(bytes@),
        r matches Ok(s) ==> encode_utf8(s@) == bytes@,
        r matches Err(m) ==> m@ == utf8_error_message(bytes@),
{
    match String::from_utf8(bytes) {
        Ok(s) => Ok(s),
        Err(e) => Err(e.to_string()),
    }
}

/// Argon2id (19 MiB, t=2, p=1, version 0x13) of `password` and `salt` into
/// `out`: `Argon2::hash_password_into`. It refuses a password longer than
/// `0xFFFF_FFFF` bytes and a salt shorter than 8 or longer than `0xFFFF_FFFF`
/// bytes.
#[verifier::external_body]
fn argon2id_hash_into(password: &[u8], salt: &[u8], out: &mut [u8; KEY_LEN]) -> (r: Result<
    (),
    argon2::Error,
>)
    ensures
        r is Ok <==> (password@.len() <= 0xFFFF_FFFF && 8 <= salt@.len() <= 0xFFFF_FFFF),
        r is Ok ==> final(out)@ == argon2id_key(password@, salt@),
{
    Argon2::new(Algorithm::Argon2id, Version::V0x13, Params::DEFAULT).hash_password_into(
        password,
        salt,
        out,
    )
}

/// The message of an Argon2 error (its `Display`).
#[verifier::external_body]
fn argon2_error_text(error: &argon2::Error) -> (r: String) {
    error.to_string()
}

/// Derives a key from a passphrase with Argon2id (19 MiB, t=2, p=1).
pub fn derive_key(passphrase: &str, salt: &[u8]) -> (r: Result<[u8; KEY_LEN], NarouError>)
    ensures
        r is Ok <==> (encode_utf8(passphrase@).len() <= 0xFFFF_FFFF && 8 <= salt@.len()
            <= 0xFFFF_FFFF),
        r matches Ok(k) ==> k@ == argon2id_key(encode_utf8(passphrase@), salt@),
        r matches Err(e) ==> e is Login,
{
    let mut key = [0u8; KEY_LEN];
    match argon2id_hash_into(passphrase.as_bytes(), salt, &mut key) {
        Ok(()) => Ok(key),
        Err(error) => {
            let mut message = "key derivation failed: ".to_owned();
            message.append(argon2_error_text(&error).as_str());
            Err(login_error(message))
        },
    }
}

/// `s` cut around its first `c`: what `str::split_once` with a `char`
/// returns.
pub open spec fn split_once_char(s: Seq<char>, c: char) -> Option<(Seq<char>, Seq<char>)> {
    if s.contains(c) {
        let i = choose|i: int|
            0 <= i < s.len() && s[i] == c && forall|j: int| 0 <= j < i ==> s[j] != c;
        Some((s.take(i), s.skip(i + 1)))
    } else {
        None
    }
}

proof fn lemma_split_once_at(s: Seq<char>, c: char, i: int)
    requires
        0 <= i < s.len(),
        s[i] == c,
        forall|j: int| 0 <= j < i ==> s[j] != c,
    ensures
        split_once_char(s, c) == Some((s.take(i), s.skip(i + 1))),
{
    assert(s.contains(c));
    let w = choose|w: int| 0 <= w < s.len() && s[w] == c && forall|j: int| 0 <= j < w ==> s[j] != c;
    assert(0 <= w < s.len() && s[w] == c && forall|j: int| 0 <= j < w ==> s[j] != c);
    if w < i {
        assert(s[w] != c);
    } else if w > i {
        assert(s[i] != c);
    }
}

/// The position of the first `c` in `v`.
fn first_char_index(v: &Vec<char>, c: char) -> (r: Option<usize>)
    ensures
        match r {
            Some(i) => i < v@.len() && v@[i as int] == c && forall|j: int|
                0 <= j < i ==> v@[j] != c,
            None => !v@.contains(c),
        },
{
    let mut i: usize = 0;
    while i < v.len()
        invariant
            i <= v@.len(),
            forall|j: int| 0 <= j < i ==> v@[j] != c,
        decreases v@.len() - i,
    {
        if v[i] == c {
            return Some(i);
        }
        i = i + 1;
    }
    None
}

/// The token of a sealed message: `base64(nonce):base64(ciphertext)`.
pub open spec fn token_text(nonce: Seq<u8>, ciphertext: Seq<u8>) -> Seq<char> {
    base64_standard(nonce) + seq![':'] + base64_standard(ciphertext)
}

/// `token` seals the UTF-8 bytes of `plaintext` under `key`, `nonce` and the
/// UTF-8 bytes of `aad`, with what the base64 and AEAD layers promise of the
/// parts of such a token.
pub open spec fn sealed_token(
    key: Seq<u8>,
    nonce: Seq<u8>,
    aad: Seq<char>,
    plaintext: Seq<char>,
    token: Seq<char>,
) -> bool {
    let msg = encode_utf8(plaintext);
    let ad = encode_utf8(aad);
    let ct = xchacha_seal(key, nonce, ad, msg);
    &&& nonce.len() == NONCE_LEN
    &&& token == token_text(nonce, ct)
    &&& is_base64_text(base64_standard(nonce))
    &&& is_base64_text(base64_standard(ct))
    &&& base64_decoded(base64_standard(nonce)) == Some(nonce)
    &&& base64_decoded(base64_standard(ct)) == Some(ct)
    &&& xchacha_open(key, nonce, ad, ct) == Some(msg)
}

/// The bytes that `text`, trimmed, decodes to from base64, where they are
/// exactly `n` bytes.
pub open spec fn decoded_exact(text: Seq<char>, n: nat) -> Option<Seq<u8>> {
    match base64_decoded(trim_seq(text)) {
        Some(b) => if b.len() == n {
            Some(b)
        } else {
            None
        },
        None => None,
    }
}

/// The message of [`decode_exact`]'s failure for `text`: the decoder's,
/// or a wrong length.
pub open spec fn decode_exact_error(text: Seq<char>, n: nat, what: Seq<char>) -> Seq<char> {
    match base64_decoded(trim_seq(text)) {
        None => "malformed "@ + what + ": "@ + base64_error_message(trim_seq(text)),
        Some(_) => what + " has the wrong length"@,
    }
}

/// The message of the failure to open `token` under `key` and `aad`, at
/// the first step that fails.
pub open spec fn token_error(key: Seq<u8>, aad: Seq<char>, token: Seq<char>) -> Seq<char> {
    match split_once_char(token, ':') {
        None => "malformed ciphertext: expected nonce:payload"@,
        Some((nonce_text, body_text)) => match decoded_exact(nonce_text, NONCE_LEN as nat) {
            None => decode_exact_error(nonce_text, NONCE_LEN as nat, "nonce"@),
            Some(nonce) => match base64_decoded(trim_seq(body_text)) {
                None => "malformed ciphertext payload: "@ + base64_error_message(trim_seq(body_text)),
                Some(ct) => match xchacha_open(key, nonce, encode_utf8(aad), ct) {
                    None => "decryption failed: wrong key or damaged data"@,
                    Some(msg) => "decrypted value is not text: "@ + utf8_error_message(msg),
                },
            },
        },
    }
}

/// What a token opens to under `key` and `aad`: its nonce and ciphertext
/// decoded, the ciphertext authenticated and decrypted, and the result read
/// as UTF-8 (`None` where any step fails).
pub open spec fn token_plaintext(key: Seq<u8>, aad: Seq<char>, token: Seq<char>) -> Option<
    Seq<char>,
> {
    match split_once_char(token, ':') {
        None => None,
        Some((nonce_text, body_text)) => match (
            decoded_exact(nonce_text, NONCE_LEN as nat),
            base64_decoded(trim_seq(body_text)),
        ) {
            (Some(nonce), Some(ct)) => match xchacha_open(key, nonce, encode_utf8(aad), ct) {
                Some(msg) => if valid_utf8(msg) {
                    Some(decode_utf8(msg))
                } else {
                    None
                },
                None => None,
            },
            _ => None,
        },
    }
}

/// Encrypts `plaintext` under `key` and `nonce`, binding `aad` into the
/// authentication tag. The token is `base64(nonce):base64(ciphertext)`.
pub fn seal_token(key: &[u8; KEY_LEN], nonce: &[u8; NONCE_LEN], aad: &str, plaintext: &str) -> (r:
    Result<String, NarouError>)
    requires
        base64_len(encode_utf8(plaintext@).len() + 16int) <= usize::MAX,
    ensures
        r is Ok <==> encode_utf8(plaintext@).len() / 64 < u32::MAX,
        r matches Ok(t) ==> sealed_token(key@, nonce@, aad@, plaintext@, t@),
        r matches Err(e) ==> e is Login,
{
    let ciphertext = match xchacha_encrypt(key, nonce, aad.as_bytes(), plaintext.as_bytes()) {
        Ok(c) => c,
        Err(_) => {
            return Err(login_error("encryption failed".to_owned()));
        },
    };
    let nonce_text = base64_encode(nonce.as_slice());
    let body_text = base64_encode(ciphertext.as_slice());
    let ghost nonce_view = nonce_text@;
    let mut token = nonce_text;
    push_char(&mut token, ':');
    token.append(body_text.as_str());
    assert(token@ =~= nonce_view + seq![':'] + body_text@);
    Ok(token)
}

/// Encrypts `plaintext` under `key` and a fresh random nonce, binding `aad`
/// into the authentication tag. The result is
/// `base64(nonce):base64(ciphertext)`.
pub fn encrypt_with_key(key: &[u8; KEY_LEN], aad: &str, plaintext: &str) -> (r: Result<
    String,
    NarouError,
>)
    requires
        base64_len(encode_utf8(plaintext@).len() + 16int) <= usize::MAX,
    ensures
        r matches Ok(t) ==> exists|nonce: Seq<u8>| sealed_token(key@, nonce, aad@, plaintext@, t@),
        r matches Err(e) ==> e is Login,
        encode_utf8(plaintext@).len() / 64 >= u32::MAX ==> r is Err,
{
    let nonce: [u8; NONCE_LEN] = random_bytes()?;
    seal_token(key, &nonce, aad, plaintext)
}

fn copy_to_array<const N: usize>(v: &Vec<u8>) -> (a: [u8; N])
    requires
        v@.len() == N,
    ensures
        a@ == v@,
{
    let mut a = [0u8; N];
    let mut i: usize = 0;
    while i < N
        invariant
            i <= N,
            v@.len() == N,
            a@.len() == N,
            forall|j: int| 0 <= j < i ==> a@[j] == v@[j],
        decreases N - i,
    {
        a[i] = v[i];
        i = i + 1;
    }
    assert(a@ =~= v@);
    a
}

fn prefixed_error(prefix: &str, detail: &str) -> (e: NarouError)
    ensures
        e is Login,
        e.detail() == prefix@ + detail@,
{
    let mut message = prefix.to_owned();
    message.append(detail);
    login_error(message)
}

/// The `N` bytes that `encoded`, trimmed, decodes to from base64; `what`
/// names the value in the error.
fn decode_exact<const N: usize>(encoded: &str, what: &str) -> (r: Result<[u8; N], NarouError>)
    ensures
        match r {
            Ok(a) => decoded_exact(encoded@, N as nat) == Some(a@),
            Err(e) => decoded_exact(encoded@, N as nat) is None && e is Login && e.detail()
                == decode_exact_error(encoded@, N as nat, what@),
        },
{
    let trimmed = trim(encoded);
    let decoded = match base64_decode(trimmed.as_str()) {
        Ok(d) => d,
        Err(error) => {
            let mut prefix = "malformed ".to_owned();
            prefix.append(what);
            prefix.append(": ");
            return Err(prefixed_error(prefix.as_str(), error.as_str()));
        },
    };
    if decoded.len() != N {
        return Err(prefixed_error(what, " has the wrong length"));
    }
    Ok(copy_to_array(&decoded))
}

/// Parses a base64-encoded login key (the form of the `login.key` file).
pub fn parse_key_base64(text: &str) -> (r: Result<[u8; KEY_LEN], NarouError>)
    ensures
        match r {
            Ok(k) => decoded_exact(text@, KEY_LEN as nat) == Some(k@),
            Err(e) => decoded_exact(text@, KEY_LEN as nat) is None && e is Login,
        },
{
    let trimmed = trim(text);
    let decoded = match base64_decode(trimmed.as_str()) {
        Ok(d) => d,
        Err(error) => {
            return Err(prefixed_error("malformed login key: ", error.as_str()));
        },
    };
    if decoded.len() != KEY_LEN {
        return Err(login_error("login key must be 32 bytes".to_owned()));
    }
    Ok(copy_to_array(&decoded))
}

/// Reverses [`encrypt_with_key`]: a wrong key, a damaged token or another
/// `aad` all fail here.
pub fn decrypt_with_key(key: &[u8; KEY_LEN], aad: &str, token: &str) -> (r: Result<
    String,
    NarouError,
>)
    ensures
        match r {
            Ok(p) => token_plaintext(key@, aad@, token@) == Some(p@),
            Err(e) => token_plaintext(key@, aad@, token@) is None && e is Login && e.detail()
                == token_error(key@, aad@, token@),
        },
{
    let chars = to_chars(token);
    let i = match first_char_index(&chars, ':') {
        Some(i) => i,
        None => {
            return Err(login_error("malformed ciphertext: expected nonce:payload".to_owned()));
        },
    };
    proof {
        lemma_split_once_at(token@, ':', i as int);
        assert(token@.take(i as int) =~= chars@.subrange(0, i as int));
        assert(token@.skip(i + 1) =~= chars@.subrange(i + 1, chars@.len() as int));
    }
    let nonce_part = string_of_range(&chars, 0, i);
    let body_part = string_of_range(&chars, i + 1, chars.len());
    let nonce: [u8; NONCE_LEN] = match decode_exact(nonce_part.as_str(), "nonce") {
        Ok(n) => n,
        Err(e) => {
            return Err(e);
        },
    };
    let body_trimmed = trim(body_part.as_str());
    let body = match base64_decode(body_trimmed.as_str()) {
        Ok(b) => b,
        Err(error) => {
            return Err(
                prefixed_error("malformed ciphertext payload: ", error.as_str()),
            );
        },
    };
    let plain = match xchacha_decrypt(key, &nonce, aad.as_bytes(), body.as_slice()) {
        Ok(p) => p,
        Err(_) => {
            return Err(
                login_error("decryption failed: wrong key or damaged data".to_owned()),
            );
        },
    };
    let ghost plain_bytes = plain@;
    match utf8_string(plain) {
        Ok(text) => {
            proof {
                encode_utf8_decode_utf8(text@);
            }
            Ok(text)
        },
        Err(error) => Err(
            prefixed_error("decrypted value is not text: ", error.as_str()),
        ),
    }
}

pub(crate) proof fn lemma_trim_base64(s: Seq<char>)
    requires
        is_base64_text(s),
    ensures
        trim_seq(s) == s,
{
    if s.len() > 0 {
        assert(is_base64_char(s[0]));
        assert(is_base64_char(s[s.len() - 1]));
    }
}

/// Decrypting a token that sealed `plaintext`, with the same key and
/// associated data, gives `plaintext` back.
pub proof fn lemma_decrypt_inverts_encrypt(
    key: Seq<u8>,
    nonce: Seq<u8>,
    aad: Seq<char>,
    plaintext: Seq<char>,
    token: Seq<char>,
)
    requires
        sealed_token(key, nonce, aad, plaintext, token),
    ensures
        token_plaintext(key, aad, token) == Some(plaintext),
{
    let msg = encode_utf8(plaintext);
    let ct = xchacha_seal(key, nonce, encode_utf8(aad), msg);
    let n_text = base64_standard(nonce);
    let c_text = base64_standard(ct);
    let k = n_text.len() as int;
    assert(token[k] == ':');
    assert forall|j: int| 0 <= j < k implies token[j] != ':' by {
        assert(token[j] == n_text[j]);
        assert(is_base64_char(n_text[j]));
    }
    lemma_split_once_at(token, ':', k);
    assert(token.take(k) =~= n_text);
    assert(token.skip(k + 1) =~= c_text);
    lemma_trim_base64(n_text);
    lemma_trim_base64(c_text);
    encode_utf8_valid_utf8(plaintext);
    encode_utf8_decode_utf8(plaintext);
}

/// The associated data of one host's value at rest.
pub open spec fn at_rest_aad_text(host: Seq<char>) -> Seq<char> {
    AT_REST_AAD@ + seq![':'] + host
}

fn at_rest_aad(host: &str) -> (r: String)
    ensures
        r@ == at_rest_aad_text(host@),
{
    let mut label = AT_REST_AAD.to_owned();
    push_char(&mut label, ':');
    label.append(host);
    label
}

/// Whether a stored value is encrypted at rest (starts with the marker).
pub fn is_encrypted_at_rest(value: &str) -> (b: bool)
    ensures
        b == is_prefix(AT_REST_PREFIX@, value@),
{
    starts_with(value, AT_REST_PREFIX)
}

/// `value` is the marker followed by a token that seals `cookie` for `host`
/// under `key`.
pub open spec fn sealed_at_rest(key: Seq<u8>, host: Seq<char>, cookie: Seq<char>, value: Seq<char>) -> bool {
    &&& is_prefix(AT_REST_PREFIX@, value)
    &&& exists|nonce: Seq<u8>|
        sealed_token(key, nonce, at_rest_aad_text(host), cookie, value.skip(AT_REST_PREFIX@.len() as int))
}

/// The message of the failure to read a stored value with `key` for `host`.
pub open spec fn at_rest_error(key: Seq<u8>, host: Seq<char>, value: Seq<char>) -> Seq<char> {
    token_error(key, at_rest_aad_text(host), value.skip(AT_REST_PREFIX@.len() as int))
}

/// What an encrypted stored value opens to under `key` for `host`.
pub open spec fn at_rest_plaintext(key: Seq<u8>, host: Seq<char>, value: Seq<char>) -> Option<
    Seq<char>,
> {
    token_plaintext(key, at_rest_aad_text(host), value.skip(AT_REST_PREFIX@.len() as int))
}

/// Encrypts one host's cookie header for storage in the inventory.
pub fn encrypt_at_rest(key: &[u8; KEY_LEN], host: &str, cookie: &str) -> (r: Result<
    String,
    NarouError,
>)
    requires
        base64_len(encode_utf8(cookie@).len() + 16int) <= usize::MAX,
    ensures
        r matches Ok(v) ==> sealed_at_rest(key@, host@, cookie@, v@),
        r matches Err(e) ==> e is Login,
        encode_utf8(cookie@).len() / 64 >= u32::MAX ==> r is Err,
{
    let aad = at_rest_aad(host);
    let token = encrypt_with_key(key, aad.as_str(), cookie)?;
    let mut value = AT_REST_PREFIX.to_owned();
    value.append(token.as_str());
    proof {
        let n = AT_REST_PREFIX@.len() as int;
        assert(value@.skip(n) =~= token@);
        assert(value@.subrange(0, n) =~= AT_REST_PREFIX@);
    }
    Ok(value)
}

/// Decrypts one host's stored value: `None` for a value in clear written by
/// an older build, which the caller keeps using.
pub fn decrypt_at_rest(key: &[u8; KEY_LEN], host: &str, value: &str) -> (r: Result<
    Option<String>,
    NarouError,
>)
    ensures
        !is_prefix(AT_REST_PREFIX@, value@) ==> r matches Ok(None),
        is_prefix(AT_REST_PREFIX@, value@) ==> match r {
            Ok(Some(p)) => at_rest_plaintext(key@, host@, value@) == Some(p@),
            Ok(None) => false,
            Err(e) => at_rest_plaintext(key@, host@, value@) is None && e is Login && e.detail()
                == at_rest_error(key@, host@, value@),
        },
{
    if !is_encrypted_at_rest(value) {
        return Ok(None);
    }
    let chars = to_chars(value);
    let start = AT_REST_PREFIX.unicode_len();
    let token = string_of_range(&chars, start, chars.len());
    assert(token@ =~= value@.skip(start as int));
    let aad = at_rest_aad(host);
    match decrypt_with_key(key, aad.as_str(), token.as_str()) {
        Ok(p) => Ok(Some(p)),
        Err(e) => Err(e),
    }
}

/// A value that [`encrypt_at_rest`] wrote reads as encrypted, and decrypting
/// it with the same key and host gives the cookie back.
pub proof fn lemma_at_rest_round_trip(
    key: Seq<u8>,
    host: Seq<char>,
    cookie: Seq<char>,
    value: Seq<char>,
)
    requires
        sealed_at_rest(key, host, cookie, value),
    ensures
        is_prefix(AT_REST_PREFIX@, value),
        at_rest_plaintext(key, host, value) == Some(cookie),
{
    let token = value.skip(AT_REST_PREFIX@.len() as int);
    let nonce = choose|nonce: Seq<u8>|
        sealed_token(key, nonce, at_rest_aad_text(host), cookie, token);
    lemma_decrypt_inverts_encrypt(key, nonce, at_rest_aad_text(host), cookie, token);
}

/// The error for an encrypted value with no key to open it.
pub open spec fn missing_key_message(host: Seq<char>) -> Seq<char> {
    "stored credentials for "@ + host + " are encrypted but no login key is configured"@
}

/// Decrypts a stored value with an optional key: a value in clear gives
/// `None`, and an encrypted value without a key is an error rather than a
/// silent "no credentials".
pub fn decrypt_stored_value(key: Option<&[u8; KEY_LEN]>, host: &str, value: &str) -> (r: Result<
    Option<String>,
    NarouError,
>)
    ensures
        !is_prefix(AT_REST_PREFIX@, value@) ==> r matches Ok(None),
        is_prefix(AT_REST_PREFIX@, value@) && key is None ==> (r matches Err(e) && e is Login
            && e.detail() == missing_key_message(host@)),
        is_prefix(AT_REST_PREFIX@, value@) && key is Some ==> match r {
            Ok(Some(p)) => at_rest_plaintext(key->0@, host@, value@) == Some(p@),
            Ok(None) => false,
            Err(e) => at_rest_plaintext(key->0@, host@, value@) is None && e is Login && e.detail()
                == at_rest_error(key->0@, host@, value@),
        },
{
    if !is_encrypted_at_rest(value) {
        return Ok(None);
    }
    match key {
        Some(k) => decrypt_at_rest(k, host, value),
        None => {
            let mut message = "stored credentials for ".to_owned();
            message.append(host);
            message.append(" are encrypted but no login key is configured");
            Err(login_error(message))
        },
    }
}

} // verus!
