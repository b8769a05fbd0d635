//! Portable login export.
//!
//! An export carries the cookies of one or more hosts from the machine with
//! the browser to the machine that downloads. With a passphrase the payload
//! is encrypted (Argon2id, then XChaCha20-Poly1305); without one the
//! credentials are written in clear and the envelope says so, so an import
//! never trusts a file whose secrecy was only assumed.
//!
//! The envelope is framed and opened here; turning it into YAML and the
//! credential list into JSON is left to the caller.
use vstd::prelude::*;
use vstd::utf8::*;

use crate::error::NarouError;
use crate::login::crypto::{
    argon2id_key, base64_decode, base64_decoded, base64_encode, base64_len, base64_standard,
    derive_key, decrypt_with_key, encrypt_with_key, is_base64_text,
    lemma_decrypt_inverts_encrypt, lemma_trim_base64, login_error, random_bytes, sealed_token,
    token_plaintext, ENVELOPE_AAD, SALT_LEN,
};
use crate::text::{chars_eq, decimal_string, trim, trim_seq};

verus! {

/// Envelope format version written by this build.
pub const EXPORT_VERSION: u32 = 2;

/// Version written before a host could hold several credentials.
pub const EXPORT_VERSION_LEGACY: u32 = 1;

/// `kdf` value written for encrypted envelopes.
pub const KDF_ARGON2ID: &'static str = "argon2id";

/// One login: the cookie header value to send to `host`.
#[derive(Debug, Clone, PartialEq, Eq)]
pub struct LoginCredential {
    pub host: String,
    pub cookie: String,
}

impl LoginCredential {
    pub fn new(host: &str, cookie: &str) -> (r: Self)
        ensures
            r.host@ == host@,
            r.cookie@ == cookie@,
    {
        LoginCredential { host: host.to_owned(), cookie: cookie.to_owned() }
    }
}

/// The texts of a credential list.
pub open spec fn credential_views(cs: Seq<LoginCredential>) -> Seq<(Seq<char>, Seq<char>)> {
    cs.map_values(|c: LoginCredential| (c.host@, c.cookie@))
}

/// The texts of a `host → cookie` list.
pub open spec fn pair_views(ps: Seq<(String, String)>) -> Seq<(Seq<char>, Seq<char>)> {
    ps.map_values(|p: (String, String)| (p.0@, p.1@))
}

/// A portable set of login cookies.
///
/// `encrypted` says which part is filled: `payload` (with its `salt` and
/// `kdf`) when encrypted, else `credentials` (or, in a version 1 envelope,
/// the `host → cookie` list `cookies`, in host order).
#[derive(Debug)]
pub struct CookieEnvelope {
    pub version: u32,
    pub exported_at: String,
    pub library: Option<String>,
    pub encrypted: bool,
    pub kdf: Option<String>,
    pub salt: Option<String>,
    pub payload: Option<String>,
    pub credentials: Vec<LoginCredential>,
    pub cookies: Vec<(String, String)>,
}

pub open spec fn opt_view(o: Option<String>) -> Option<Seq<char>> {
    match o {
        Some(s) => Some(s@),
        None => None,
    }
}

pub open spec fn opt_str_view(o: Option<&str>) -> Option<Seq<char>> {
    match o {
        Some(s) => Some(s@),
        None => None,
    }
}

fn opt_owned(o: Option<&str>) -> (r: Option<String>)
    ensures
        opt_view(r) == opt_str_view(o),
{
    match o {
        Some(s) => Some(s.to_owned()),
        None => None,
    }
}

/// Whether this build reads envelopes of `version`.
pub open spec fn supported_version(version: u32) -> bool {
    version == EXPORT_VERSION || version == EXPORT_VERSION_LEGACY
}

/// The credential list an envelope in clear carries: one per host of a
/// version 1 envelope, else its credentials.
pub open spec fn clear_credentials(e: CookieEnvelope) -> Seq<(Seq<char>, Seq<char>)> {
    if e.version == EXPORT_VERSION_LEGACY {
        pair_views(e.cookies@)
    } else {
        credential_views(e.credentials@)
    }
}

/// What an encrypted envelope opens to with `passphrase`: it needs a salt,
/// a key derivation that is Argon2id when named, and a payload; the salt
/// (trimmed) must read as base64, the passphrase and salt must suit
/// Argon2id, and the payload must open under the derived key.
pub open spec fn decrypted_payload(e: CookieEnvelope, passphrase: Seq<char>) -> Option<Seq<char>> {
    match e.salt {
        None => None,
        Some(salt) => if e.kdf matches Some(k) && k@ != KDF_ARGON2ID@ {
            None
        } else {
            match e.payload {
                None => None,
                Some(payload) => match base64_decoded(trim_seq(salt@)) {
                    None => None,
                    Some(s) => {
                        let pw = encode_utf8(passphrase);
                        if pw.len() <= 0xFFFF_FFFF && 8 <= s.len() <= 0xFFFF_FFFF {
                            token_plaintext(argon2id_key(pw, s), ENVELOPE_AAD@, payload@)
                        } else {
                            None
                        }
                    },
                },
            }
        },
    }
}

/// What an envelope holds, once opened.
#[derive(Debug)]
pub enum EnvelopeContents {
    /// The credentials of an envelope in clear.
    Credentials(Vec<LoginCredential>),
    /// The decrypted payload of an encrypted envelope: the credential list
    /// as JSON.
    Json(String),
}

/// The view of opened contents.
pub enum ContentsView {
    Credentials(Seq<(Seq<char>, Seq<char>)>),
    Json(Seq<char>),
}

impl EnvelopeContents {
    pub open spec fn view(&self) -> ContentsView {
        match self {
            EnvelopeContents::Credentials(cs) => ContentsView::Credentials(credential_views(cs@)),
            EnvelopeContents::Json(t) => ContentsView::Json(t@),
        }
    }
}

/// What an envelope opens to with an optional passphrase (`None` where
/// opening fails): an unsupported version fails, an envelope in clear gives
/// its credentials, and an encrypted one needs the passphrase.
pub open spec fn opening(e: CookieEnvelope, passphrase: Option<Seq<char>>) -> Option<ContentsView> {
    if !supported_version(e.version) {
        None
    } else if !e.encrypted {
        Some(ContentsView::Credentials(clear_credentials(e)))
    } else {
        match passphrase {
            None => None,
            Some(p) => match decrypted_payload(e, p) {
                Some(t) => Some(ContentsView::Json(t)),
                None => None,
            },
        }
    }
}

/// `e` is an envelope in clear of version 2 carrying `credentials`.
pub open spec fn clear_envelope_of(e: CookieEnvelope, credentials: Seq<(Seq<char>, Seq<char>)>) -> bool {
    &&& e.version == EXPORT_VERSION
    &&& !e.encrypted
    &&& e.kdf is None
    &&& e.salt is None
    &&& e.payload is None
    &&& credential_views(e.credentials@) == credentials
    &&& e.cookies@.len() == 0
}

/// `e` carries `salt` in base64 and a payload that seals `json` with
/// `nonce` under the key Argon2id derives from `passphrase` and `salt`.
pub open spec fn sealed_with(
    e: CookieEnvelope,
    json: Seq<char>,
    passphrase: Seq<char>,
    salt: Seq<u8>,
    nonce: Seq<u8>,
) -> bool {
    &&& salt.len() == SALT_LEN
    &&& opt_view(e.salt) == Some(base64_standard(salt))
    &&& is_base64_text(base64_standard(salt))
    &&& base64_decoded(base64_standard(salt)) == Some(salt)
    &&& e.payload matches Some(p) && sealed_token(
        argon2id_key(encode_utf8(passphrase), salt),
        nonce,
        ENVELOPE_AAD@,
        json,
        p@,
    )
}

/// `e` is an encrypted envelope of version 2 whose payload seals `json`
/// under the key that Argon2id derives from `passphrase` and a 16-byte
/// salt, the salt written in base64.
pub open spec fn sealed_envelope(e: CookieEnvelope, json: Seq<char>, passphrase: Seq<char>) -> bool {
    &&& e.version == EXPORT_VERSION
    &&& e.encrypted
    &&& opt_view(e.kdf) == Some(KDF_ARGON2ID@)
    &&& e.credentials@.len() == 0
    &&& e.cookies@.len() == 0
    &&& encode_utf8(passphrase).len() <= 0xFFFF_FFFF
    &&& exists|salt: Seq<u8>, nonce: Seq<u8>| #[trigger] sealed_with(e, json, passphrase, salt, nonce)
}

/// An envelope in clear that carries `credentials`.
pub fn clear_envelope(credentials: Vec<LoginCredential>, exported_at: &str, library: Option<&str>) -> (r:
    CookieEnvelope)
    ensures
        clear_envelope_of(r, credential_views(credentials@)),
        r.exported_at@ == exported_at@,
        opt_view(r.library) == opt_str_view(library),
{
    CookieEnvelope {
        version: EXPORT_VERSION,
        exported_at: exported_at.to_owned(),
        library: opt_owned(library),
        encrypted: false,
        kdf: None,
        salt: None,
        payload: None,
        credentials,
        cookies: Vec::new(),
    }
}

/// An encrypted envelope whose payload is `credentials_json`, under a key
/// derived from `passphrase` and a fresh random salt. It fails where the
/// random source fails, where the passphrase is too long for Argon2id, or
/// where the payload is too long to encrypt.
pub fn encrypted_envelope(
    credentials_json: &str,
    passphrase: &str,
    exported_at: &str,
    library: Option<&str>,
) -> (r: Result<CookieEnvelope, NarouError>)
    requires
        base64_len(encode_utf8(credentials_json@).len() + 16int) <= usize::MAX,
    ensures
        r matches Ok(e) ==> sealed_envelope(e, credentials_json@, passphrase@) && e.exported_at@
            == exported_at@ && opt_view(e.library) == opt_str_view(library),
        r matches Err(err) ==> err is Login,
        encode_utf8(passphrase@).len() > 0xFFFF_FFFF ==> r is Err,
        encode_utf8(credentials_json@).len() / 64 >= u32::MAX ==> r is Err,
{
    let salt: [u8; SALT_LEN] = random_bytes()?;
    let key = derive_key(passphrase, salt.as_slice())?;
    let payload = encrypt_with_key(&key, ENVELOPE_AAD, credentials_json)?;
    let salt_text = base64_encode(salt.as_slice());
    let r = CookieEnvelope {
        version: EXPORT_VERSION,
        exported_at: exported_at.to_owned(),
        library: opt_owned(library),
        encrypted: true,
        kdf: Some(KDF_ARGON2ID.to_owned()),
        salt: Some(salt_text),
        payload: Some(payload),
        credentials: Vec::new(),
        cookies: Vec::new(),
    };
    proof {
        let nonce = choose|nonce: Seq<u8>|
            sealed_token(key@, nonce, ENVELOPE_AAD@, credentials_json@, r.payload->0@);
        assert(sealed_with(r, credentials_json@, passphrase@, salt@, nonce));
    }
    Ok(r)
}

/// The credentials of a `host → cookie` list, in its order.
fn credentials_of_pairs(pairs: Vec<(String, String)>) -> (r: Vec<LoginCredential>)
    ensures
        credential_views(r@) == pair_views(pairs@),
{
    let mut out: Vec<LoginCredential> = Vec::new();
    let mut i: usize = 0;
    while i < pairs.len()
        invariant
            i <= pairs@.len(),
            credential_views(out@) == pair_views(pairs@.take(i as int)),
        decreases pairs@.len() - i,
    {
        let c = LoginCredential::new(pairs[i].0.as_str(), pairs[i].1.as_str());
        proof {
            assert(pairs@.take(i + 1) =~= pairs@.take(i as int).push(pairs@[i as int]));
            assert(credential_views(out@.push(c)) =~= credential_views(out@).push((c.host@, c.cookie@)));
            assert(pair_views(pairs@.take(i + 1)) =~= pair_views(pairs@.take(i as int)).push(
                (pairs@[i as int].0@, pairs@[i as int].1@),
            ));
        }
        out.push(c);
        i = i + 1;
    }
    assert(pairs@.take(pairs@.len() as int) =~= pairs@);
    out
}

fn decrypt_payload(e: &CookieEnvelope, passphrase: &str) -> (r: Result<String, NarouError>)
    ensures
        match r {
            Ok(t) => decrypted_payload(*e, passphrase@) == Some(t@),
            Err(err) => decrypted_payload(*e, passphrase@) is None && err is Login,
        },
{
    let salt = match &e.salt {
        Some(s) => s,
        None => {
            return Err(login_error("encrypted export without a salt".to_owned()));
        },
    };
    if let Some(kdf) = &e.kdf {
        if !chars_eq(kdf.as_str(), KDF_ARGON2ID) {
            let mut message = "unsupported key derivation: ".to_owned();
            message.append(kdf.as_str());
            return Err(login_error(message));
        }
    }
    let payload = match &e.payload {
        Some(p) => p,
        None => {
            return Err(login_error("encrypted export without a payload".to_owned()));
        },
    };
    let trimmed = trim(salt.as_str());
    let salt_bytes = match base64_decode(trimmed.as_str()) {
        Ok(b) => b,
        Err(error) => {
            let mut message = "malformed base64 value: ".to_owned();
            message.append(error.as_str());
            return Err(login_error(message));
        },
    };
    let key = derive_key(passphrase, salt_bytes.as_slice())?;
    decrypt_with_key(&key, ENVELOPE_AAD, payload.as_str())
}

/// Opens an envelope: an unsupported version is refused; an envelope in
/// clear gives its credentials (one per host for version 1); an encrypted
/// one needs `passphrase` and gives its decrypted payload.
pub fn open_envelope(envelope: CookieEnvelope, passphrase: Option<&str>) -> (r: Result<
    EnvelopeContents,
    NarouError,
>)
    ensures
        match r {
            Ok(c) => opening(envelope, opt_str_view(passphrase)) == Some(c.view()),
            Err(err) => opening(envelope, opt_str_view(passphrase)) is None && err is Login,
        },
{
    if envelope.version != EXPORT_VERSION && envelope.version != EXPORT_VERSION_LEGACY {
        let mut message = "unsupported export version ".to_owned();
        message.append(decimal_string(envelope.version as usize).as_str());
        message.append(" (this build reads versions 1 and 2)");
        return Err(login_error(message));
    }
    if !envelope.encrypted {
        if envelope.version == EXPORT_VERSION_LEGACY {
            return Ok(EnvelopeContents::Credentials(credentials_of_pairs(envelope.cookies)));
        }
        return Ok(EnvelopeContents::Credentials(envelope.credentials));
    }
    let passphrase = match passphrase {
        Some(p) => p,
        None => {
            return Err(
                login_error("this export is encrypted: pass a passphrase to import it".to_owned()),
            );
        },
    };
    match decrypt_payload(&envelope, passphrase) {
        Ok(t) => Ok(EnvelopeContents::Json(t)),
        Err(err) => Err(err),
    }
}

/// What an export writes, an import reads back: an envelope in clear opens
/// to its credentials with or without a passphrase, and an encrypted one
/// opens with its passphrase to the payload it sealed, but not without one.
pub proof fn lemma_export_round_trip(
    e: CookieEnvelope,
    credentials: Seq<(Seq<char>, Seq<char>)>,
    json: Seq<char>,
    passphrase: Seq<char>,
    other: Option<Seq<char>>,
)
    ensures
        clear_envelope_of(e, credentials) ==> opening(e, other) == Some(
            ContentsView::Credentials(credentials),
        ),
        sealed_envelope(e, json, passphrase) ==> opening(e, Some(passphrase)) == Some(
            ContentsView::Json(json),
        ),
        sealed_envelope(e, json, passphrase) ==> opening(e, None) is None,
{
    if sealed_envelope(e, json, passphrase) {
        let (salt, nonce) = choose|salt: Seq<u8>, nonce: Seq<u8>|
            sealed_with(e, json, passphrase, salt, nonce);
        lemma_trim_base64(base64_standard(salt));
        lemma_decrypt_inverts_encrypt(
            argon2id_key(encode_utf8(passphrase), salt),
            nonce,
            ENVELOPE_AAD@,
            json,
            e.payload->0@,
        );
        assert(e.kdf matches Some(k) && k@ == KDF_ARGON2ID@);
    }
}

} // verus!
