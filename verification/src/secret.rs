//! At-rest protection of short secrets (API keys, header values).
//!
//! A secret is sealed with ChaCha20-Poly1305 under a 32-byte machine key and
//! stored as the envelope `enc:v1:<base64 nonce>:<base64 ciphertext>`. Values
//! without the prefix are legacy plaintext and pass through unchanged. The key
//! file itself is read and written by the host; this module holds the key
//! bytes and the envelope logic.

use base64::Engine;
use chacha20poly1305::aead::rand_core::RngCore;
use chacha20poly1305::aead::{Aead, KeyInit, OsRng};
use crate::error::AppError;
use crate::text::{chars_of, decimal, decimal_chars, starts_with, starts_with_chars, string_from};
use vstd::prelude::*;
use vstd::string::*;
use vstd::utf8::{decode_utf8, encode_utf8, valid_utf8};

verus! {

pub open spec fn envelope_prefix() -> Seq<char> {
    "enc:v1:"@
}

/// Base64 (standard alphabet, padded) text of `bytes`.
pub uninterp spec fn base64_encoded(bytes: Seq<u8>) -> Seq<char>;

/// What decoding `text` as padded standard base64 gives: the bytes, or the
/// error's message.
pub uninterp spec fn base64_decoded(text: Seq<char>) -> Result<Seq<u8>, Seq<char>>;

/// ChaCha20-Poly1305 ciphertext with its tag appended.
pub uninterp spec fn chacha_sealed(key: Seq<u8>, nonce: Seq<u8>, plain: Seq<u8>) -> Seq<u8>;

/// The plaintext of an authentic ciphertext, or nothing.
pub uninterp spec fn chacha_opened(key: Seq<u8>, nonce: Seq<u8>, sealed: Seq<u8>) -> Option<
    Seq<u8>,
>;

/// The message of the error `String::from_utf8` reports for invalid bytes.
pub uninterp spec fn utf8_error_text(bytes: Seq<u8>) -> Seq<char>;

/// A character of the padded standard base64 alphabet.
pub open spec fn is_base64_char(c: char) -> bool {
    ('A' <= c && c <= 'Z') || ('a' <= c && c <= 'z') || ('0' <= c && c <= '9') || c == '+' || c
        == '/' || c == '='
}

/// Every character of `s` is in the padded standard base64 alphabet.
pub open spec fn all_base64(s: Seq<char>) -> bool {
    forall|i: int| 0 <= i < s.len() ==> is_base64_char(#[trigger] s[i])
}

/// A successful decoding to `bytes`.
pub open spec fn decoded_as(bytes: Seq<u8>) -> Result<Seq<u8>, Seq<char>> {
    Ok(bytes)
}

/// `base64::engine::general_purpose::STANDARD.encode`. The output uses only
/// the padded standard alphabet, and the same engine decodes it back to the
/// input (the crate's encode/decode round trip).
#[verifier::external_body]
fn base64_encode(bytes: &[u8]) -> (r: String)
    ensures
        r@ == base64_encoded(bytes@),
        all_base64(r@),
        base64_decoded(r@) == decoded_as(bytes@),
{
    base64::engine::general_purpose::STANDARD.encode(bytes)
}

/// `base64::engine::general_purpose::STANDARD.decode`; an error is reported by
/// its `Display` text. A byte outside the padded standard alphabet is refused
/// (`DecodeError::InvalidByte`), so text with any other character fails.
#[verifier::external_body]
fn base64_decode(text: &str) -> (r: Result<Vec<u8>, String>)
    ensures
        !all_base64(text@) ==> r is Err,
        r is Ok <==> base64_decoded(text@) is Ok,
        r is Ok ==> r->Ok_0@ == base64_decoded(text@)->Ok_0,
        r is Err ==> r->Err_0@ == base64_decoded(text@)->Err_0,
{
    match base64::engine::general_purpose::STANDARD.decode(text) {
        Ok(v) => Ok(v),
        Err(e) => Err(e.to_string()),
    }
}

/// `ChaCha20Poly1305::encrypt` without associated data. The crate refuses a
/// message of `u32::MAX` 64-byte blocks or more and otherwise returns the
/// ciphertext with a 16-byte tag, which `decrypt` with the same key and nonce
/// opens back to the message.
#[verifier::external_body]
fn chacha_seal(key: &[u8], nonce: &[u8], plain: &[u8]) -> (r: Option<Vec<u8>>)
    requires
        key@.len() == 32,
        nonce@.len() == 12,
    ensures
        r is Some <==> plain@.len() / 64 < u32::MAX,
        r matches Some(c) ==> c@ == chacha_sealed(key@, nonce@, plain@),
        r matches Some(c) ==> chacha_opened(key@, nonce@, c@) == Some(plain@),
{
    let cipher = chacha20poly1305::ChaCha20Poly1305::new(chacha20poly1305::Key::from_slice(key));
    cipher.encrypt(chacha20poly1305::Nonce::from_slice(nonce), plain).ok()
}

/// `ChaCha20Poly1305::decrypt` without associated data: the plaintext when the
/// tag authenticates the ciphertext under the key and nonce.
#[verifier::external_body]
fn chacha_open(key: &[u8], nonce: &[u8], sealed: &[u8]) -> (r: Option<Vec<u8>>)
    requires
        key@.len() == 32,
        nonce@.len() == 12,
    ensures
        r is Some <==> chacha_opened(key@, nonce@, sealed@) is Some,
        r is Some ==> r->0@ == chacha_opened(key@, nonce@, sealed@)->0,
{
    let cipher = chacha20poly1305::ChaCha20Poly1305::new(chacha20poly1305::Key::from_slice(key));
    cipher.decrypt(chacha20poly1305::Nonce::from_slice(nonce), sealed).ok()
}

/// Twelve random bytes from the operating system's source (`OsRng`'s
/// `try_fill_bytes`), or the source's error text when it cannot deliver.
/// Nothing is claimed of the bytes but their number.
#[verifier::external_body]
fn fresh_nonce() -> (r: Result<Vec<u8>, String>)
    ensures
        r matches Ok(n) ==> n@.len() == 12,
{
    let mut nonce: Vec<u8> = vec![0u8; 12];
    match OsRng.try_fill_bytes(&mut nonce) {
        Ok(()) => Ok(nonce),
        Err(e) => Err(e.to_string()),
    }
}

/// `String::from_utf8`: a string exactly when the bytes are valid UTF-8; the
/// error is reported by its `Display` text.
#[verifier::external_body]
fn utf8_string(bytes: Vec<u8>) -> (r: Result<String, String>)
    ensures
        r is Ok <==> valid_utf8(bytes@),
        r matches Ok(s) ==> s@ == decode_utf8(bytes@),
        r matches Err(m) ==> m@ == utf8_error_text(bytes@),
{
    match String::from_utf8(bytes) {
        Ok(s) => Ok(s),
        Err(e) => Err(e.to_string()),
    }
}

/// Position of the first `:` in `s`, if any.
pub open spec fn first_colon(s: Seq<char>) -> Option<int> {
    if exists|i: int| 0 <= i < s.len() && s[i] == ':' {
        Some(choose|i: int| 0 <= i < s.len() && s[i] == ':' && forall|j: int| 0 <= j < i ==> s[j] != ':')
    } else {
        None
    }
}

/// The outcome of opening `envelope` with `key`: `Ok(None)` for a value
/// without the prefix, `Ok(Some(text))` for an authentic envelope, otherwise
/// the error message.
pub open spec fn open_envelope(key: Seq<u8>, envelope: Seq<char>) -> Result<Option<Seq<char>>, Seq<char>> {
    if !starts_with(envelope, envelope_prefix()) {
        Ok(None)
    } else {
        let body = envelope.subrange(7, envelope.len() as int);
        match first_colon(body) {
            None => Err("加密信封格式无效"@),
            Some(c) => {
                let nonce_text = body.subrange(0, c);
                let cipher_text = body.subrange(c + 1, body.len() as int);
                match base64_decoded(nonce_text) {
                    Err(m) => Err("加密信封解析失败: "@ + m),
                    Ok(nonce) => if nonce.len() != 12 {
                        Err("nonce 长度异常"@)
                    } else {
                        match base64_decoded(cipher_text) {
                            Err(m) => Err("加密信封解析失败: "@ + m),
                            Ok(sealed) => match chacha_opened(key, nonce, sealed) {
                                None => Err("解密失败（密钥变更或文件损坏）: aead::Error"@),
                                Some(plain) => if valid_utf8(plain) {
                                    Ok(Some(decode_utf8(plain)))
                                } else {
                                    Err(utf8_error_text(plain))
                                },
                            },
                        }
                    },
                }
            },
        }
    }
}

/// An envelope that cannot open under any key: it carries the prefix, but its
/// body has no `:`, or its nonce or ciphertext part holds a character outside
/// the base64 alphabet.
pub open spec fn malformed_envelope(envelope: Seq<char>) -> bool {
    let body = envelope.subrange(7, envelope.len() as int);
    &&& starts_with(envelope, envelope_prefix())
    &&& match first_colon(body) {
        None => true,
        Some(c) => !all_base64(body.subrange(0, c)) || !all_base64(
            body.subrange(c + 1, body.len() as int),
        ),
    }
}

/// The start of the error reported when the system's random source fails.
pub open spec fn nonce_failure_prefix() -> Seq<char> {
    "加密失败: 无法获取随机数: "@
}

/// Sealing failed because no random nonce could be drawn.
pub open spec fn nonce_failed(r: Result<String, AppError>) -> bool {
    r matches Err(AppError::Config(m)) && starts_with(m@, nonce_failure_prefix())
}

/// Sealing an API key failed because no random nonce could be drawn.
pub open spec fn seal_nonce_failed(r: Result<Option<String>, AppError>) -> bool {
    r matches Err(AppError::Config(m)) && starts_with(m@, nonce_failure_prefix())
}

/// The envelope that sealing `plain` under `key` with `nonce` produces.
pub open spec fn sealed_envelope(key: Seq<u8>, nonce: Seq<u8>, plain: Seq<char>) -> Seq<char> {
    envelope_prefix() + base64_encoded(nonce) + ":"@ + base64_encoded(
        chacha_sealed(key, nonce, encode_utf8(plain)),
    )
}

/// The 32-byte symmetric machine key.
pub struct MachineKey {
    key: Vec<u8>,
    /// Where the key file lives (for diagnostics).
    path: String,
}

impl MachineKey {
    /// A machine key always holds exactly 32 bytes.
    #[verifier::type_invariant]
    spec fn well_formed(self) -> bool {
        self.key@.len() == 32
    }

    /// The key bytes.
    pub closed spec fn key_bytes(self) -> Seq<u8> {
        self.key@
    }

    /// The key file's path.
    pub closed spec fn path_text(self) -> Seq<char> {
        self.path@
    }
}

pub open spec fn size_message(n: nat) -> Seq<char> {
    "secret.key 大小异常：期望 32 字节，得到 "@ + decimal(n)
}

impl MachineKey {
    /// The key stored in the key file at `path`, which must hold exactly 32 bytes.
    pub fn from_bytes(bytes: Vec<u8>, path: String) -> (r: Result<MachineKey, AppError>)
        ensures
            bytes@.len() == 32 ==> (r matches Ok(k) && k.key_bytes() == bytes@ && k.path_text() == path@),
            bytes@.len() != 32 ==> (r matches Err(AppError::Config(m)) && m@ == size_message(
                bytes@.len(),
            )),
    {
        if bytes.len() != 32 {
            let mut m = String::from_str("secret.key 大小异常：期望 32 字节，得到 ");
            let n = string_from(decimal_chars(bytes.len() as u64).as_slice());
            m.append(n.as_str());
            return Err(AppError::Config(m));
        }
        Ok(MachineKey { key: bytes, path })
    }

    /// Path to the key file.
    pub fn path(&self) -> (p: &str)
        ensures
            p@ == self.path_text(),
    {
        self.path.as_str()
    }

    /// Seal `plaintext` with the given nonce into an envelope. Opening the
    /// envelope with the same key gives the plaintext back.
    pub fn encrypt_with_nonce(&self, nonce: &Vec<u8>, plaintext: &str) -> (r: Result<String, AppError>)
        requires
            nonce@.len() == 12,
        ensures
            encode_utf8(plaintext@).len() / 64 < u32::MAX ==> (r matches Ok(e) && e@
                == sealed_envelope(self.key_bytes(), nonce@, plaintext@)),
            encode_utf8(plaintext@).len() / 64 >= u32::MAX ==> (r matches Err(
                AppError::Config(m),
            ) && m@ == "加密失败: aead::Error"@),
            r matches Ok(e) ==> open_envelope(self.key_bytes(), e@) == Ok::<Option<Seq<char>>, Seq<char>>(
                Some(plaintext@),
            ),
    {
        proof {
            use_type_invariant(self);
        }
        let sealed = match chacha_seal(self.key.as_slice(), nonce.as_slice(), plaintext.as_bytes()) {
            Some(c) => c,
            None => {
                return Err(AppError::Config(String::from_str("加密失败: aead::Error")));
            },
        };
        let nonce_text = base64_encode(nonce.as_slice());
        let sealed_text = base64_encode(sealed.as_slice());
        let mut e = String::from_str("enc:v1:");
        e.append(nonce_text.as_str());
        e.append(":");
        e.append(sealed_text.as_str());
        proof {
            reveal_strlit("enc:v1:");
            reveal_strlit(":");
            let env = e@;
            assert(env == sealed_envelope(self.key_bytes(), nonce@, plaintext@));
            let body = env.subrange(7, env.len() as int);
            assert(body =~= nonce_text@ + ":"@ + sealed_text@);
            let c = nonce_text@.len() as int;
            assert(body[c] == ':');
            assert forall|j: int| 0 <= j < c implies body[j] != ':' by {
                assert(body[j] == nonce_text@[j]);
                assert(is_base64_char(nonce_text@[j]));
            }
            assert(first_colon(body) == Some(c)) by {
                let k = choose|i: int| 0 <= i < body.len() && body[i] == ':' && forall|j: int|
                    0 <= j < i ==> body[j] != ':';
                assert(k == c) by {
                    if k < c {
                    } else if k > c {
                    }
                }
            }
            assert(body.subrange(0, c) =~= nonce_text@);
            assert(body.subrange(c + 1, body.len() as int) =~= sealed_text@);
            assert(starts_with(env, envelope_prefix())) by {
                assert(env.subrange(0, 7) =~= envelope_prefix());
            }
            vstd::utf8::encode_utf8_decode_utf8(plaintext@);
            vstd::utf8::encode_utf8_valid_utf8(plaintext@);
        }
        Ok(e)
    }

    /// Wrap `plaintext` in an envelope under a fresh random nonce, so the same
    /// value seals differently each time. When the system's random source
    /// fails, the error names that failure (see [`nonce_failed`]).
    pub fn encrypt(&self, plaintext: &str) -> (r: Result<String, AppError>)
        ensures
            encode_utf8(plaintext@).len() / 64 < u32::MAX ==> (r is Ok || nonce_failed(r)),
            encode_utf8(plaintext@).len() / 64 >= u32::MAX ==> ((r matches Err(
                AppError::Config(m),
            ) && m@ == "加密失败: aead::Error"@) || nonce_failed(r)),
            r matches Ok(e) ==> exists|nonce: Seq<u8>|
                nonce.len() == 12 && e@ == sealed_envelope(self.key_bytes(), nonce, plaintext@),
            r matches Ok(e) ==> open_envelope(self.key_bytes(), e@) == Ok::<Option<Seq<char>>, Seq<char>>(
                Some(plaintext@),
            ),
    {
        proof {
            use_type_invariant(self);
            reveal_strlit("加密失败: 无法获取随机数: ");
        }
        let nonce = match fresh_nonce() {
            Ok(n) => n,
            Err(e) => {
                let mut m = String::from_str("加密失败: 无法获取随机数: ");
                m.append(e.as_str());
                proof {
                    assert(m@.subrange(0, nonce_failure_prefix().len() as int) =~= nonce_failure_prefix());
                }
                return Err(AppError::Config(m));
            },
        };
        self.encrypt_with_nonce(&nonce, plaintext)
    }

    /// Reverse of `encrypt`: `Ok(None)` when `envelope` lacks the prefix (a
    /// legacy plaintext value), the plaintext for an authentic envelope, and
    /// an error for a malformed or unauthentic one.
    pub fn decrypt(&self, envelope: &str) -> (r: Result<Option<String>, AppError>)
        ensures
            match open_envelope(self.key_bytes(), envelope@) {
                Ok(None) => r matches Ok(None),
                Ok(Some(p)) => r matches Ok(Some(s)) && s@ == p,
                Err(m) => r matches Err(AppError::Config(e)) && e@ == m,
            },
            malformed_envelope(envelope@) ==> r matches Err(AppError::Config(_)),
    {
        proof {
            use_type_invariant(self);
        }
        let chars = chars_of(envelope);
        let prefix = chars_of("enc:v1:");
        proof {
            reveal_strlit("enc:v1:");
        }
        if !starts_with_chars(&chars, &prefix) {
            return Ok(None);
        }
        let body = crate::text::slice_chars(&chars, 7, chars.len());
        let mut c: usize = 0;
        while c < body.len()
            invariant
                c <= body.len(),
                forall|j: int| 0 <= j < c ==> body@[j] != ':',
            ensures
                c <= body.len(),
                forall|j: int| 0 <= j < c ==> body@[j] != ':',
                c < body.len() ==> body@[c as int] == ':',
            decreases body.len() - c,
        {
            if body[c] == ':' {
                break;
            }
            c = c + 1;
        }
        proof {
            if c < body.len() {
                assert(exists|i: int| 0 <= i < body@.len() && body@[i] == ':');
                let k = choose|i: int| 0 <= i < body@.len() && body@[i] == ':' && forall|j: int|
                    0 <= j < i ==> body@[j] != ':';
                assert(k == c) by {
                    if k < c {
                    } else if k > c {
                    }
                }
            }
        }
        if c == body.len() {
            return Err(AppError::Config(String::from_str("加密信封格式无效")));
        }
        let nonce_text = string_from(crate::text::slice_chars(&body, 0, c).as_slice());
        let sealed_text = string_from(crate::text::slice_chars(&body, c + 1, body.len()).as_slice());
        let nonce = match base64_decode(nonce_text.as_str()) {
            Ok(v) => v,
            Err(m) => {
                let mut e = String::from_str("加密信封解析失败: ");
                e.append(m.as_str());
                return Err(AppError::Config(e));
            },
        };
        if nonce.len() != 12 {
            return Err(AppError::Config(String::from_str("nonce 长度异常")));
        }
        let sealed = match base64_decode(sealed_text.as_str()) {
            Ok(v) => v,
            Err(m) => {
                let mut e = String::from_str("加密信封解析失败: ");
                e.append(m.as_str());
                return Err(AppError::Config(e));
            },
        };
        let plain = match chacha_open(self.key.as_slice(), nonce.as_slice(), sealed.as_slice()) {
            Some(p) => p,
            None => {
                return Err(
                    AppError::Config(String::from_str("解密失败（密钥变更或文件损坏）: aead::Error")),
                );
            },
        };
        match utf8_string(plain) {
            Ok(s) => Ok(Some(s)),
            Err(m) => Err(AppError::Config(m)),
        }
    }

    /// The plaintext of `value` if it is an envelope, otherwise `value` itself
    /// (a legacy plaintext value).
    pub fn decrypt_or_passthrough(&self, value: &str) -> (r: Result<String, AppError>)
        ensures
            match open_envelope(self.key_bytes(), value@) {
                Ok(None) => r matches Ok(s) && s@ == value@,
                Ok(Some(p)) => r matches Ok(s) && s@ == p,
                Err(m) => r matches Err(AppError::Config(e)) && e@ == m,
            },
    {
        proof {
            use_type_invariant(self);
        }
        match self.decrypt(value)? {
            Some(plain) => Ok(plain),
            None => Ok(String::from_str(value)),
        }
    }
}

/// Whether an API key is sealed before it is stored: it is not blank and
/// not already an envelope.
pub open spec fn needs_sealing(k: Seq<char>) -> bool {
    !crate::text::is_blank(k) && !starts_with(k, envelope_prefix())
}

/// The API key a stored value loads as: an envelope's plaintext, a plain value
/// itself, nothing when the envelope does not open.
pub open spec fn loaded_key(key: Seq<u8>, stored: Seq<char>) -> Option<Seq<char>> {
    match open_envelope(key, stored) {
        Ok(None) => Some(stored),
        Ok(Some(p)) => Some(p),
        Err(_) => None,
    }
}

impl MachineKey {
    /// The API key as the settings record stores it: sealed when
    /// [`needs_sealing`], as it is otherwise. A key that does not start with
    /// the envelope prefix loads back unchanged.
    pub fn seal_api_key(&self, api_key: Option<String>) -> (r: Result<Option<String>, AppError>)
        ensures
            api_key is None ==> r matches Ok(None),
            api_key is Some && !needs_sealing(api_key->0@) ==> (r matches Ok(Some(s)) && s@
                == api_key->0@),
            api_key is Some && needs_sealing(api_key->0@) && encode_utf8(api_key->0@).len() / 64
                < u32::MAX ==> ((r matches Ok(Some(e)) && exists|nonce: Seq<u8>|
                nonce.len() == 12 && e@ == sealed_envelope(self.key_bytes(), nonce, api_key->0@))
                || seal_nonce_failed(r)),
            api_key is Some && needs_sealing(api_key->0@) && encode_utf8(api_key->0@).len() / 64
                >= u32::MAX ==> ((r matches Err(AppError::Config(m)) && m@ == "加密失败: aead::Error"@)
                || seal_nonce_failed(r)),
            api_key is Some && !starts_with(api_key->0@, envelope_prefix()) && r is Ok ==> (
            r->Ok_0 is Some && loaded_key(self.key_bytes(), r->Ok_0->0@) == Some(api_key->0@)),
    {
        proof {
            use_type_invariant(self);
        }
        let k = match api_key {
            None => {
                return Ok(None);
            },
            Some(k) => k,
        };
        let v = chars_of(k.as_str());
        let prefix = chars_of("enc:v1:");
        proof {
            reveal_strlit("enc:v1:");
        }
        if crate::text::blank(k.as_str()) || starts_with_chars(&v, &prefix) {
            return Ok(Some(k));
        }
        match self.encrypt(k.as_str()) {
            Ok(sealed) => Ok(Some(sealed)),
            Err(e) => Err(e),
        }
    }

    /// The API key a stored value loads as (see [`loaded_key`]).
    pub fn open_api_key(&self, stored: Option<String>) -> (r: Option<String>)
        ensures
            match stored {
                None => r is None,
                Some(v) => match loaded_key(self.key_bytes(), v@) {
                    None => r is None,
                    Some(k) => r matches Some(s) && s@ == k,
                },
            },
    {
        proof {
            use_type_invariant(self);
        }
        match stored {
            None => None,
            Some(v) => match self.decrypt_or_passthrough(v.as_str()) {
                Ok(plain) => Some(plain),
                Err(_) => None,
            },
        }
    }
}

} // verus!
