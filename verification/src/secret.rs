use vstd::prelude::*;
use vstd::string::*;
use vstd::utf8::{decode_utf8, encode_utf8, encode_utf8_decode_utf8, encode_utf8_valid_utf8,
    valid_utf8};
use aes::Aes256;
use eax::Eax;
use eax::aead::{AeadCore, AeadInPlace, KeyInit};
use eax::aead::generic_array::GenericArray;
use rand_core::OsRng;
use sha2::{Digest, Sha256};
use crate::text::{first_idx, lemma_first_idx, find_from};
use crate::utils::{hex_decode, hex_encode, hex_of, lemma_hex_no_backslash, lemma_hex_round_trip,
    unhex, unhex_ok};

verus! {

/// What the SHA-256 digest of a byte string is: a function of the input alone.
pub uninterp spec fn sha256_of(data: Seq<u8>) -> Seq<u8>;

/// Relies on sha2's Sha256: the digest is 32 bytes and depends on the input
/// bytes alone.
#[verifier::external_body]
pub fn sha256(data: &[u8]) -> (r: Vec<u8>)
    ensures
        r@ == sha256_of(data@),
        r@.len() == 32,
{
    let mut hasher = Sha256::new();
    hasher.update(data);
    hasher.finalize().to_vec()
}

/// The EAX-AES-256 ciphertext for a key, nonce and plaintext.
pub uninterp spec fn eax_cipher_of(key: Seq<u8>, nonce: Seq<u8>, plain: Seq<u8>) -> Seq<u8>;

/// The EAX-AES-256 authentication tag for a key, nonce and ciphertext
/// (with empty associated data).
pub uninterp spec fn eax_tag_of(key: Seq<u8>, nonce: Seq<u8>, cipher: Seq<u8>) -> Seq<u8>;

/// The EAX-AES-256 decryption of a ciphertext under a key and nonce.
pub uninterp spec fn eax_plain_of(key: Seq<u8>, nonce: Seq<u8>, cipher: Seq<u8>) -> Seq<u8>;

/// The longest plaintext EAX accepts.
pub open spec fn eax_plain_max() -> int {
    0x1000000000
}

/// The longest ciphertext EAX accepts.
pub open spec fn eax_cipher_max() -> int {
    0x1000000010
}

/// Relies on eax's Eax<Aes256>: new_from_slice accepts a 32-byte key, and
/// encrypt_in_place_detached with empty associated data succeeds for a
/// 16-byte nonce and a plaintext within the size bound; the ciphertext is as
/// long as the plaintext, the 16-byte tag is the MAC of the ciphertext, and
/// counter-mode decryption inverts the encryption.
#[verifier::external_body]
fn eax_encrypt(key: &Vec<u8>, nonce: &Vec<u8>, plain: &Vec<u8>) -> (r: Result<(Vec<u8>, Vec<u8>), ()>)
    requires
        key@.len() == 32,
        nonce@.len() == 16,
        plain@.len() <= eax_plain_max(),
    ensures
        r is Ok,
        r matches Ok(p) ==> {
            &&& p.1@ == eax_cipher_of(key@, nonce@, plain@)
            &&& p.1@.len() == plain@.len()
            &&& p.0@ == eax_tag_of(key@, nonce@, p.1@)
            &&& p.0@.len() == 16
            &&& eax_plain_of(key@, nonce@, p.1@) == plain@
        },
{
    let cipher = match Eax::<Aes256>::new_from_slice(key) {
        Ok(c) => c,
        Err(_) => return Err(()),
    };
    let mut buffer = plain.clone();
    let nonce_arr = GenericArray::from_slice(nonce.as_slice());
    match cipher.encrypt_in_place_detached(nonce_arr, b"", &mut buffer) {
        Ok(tag) => Ok((tag.to_vec(), buffer)),
        Err(_) => Err(()),
    }
}

/// Relies on eax's Eax<Aes256>: new_from_slice accepts a 32-byte key, and
/// decrypt_in_place_detached with empty associated data, a 16-byte nonce and
/// tag and a ciphertext within the size bound succeeds exactly when the tag
/// is the MAC of the ciphertext, and then returns the counter-mode
/// decryption.
#[verifier::external_body]
fn eax_decrypt(key: &Vec<u8>, nonce: &Vec<u8>, tag: &Vec<u8>, body: &Vec<u8>) -> (r: Result<
    Vec<u8>,
    (),
>)
    requires
        key@.len() == 32,
        nonce@.len() == 16,
        tag@.len() == 16,
        body@.len() <= eax_cipher_max(),
    ensures
        r is Ok <==> tag@ == eax_tag_of(key@, nonce@, body@),
        r matches Ok(p) ==> p@ == eax_plain_of(key@, nonce@, body@),
{
    let cipher = match Eax::<Aes256>::new_from_slice(key) {
        Ok(c) => c,
        Err(_) => return Err(()),
    };
    let mut buffer = body.clone();
    let nonce_arr = GenericArray::from_slice(nonce.as_slice());
    let tag_arr = GenericArray::from_slice(tag.as_slice());
    match cipher.decrypt_in_place_detached(nonce_arr, b"", &mut buffer, tag_arr) {
        Ok(()) => Ok(buffer),
        Err(_) => Err(()),
    }
}

/// Relies on eax's AeadCore::generate_nonce with rand_core's OsRng: a fresh
/// 16-byte nonce; nothing is assumed of its value.
#[verifier::external_body]
fn generate_nonce() -> (r: Vec<u8>)
    ensures
        r@.len() == 16,
{
    Eax::<Aes256>::generate_nonce(&mut OsRng).to_vec()
}

/// Relies on String::from_utf8: it succeeds exactly on valid UTF-8 input and
/// returns the text whose encoding is that input.
#[verifier::external_body]
fn bytes_to_string(v: Vec<u8>) -> (r: Result<String, ()>)
    ensures
        r is Ok <==> valid_utf8(v@),
        r matches Ok(s) ==> encode_utf8(s@) == v@,
{
    match String::from_utf8(v) {
        Ok(s) => Ok(s),
        Err(_) => Err(()),
    }
}

/// The symmetric key holder: one 32-byte key per installation, derived from a
/// passphrase.
pub struct SecretKey;

impl SecretKey {
    /// Derives the hex-encoded key: SHA-256 of the passphrase bytes.
    pub fn generate(keypass: &str) -> (r: String)
        ensures
            r@ == hex_of(sha256_of(encode_utf8(keypass@))),
            r@.len() == 64,
    {
        let digest = sha256(keypass.as_bytes());
        hex_encode(digest.as_slice())
    }
}

/// How encryption or decryption can fail.
#[derive(Debug)]
pub enum CryptoError {
    /// The key is not 32 bytes long.
    InitFailure,
    /// The plaintext exceeds what the cipher accepts.
    EncryptFailure,
    /// The envelope is malformed: field count, hex content, or nonce or tag
    /// length.
    Corrupted,
    /// The authentication tag does not verify.
    AuthFailure,
    /// The decrypted bytes are not valid UTF-8.
    NotText,
}

/// The error text of each failure, as shown to the user.
pub open spec fn crypto_err_text(e: CryptoError) -> Seq<char> {
    match e {
        CryptoError::InitFailure => "cipher init error"@,
        CryptoError::EncryptFailure => "encrypt error"@,
        CryptoError::Corrupted => "Encryption is corrupted"@,
        CryptoError::AuthFailure => "decrypt error"@,
        CryptoError::NotText => "decrypted value is not valid text"@,
    }
}

impl CryptoError {
    /// The error text, as shown to the user.
    pub fn message(&self) -> (r: String)
        ensures
            r@ == crypto_err_text(*self),
    {
        match self {
            CryptoError::InitFailure => String::from_str("cipher init error"),
            CryptoError::EncryptFailure => String::from_str("encrypt error"),
            CryptoError::Corrupted => String::from_str("Encryption is corrupted"),
            CryptoError::AuthFailure => String::from_str("decrypt error"),
            CryptoError::NotText => String::from_str("decrypted value is not valid text"),
        }
    }
}

/// How decryption of an envelope ends.
pub ghost enum DecryptOut {
    Plain(Seq<char>),
    Corrupted,
    InitFailure,
    AuthFailure,
    NotText,
}

/// The three fields of an envelope, if it has exactly three
/// backslash-separated fields.
pub open spec fn envelope_fields(env: Seq<char>) -> Option<(Seq<char>, Seq<char>, Seq<char>)> {
    let i = first_idx(env, '\\', 0);
    if i >= env.len() {
        None
    } else {
        let j = first_idx(env, '\\', i + 1);
        if j >= env.len() {
            None
        } else if first_idx(env, '\\', j + 1) < env.len() {
            None
        } else {
            Some(
                (env.subrange(0, i), env.subrange(i + 1, j), env.subrange(j + 1, env.len() as int)),
            )
        }
    }
}

/// What decrypting an envelope under a key yields: the plaintext when the
/// envelope has exactly three hex fields, the nonce and tag have the cipher's
/// sizes, and the tag verifies; the distinguishing error otherwise.
pub open spec fn decrypt_spec(key: Seq<u8>, env: Seq<char>) -> DecryptOut {
    match envelope_fields(env) {
        Option::None => DecryptOut::Corrupted,
        Option::Some(f) => {
            if !unhex_ok(f.0) || !unhex_ok(f.1) || !unhex_ok(f.2) {
                DecryptOut::Corrupted
            } else {
                let nonce = unhex(f.0);
                let tag = unhex(f.1);
                let body = unhex(f.2);
                if key.len() != 32 {
                    DecryptOut::InitFailure
                } else if nonce.len() != 16 || tag.len() != 16 {
                    DecryptOut::Corrupted
                } else if body.len() > eax_cipher_max() {
                    DecryptOut::AuthFailure
                } else if tag != eax_tag_of(key, nonce, body) {
                    DecryptOut::AuthFailure
                } else if valid_utf8(eax_plain_of(key, nonce, body)) {
                    DecryptOut::Plain(decode_utf8(eax_plain_of(key, nonce, body)))
                } else {
                    DecryptOut::NotText
                }
            }
        },
    }
}

/// The error a decryption outcome surfaces as.
pub open spec fn crypto_err_of(d: DecryptOut) -> CryptoError {
    match d {
        DecryptOut::Corrupted => CryptoError::Corrupted,
        DecryptOut::InitFailure => CryptoError::InitFailure,
        DecryptOut::AuthFailure => CryptoError::AuthFailure,
        DecryptOut::NotText => CryptoError::NotText,
        DecryptOut::Plain(_) => CryptoError::AuthFailure,
    }
}

/// Law: an envelope without exactly three hex fields yields the structural
/// error, never the authentication error.
pub proof fn lemma_malformed_is_corrupted(key: Seq<u8>, env: Seq<char>)
    requires
        match envelope_fields(env) {
            Option::None => true,
            Option::Some(f) => !unhex_ok(f.0) || !unhex_ok(f.1) || !unhex_ok(f.2),
        },
    ensures
        decrypt_spec(key, env) == DecryptOut::Corrupted,
        decrypt_spec(key, env) != DecryptOut::AuthFailure,
{
}

/// Law: a well-formed envelope whose tag field is not the ciphertext's MAC
/// is rejected with the authentication error — no plaintext outcome exists
/// for it.
pub proof fn lemma_forged_tag_fails(key: Seq<u8>, env: Seq<char>)
    requires
        key.len() == 32,
        envelope_fields(env) matches Some(f) && {
            &&& unhex_ok(f.0) && unhex_ok(f.1) && unhex_ok(f.2)
            &&& unhex(f.0).len() == 16
            &&& unhex(f.1).len() == 16
            &&& unhex(f.2).len() <= eax_cipher_max()
            &&& unhex(f.1) != eax_tag_of(key, unhex(f.0), unhex(f.2))
        },
    ensures
        decrypt_spec(key, env) == DecryptOut::AuthFailure,
{
}

/// Authenticated encryption and decryption of single strings under one key.
pub struct Crypto {
    key: Vec<u8>,
}

impl View for Crypto {
    type V = Seq<u8>;

    closed spec fn view(&self) -> Seq<u8> {
        self.key@
    }
}

impl Crypto {
    /// Wraps a raw key. Only a 32-byte key can encrypt or decrypt.
    pub fn new(key: Vec<u8>) -> (r: Self)
        ensures
            r@ == key@,
    {
        Self { key }
    }

    /// Encrypts a string into a fresh-nonce envelope. Decrypting any envelope
    /// this returns under the same key yields the original string.
    pub fn encrypt(&self, raw: &str) -> (r: Result<String, CryptoError>)
        ensures
            self@.len() != 32 ==> (r matches Err(e) && e is InitFailure),
            self@.len() == 32 && encode_utf8(raw@).len() > eax_plain_max() ==> (r matches Err(e)
                && e is EncryptFailure),
            self@.len() == 32 && encode_utf8(raw@).len() <= eax_plain_max() ==> r is Ok,
            r matches Ok(env) ==> decrypt_spec(self@, env@) == DecryptOut::Plain(raw@),
            r matches Ok(env) ==> exists|n: Seq<u8>, t: Seq<u8>, b: Seq<u8>|
                {
                    &&& env@ == #[trigger] hex_of(n) + seq!['\\'] + #[trigger] hex_of(t)
                        + seq!['\\'] + #[trigger] hex_of(b)
                    &&& n.len() == 16
                    &&& t.len() == 16
                    &&& b.len() == encode_utf8(raw@).len()
                },
    {
        if self.key.len() != 32 {
            return Err(CryptoError::InitFailure);
        }
        let plain = raw.as_bytes_vec();
        if plain.len() as u64 > 0x1000000000u64 {
            return Err(CryptoError::EncryptFailure);
        }
        let nonce = generate_nonce();
        let (tag, body) = match eax_encrypt(&self.key, &nonce, &plain) {
            Ok(p) => p,
            Err(_) => {
                return Err(CryptoError::EncryptFailure);
            },
        };
        let mut env = hex_encode(nonce.as_slice());
        let tag_hex = hex_encode(tag.as_slice());
        let body_hex = hex_encode(body.as_slice());
        env.append("\\");
        env.append(tag_hex.as_str());
        env.append("\\");
        env.append(body_hex.as_str());
        proof {
            reveal_strlit("\\");
            assert("\\"@ =~= seq!['\\']);
            let key = self.key@;
            let nh = hex_of(nonce@);
            let th = hex_of(tag@);
            let bh = hex_of(body@);
            let e = env@;
            assert(e =~= nh + seq!['\\'] + th + seq!['\\'] + bh);
            assert(e == hex_of(nonce@) + seq!['\\'] + hex_of(tag@) + seq!['\\'] + hex_of(body@)
                && nonce@.len() == 16 && tag@.len() == 16 && body@.len() == encode_utf8(
                raw@,
            ).len());
            let i = nh.len() as int;
            let j = i + 1 + th.len();
            assert(e.len() == nh.len() + 1 + th.len() + 1 + bh.len());
            assert(e[i] == '\\');
            assert(e[j] == '\\');
            lemma_hex_no_backslash(nonce@);
            lemma_hex_no_backslash(tag@);
            lemma_hex_no_backslash(body@);
            assert(forall|q: int| 0 <= q < i ==> e[q] == nh[q] && e[q] != '\\');
            assert(forall|q: int| i + 1 <= q < j ==> e[q] == th[q - i - 1] && e[q] != '\\');
            assert(forall|q: int|
                j + 1 <= q < e.len() ==> e[q] == bh[q - j - 1] && e[q] != '\\');
            lemma_first_idx(e, '\\', 0);
            let f1 = first_idx(e, '\\', 0);
            if f1 < i {
                assert(e[f1] != '\\');
            }
            assert(f1 == i);
            lemma_first_idx(e, '\\', i + 1);
            let f2 = first_idx(e, '\\', i + 1);
            if f2 < j {
                assert(e[f2] != '\\');
            }
            assert(f2 == j);
            lemma_first_idx(e, '\\', j + 1);
            let f3 = first_idx(e, '\\', j + 1);
            if f3 < e.len() {
                assert(e[f3] != '\\');
                assert(false);
            }
            assert(envelope_fields(e) matches Some(f) && f.0 =~= nh && f.1 =~= th && f.2 =~= bh);
            lemma_hex_round_trip(nonce@);
            lemma_hex_round_trip(tag@);
            lemma_hex_round_trip(body@);
            encode_utf8_valid_utf8(raw@);
            encode_utf8_decode_utf8(raw@);
            assert(decrypt_spec(key, e) == DecryptOut::Plain(raw@));
        }
        Ok(env)
    }

    /// Decrypts an envelope, failing closed exactly as `decrypt_spec` says:
    /// a malformed envelope is rejected as corrupted before any cryptographic
    /// check, and a tag that does not verify releases no plaintext.
    pub fn decrypt(&self, enc: &str) -> (r: Result<String, CryptoError>)
        ensures
            match decrypt_spec(self@, enc@) {
                DecryptOut::Plain(s) => r matches Ok(v) && v@ == s,
                DecryptOut::Corrupted => r matches Err(e) && e is Corrupted,
                DecryptOut::InitFailure => r matches Err(e) && e is InitFailure,
                DecryptOut::AuthFailure => r matches Err(e) && e is AuthFailure,
                DecryptOut::NotText => r matches Err(e) && e is NotText,
            },
    {
        let n = enc.unicode_len();
        let i = find_from(enc, '\\', 0);
        if i >= n {
            return Err(CryptoError::Corrupted);
        }
        let j = find_from(enc, '\\', i + 1);
        if j >= n {
            return Err(CryptoError::Corrupted);
        }
        let extra = find_from(enc, '\\', j + 1);
        if extra < n {
            return Err(CryptoError::Corrupted);
        }
        let nonce_hex = enc.substring_char(0, i);
        let tag_hex = enc.substring_char(i + 1, j);
        let body_hex = enc.substring_char(j + 1, n);
        let nonce = match hex_decode(nonce_hex) {
            Ok(v) => v,
            Err(_) => {
                return Err(CryptoError::Corrupted);
            },
        };
        let tag = match hex_decode(tag_hex) {
            Ok(v) => v,
            Err(_) => {
                return Err(CryptoError::Corrupted);
            },
        };
        let body = match hex_decode(body_hex) {
            Ok(v) => v,
            Err(_) => {
                return Err(CryptoError::Corrupted);
            },
        };
        if self.key.len() != 32 {
            return Err(CryptoError::InitFailure);
        }
        if nonce.len() != 16 || tag.len() != 16 {
            return Err(CryptoError::Corrupted);
        }
        if body.len() as u64 > 0x1000000010u64 {
            return Err(CryptoError::AuthFailure);
        }
        let data = match eax_decrypt(&self.key, &nonce, &tag, &body) {
            Ok(v) => v,
            Err(_) => {
                return Err(CryptoError::AuthFailure);
            },
        };
        match bytes_to_string(data) {
            Ok(s) => {
                proof {
                    encode_utf8_decode_utf8(s@);
                }
                Ok(s)
            },
            Err(_) => Err(CryptoError::NotText),
        }
    }
}

} // verus!
