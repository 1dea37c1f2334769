//! The encryption of update-server requests and answers: AES-128 in CBC
//! mode with PKCS#7 padding under the session key, carried as base64.
use vstd::prelude::*;
use vstd::string::StringSliceAdditionalSpecFns;
use vstd::utf8::{decode_utf8, encode_utf8, valid_utf8};
use base64::Engine;
use cbc::cipher::{block_padding::Pkcs7, BlockDecryptMut, BlockEncryptMut, KeyIvInit};
use crate::hls::{base64_decode, base64_decoded};
use crate::rom_security::{base64_nopad_decode, base64_nopad_decoded};
use crate::soda_key::{utf8_error_text, utf8_string};
use crate::text::{trim_spec, trim_str};

verus! {

/// What AES-128 in CBC mode with PKCS#7 padding encrypts a message to,
/// under a 16-byte key and a 16-byte IV.
pub uninterp spec fn aes_cbc_encrypted(key: Seq<u8>, iv: Seq<u8>, msg: Seq<u8>) -> Seq<u8>;

/// What it decrypts a ciphertext to; nothing when the padding is not valid.
pub uninterp spec fn aes_cbc_decrypted(key: Seq<u8>, iv: Seq<u8>, data: Seq<u8>) -> Option<Seq<u8>>;

/// `cbc::Encryptor::<aes::Aes128>::new_from_slices` then
/// `encrypt_padded_vec_mut::<Pkcs7>`: the ciphertext, or the text of the
/// `InvalidLength` error (`Invalid Length`) when the key or IV is not 16
/// bytes.
#[verifier::external_body]
fn cbc_encrypt(key: &[u8], iv: &[u8], msg: &[u8]) -> (r: Result<Vec<u8>, String>)
    ensures
        match r {
            Ok(v) => key@.len() == 16 && iv@.len() == 16 && v@ == aes_cbc_encrypted(key@, iv@, msg@),
            Err(e) => !(key@.len() == 16 && iv@.len() == 16) && e@ == "Invalid Length"@,
        },
{
    match cbc::Encryptor::<aes::Aes128>::new_from_slices(key, iv) {
        Ok(c) => Ok(c.encrypt_padded_vec_mut::<Pkcs7>(msg)),
        Err(e) => Err(e.to_string()),
    }
}

/// `cbc::Decryptor::<aes::Aes128>::new_from_slices` then
/// `decrypt_padded_vec_mut::<Pkcs7>`: the message, or the text of the
/// error: `Invalid Length` for a key or IV that is not 16 bytes, `Unpad
/// Error` for bad padding. A ciphertext of a message decrypts to it.
#[verifier::external_body]
fn cbc_decrypt(key: &[u8], iv: &[u8], data: &[u8]) -> (r: Result<Vec<u8>, String>)
    ensures
        match r {
            Ok(v) => key@.len() == 16 && iv@.len() == 16 && aes_cbc_decrypted(key@, iv@, data@) == Some(
                v@,
            ) && forall|m: Seq<u8>| data@ == #[trigger] aes_cbc_encrypted(key@, iv@, m) ==> v@ == m,
            Err(e) => if key@.len() == 16 && iv@.len() == 16 {
                aes_cbc_decrypted(key@, iv@, data@) is None && e@ == "Unpad Error"@ && forall|m: Seq<u8>|
                    data@ != #[trigger] aes_cbc_encrypted(key@, iv@, m)
            } else {
                e@ == "Invalid Length"@
            },
        },
{
    match cbc::Decryptor::<aes::Aes128>::new_from_slices(key, iv) {
        Ok(c) => c.decrypt_padded_vec_mut::<Pkcs7>(data).map_err(|e| e.to_string()),
        Err(e) => Err(e.to_string()),
    }
}

/// What the URL-safe base64 engine (alphabet `A–Z a–z 0–9 - _`, with
/// padding) encodes a byte string to.
pub uninterp spec fn url_safe_encoded(data: Seq<u8>) -> Seq<char>;

/// `base64::engine::general_purpose::URL_SAFE.encode`; the text depends on
/// the bytes alone.
#[verifier::external_body]
fn url_safe_encode(data: &[u8]) -> (r: String)
    ensures
        r@ == url_safe_encoded(data@),
{
    base64::engine::general_purpose::URL_SAFE.encode(data)
}

/// The IV of the update server's encryption, `0102030405060708`.
pub open spec fn miui_iv() -> Seq<u8> {
    seq![48u8, 49, 48, 50, 48, 51, 48, 52, 48, 53, 48, 54, 48, 55, 48, 56]
}

fn iv_bytes() -> (r: Vec<u8>)
    ensures
        r@ == miui_iv(),
{
    let r = vec![48u8, 49, 48, 50, 48, 51, 48, 52, 48, 53, 48, 54, 48, 55, 48, 56];
    proof {
        assert(r@ =~= miui_iv());
    }
    r
}

/// A request encrypted under the key: the ciphertext of its UTF-8 bytes in
/// URL-safe base64; refused for a key that is not 16 bytes.
pub open spec fn miui_encrypt_spec(json: Seq<char>, key: Seq<u8>) -> Result<Seq<char>, Seq<char>> {
    if key.len() == 16 {
        Ok(url_safe_encoded(aes_cbc_encrypted(key, miui_iv(), encode_utf8(json))))
    } else {
        Err("Invalid Length"@)
    }
}

pub fn miui_encrypt(json_request: &str, security_key: &[u8]) -> (r: Result<String, String>)
    ensures
        match miui_encrypt_spec(json_request@, security_key@) {
            Ok(t) => r matches Ok(s) && s@ == t,
            Err(m) => r matches Err(e) && e@ == m,
        },
{
    let iv = iv_bytes();
    match cbc_encrypt(security_key, &iv, json_request.as_bytes()) {
        Ok(v) => Ok(url_safe_encode(&v)),
        Err(e) => Err(e),
    }
}

/// An answer decrypted under the key: its trimmed base64 (with or without
/// padding) decoded, decrypted and read as UTF-8; or the reason it cannot
/// be.
pub open spec fn miui_decrypt_spec(text: Seq<char>, key: Seq<u8>) -> Result<Seq<char>, Seq<char>> {
    let t = trim_spec(text);
    let bytes = match base64_decoded(t) {
        Ok(b) => Ok(b),
        Err(_) => base64_nopad_decoded(t),
    };
    match bytes {
        Err(e) => Err(e),
        Ok(b) => if key.len() != 16 {
            Err("Invalid Length"@)
        } else {
            match aes_cbc_decrypted(key, miui_iv(), b) {
                None => Err("Unpad Error"@),
                Some(m) => if valid_utf8(m) {
                    Ok(decode_utf8(m))
                } else {
                    Err(utf8_error_text(m))
                },
            }
        },
    }
}

pub fn miui_decrypt(encrypted_text: &str, security_key: &[u8]) -> (r: Result<String, String>)
    ensures
        match miui_decrypt_spec(encrypted_text@, security_key@) {
            Ok(t) => r matches Ok(s) && s@ == t,
            Err(m) => r matches Err(e) && e@ == m,
        },
{
    let t = trim_str(encrypted_text);
    let bytes = match base64_decode(t.as_str()) {
        Ok(b) => b,
        Err(_) => match base64_nopad_decode(t.as_str()) {
            Ok(b) => b,
            Err(e) => {
                return Err(e);
            },
        },
    };
    let iv = iv_bytes();
    let plain = match cbc_decrypt(security_key, &iv, &bytes) {
        Ok(p) => p,
        Err(e) => {
            return Err(e);
        },
    };
    utf8_string(plain)
}

} // verus!
