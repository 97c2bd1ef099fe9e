//! The primitives that the sealing of a snapshot is made of: key derivation,
//! authenticated encryption, randomness, encoding and wiping. Each function makes
//! the calls of one of them, and nothing else.
use vstd::prelude::*;
use vstd::utf8::encode_utf8;

verus! {

/// The error of every operation of `aws_lc_rs`, which says nothing further.
#[verifier::external_type_specification]
#[verifier::external_body]
pub struct ExUnspecified(aws_lc_rs::error::Unspecified);

/// The step at which a key derivation failed.
#[derive(Debug, Clone, Copy, PartialEq, Eq, Structural)]
pub enum KdfFailure {
    Expand,
    Fill,
}

/// The step at which an encryption or a decryption failed.
#[derive(Debug, Clone, Copy, PartialEq, Eq, Structural)]
pub enum AeadFailure {
    Key,
    Operation,
}

/// The first 32 bytes that HKDF-SHA256 derives from `secret` and `salt` for
/// `info`.
pub uninterp spec fn hkdf_sha256(secret: Seq<u8>, salt: Seq<u8>, info: Seq<u8>) -> Seq<u8>;

/// What AES-256-GCM makes of `plaintext`: the ciphertext with its tag.
pub uninterp spec fn aes_256_gcm_sealed(
    key: Seq<u8>,
    nonce: Seq<u8>,
    associated: Seq<u8>,
    plaintext: Seq<u8>,
) -> Seq<u8>;

/// The plaintext that AES-256-GCM finds in `sealed`, if it is authentic.
pub uninterp spec fn aes_256_gcm_opened(
    key: Seq<u8>,
    nonce: Seq<u8>,
    associated: Seq<u8>,
    sealed: Seq<u8>,
) -> Option<Seq<u8>>;

/// The Base64 text of `bytes`, with padding.
pub uninterp spec fn base64_encoded(bytes: Seq<u8>) -> Seq<char>;

/// The bytes of a Base64 text, or what is wrong with it.
pub type Decoded = Result<Seq<u8>, Seq<char>>;

/// What decoding a Base64 `text` gives.
pub uninterp spec fn base64_decoded(text: Seq<char>) -> Decoded;

/// Whether `c` may stand in a Base64 text: `[A-Za-z0-9+/=]`.
pub open spec fn is_base64_char(c: char) -> bool {
    'A' <= c <= 'Z' || 'a' <= c <= 'z' || '0' <= c <= '9' || c == '+' || c == '/' || c == '='
}

/// Whether `text` is made of the characters of a Base64 text.
pub open spec fn is_base64_text(text: Seq<char>) -> bool {
    forall|i: int| 0 <= i < text.len() ==> is_base64_char(#[trigger] text[i])
}

/// Calls `aws_lc_rs::hkdf`: `Salt::new` and `Salt::extract`, then `Prk::expand`
/// and `Okm::fill` into `out`, all with HKDF-SHA256.
///
/// Claimed of it: the length of `out` stays. Where it is 32, the length of one
/// digest, the call succeeds, and what `out` holds is a function of the secret,
/// the salt and the info. Where it is another, the filling fails; expanding never
/// does.
#[verifier::external_body]
pub(crate) fn hkdf_fill(secret: &str, salt: &Vec<u8>, info: &str, out: &mut Vec<u8>) -> (r: Result<
    (),
    KdfFailure,
>)
    ensures
        final(out)@.len() == old(out)@.len(),
        r is Ok ==> final(out)@ == hkdf_sha256(encode_utf8(secret@), salt@, encode_utf8(info@)),
        r is Ok <==> old(out)@.len() == 32,
        !(r matches Err(KdfFailure::Expand)),
{
    let salt = aws_lc_rs::hkdf::Salt::new(aws_lc_rs::hkdf::HKDF_SHA256, salt);
    let prk = salt.extract(secret.as_bytes());
    match prk.expand(&[info.as_bytes()], aws_lc_rs::hkdf::HKDF_SHA256) {
        Err(_) => Err(KdfFailure::Expand),
        Ok(okm) => match okm.fill(out) {
            Err(_) => Err(KdfFailure::Fill),
            Ok(_) => Ok(()),
        },
    }
}

/// Calls `aws_lc_rs::rand::fill`.
///
/// Claimed of it: the length of `out` stays. The bytes are random, so nothing is
/// claimed of them.
#[verifier::external_body]
pub(crate) fn fill_random(out: &mut Vec<u8>) -> (r: Result<(), aws_lc_rs::error::Unspecified>)
    ensures
        final(out)@.len() == old(out)@.len(),
{
    aws_lc_rs::rand::fill(out)
}

/// Calls `aws_lc_rs::aead`: `UnboundKey::new` with AES-256-GCM, and
/// `LessSafeKey::seal_in_place_append_tag` on `in_out`.
///
/// Claimed of it, lack of memory aside: a key is refused exactly if it is not 32
/// bytes long. With a good key and associated data of at most 2^61 bytes the call
/// succeeds exactly on plaintexts of at most 2^36 - 32 bytes, the limit of the
/// mode. Where it succeeds, `in_out` holds a function of the key, the nonce, the
/// associated data and the plaintext, 16 bytes longer than the plaintext, and
/// opening it with the same key, nonce and associated data gives the plaintext
/// back. The bound that is asked for keeps the growing buffer clear of the largest
/// one there can be.
#[verifier::external_body]
pub(crate) fn seal_in_place(
    key: &Vec<u8>,
    nonce: [u8; 12],
    associated: Vec<u8>,
    in_out: &mut Vec<u8>,
) -> (r: Result<(), AeadFailure>)
    requires
        old(in_out)@.len() <= usize::MAX / 512,
    ensures
        r is Ok ==> {
            &&& key@.len() == 32
            &&& final(in_out)@ == aes_256_gcm_sealed(key@, nonce@, associated@, old(in_out)@)
            &&& final(in_out)@.len() == old(in_out)@.len() + 16
            &&& aes_256_gcm_opened(key@, nonce@, associated@, final(in_out)@) == Some(old(in_out)@)
        },
        (r matches Err(AeadFailure::Key)) <==> key@.len() != 32,
        key@.len() == 32 && associated@.len() <= 0x2000_0000_0000_0000 ==> (r is Ok <==> old(
            in_out,
        )@.len() <= 0xF_FFFF_FFE0),
{
    let Ok(key) = aws_lc_rs::aead::UnboundKey::new(&aws_lc_rs::aead::AES_256_GCM, key) else {
        return Err(AeadFailure::Key);
    };
    let nonce = aws_lc_rs::aead::Nonce::assume_unique_for_key(nonce);
    let key = aws_lc_rs::aead::LessSafeKey::new(key);
    match key.seal_in_place_append_tag(nonce, aws_lc_rs::aead::Aad::from(associated), in_out) {
        Err(_) => Err(AeadFailure::Operation),
        Ok(_) => Ok(()),
    }
}

/// Calls `aws_lc_rs::aead`: `UnboundKey::new` with AES-256-GCM, and
/// `LessSafeKey::open_in_place` on `in_out`.
///
/// Claimed of it, lack of memory aside: a key is refused exactly if it is not 32
/// bytes long. With a good key, what comes back, or that the ciphertext is invalid,
/// is a function of the key, the nonce, the associated data and the ciphertext.
/// What is left in `in_out` is not claimed.
#[verifier::external_body]
pub(crate) fn open_in_place(
    key: &Vec<u8>,
    nonce: [u8; 12],
    associated: Vec<u8>,
    in_out: &mut Vec<u8>,
) -> (r: Result<Vec<u8>, AeadFailure>)
    ensures
        match r {
            Ok(plaintext) => key@.len() == 32 && aes_256_gcm_opened(
                key@,
                nonce@,
                associated@,
                old(in_out)@,
            ) == Some(plaintext@),
            Err(AeadFailure::Operation) => key@.len() == 32 && aes_256_gcm_opened(
                key@,
                nonce@,
                associated@,
                old(in_out)@,
            ) is None,
            Err(AeadFailure::Key) => key@.len() != 32,
        },
{
    let Ok(key) = aws_lc_rs::aead::UnboundKey::new(&aws_lc_rs::aead::AES_256_GCM, key) else {
        return Err(AeadFailure::Key);
    };
    let nonce = aws_lc_rs::aead::Nonce::assume_unique_for_key(nonce);
    let key = aws_lc_rs::aead::LessSafeKey::new(key);
    match key.open_in_place(nonce, aws_lc_rs::aead::Aad::from(associated), in_out) {
        Err(_) => Err(AeadFailure::Operation),
        Ok(plaintext) => Ok(plaintext.to_vec()),
    }
}

/// Calls `data_encoding::BASE64.encode`, which does not panic up to the length
/// that is asked for here.
///
/// Claimed of it: the text is a function of the bytes, made of the characters
/// of the alphabet and of padding, four for every three bytes or part of them,
/// and decoding it gives the bytes back.
#[verifier::external_body]
pub(crate) fn to_base64(bytes: &Vec<u8>) -> (r: String)
    requires
        bytes@.len() <= usize::MAX / 512,
    ensures
        r@ == base64_encoded(bytes@),
        base64_decoded(r@) == Decoded::Ok(bytes@),
        r@.len() == (bytes@.len() + 2) / 3 * 4,
        is_base64_text(r@),
{
    data_encoding::BASE64.encode(bytes)
}

/// Calls `data_encoding::BASE64.decode`, which does not panic up to the length
/// that is asked for here.
///
/// Claimed of it: the bytes, or the words of the error, are a function of the
/// text.
#[verifier::external_body]
pub(crate) fn from_base64(text: &str) -> (r: Result<Vec<u8>, String>)
    requires
        encode_utf8(text@).len() <= usize::MAX / 8,
    ensures
        match r {
            Ok(bytes) => base64_decoded(text@) == Decoded::Ok(bytes@),
            Err(cause) => base64_decoded(text@) == Decoded::Err(cause@),
        },
{
    match data_encoding::BASE64.decode(text.as_bytes()) {
        Err(error) => Err(error.to_string()),
        Ok(bytes) => Ok(bytes),
    }
}

/// Calls `zeroize::Zeroize::zeroize`.
///
/// Claimed of it: nothing is left in `bytes`. That the memory is overwritten
/// cannot be said of a value.
#[verifier::external_body]
pub(crate) fn wipe(bytes: &mut Vec<u8>)
    ensures
        final(bytes)@.len() == 0,
{
    zeroize::Zeroize::zeroize(bytes)
}

} // verus!
