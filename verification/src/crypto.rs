//! Authenticated encryption for the on-disk secret snapshot.
//!
//! # The key, and why it is the Infisical client secret
//!
//! The snapshot is encrypted with AES-256-GCM under a key derived (HKDF-SHA256)
//! from the provider's own Infisical client secret plus a random per-file salt.
//! There is no separate key to generate, mount, rotate or lose.
//!
//! It does **not** defend against an attacker who has already compromised the
//! process, who holds the client secret and can simply ask Infisical for the
//! same values. What it does defend is the file *at rest and away from that
//! process*: volume backups, disk images, a stray `cp`, or anyone with read
//! access to the host filesystem.
//!
//! Deriving from the client secret also fails safe on rotation: rotate the
//! credential and the old snapshot simply stops decrypting, so the provider
//! discards it and re-fetches.
use vstd::prelude::*;
use vstd::utf8::{encode_utf8, encode_utf8_decode_utf8, is_ascii_chars_encode_utf8};

use crate::number::{decimal, decimal_reads_back, decimal_text};
use crate::primitives::{
    aes_256_gcm_opened, aes_256_gcm_sealed, base64_decoded, base64_encoded, fill_random,
    from_base64, hkdf_fill, hkdf_sha256, is_base64_text, open_in_place, seal_in_place, to_base64,
    wipe, AeadFailure, Decoded, KdfFailure,
};
use crate::text::{is_free_of, lemma_equal_up_to, same_text};

verus! {

/// The length of a salt in bytes.
pub const SALT_LEN: usize = 32;

/// The length of a key in bytes.
pub const KEY_LEN: usize = 32;

/// The length of a nonce in bytes.
pub const NONCE_LEN: usize = 12;

/// The length of the tag behind a ciphertext in bytes.
pub const TAG_LEN: usize = 16;

/// The length in bytes of the longest plaintext that the cipher takes.
pub const MAX_PLAINTEXT_LEN: u64 = 0xF_FFFF_FFE0;

/// Domain separation for the KDF, so this key can never collide with another
/// use of the same client secret.
pub const HKDF_INFO: &'static str = "komodo-infisical-snapshot-v1";

/// The name of the key derivation in an envelope.
pub const KDF_NAME: &'static str = "hkdf-sha256";

/// The name of the cipher in an envelope.
pub const CIPHER_NAME: &'static str = "aes-256-gcm";

/// The version of the envelopes that are written and read.
pub const ENVELOPE_VERSION: u32 = 1;

/// What actually lands on disk. Only the ciphertext carries secret material.
#[derive(Debug)]
pub struct Envelope {
    pub version: u32,
    pub kdf: String,
    pub cipher: String,
    pub salt: String,
    pub nonce: String,
    pub ciphertext: String,
}

/// The view of an [`Envelope`].
pub struct EnvelopeView {
    pub version: u32,
    pub kdf: Seq<char>,
    pub cipher: Seq<char>,
    pub salt: Seq<char>,
    pub nonce: Seq<char>,
    pub ciphertext: Seq<char>,
}

impl View for Envelope {
    type V = EnvelopeView;

    open spec fn view(&self) -> EnvelopeView {
        EnvelopeView {
            version: self.version,
            kdf: self.kdf@,
            cipher: self.cipher@,
            salt: self.salt@,
            nonce: self.nonce@,
            ciphertext: self.ciphertext@,
        }
    }
}

/// Why a snapshot could not be sealed or opened.
#[derive(Debug)]
pub enum CryptoError {
    /// No random bytes for a salt.
    GenerateSalt,
    /// No random bytes for a nonce.
    GenerateNonce,
    /// The key could not be expanded.
    ExpandKey,
    /// The key could not be derived.
    DeriveKey,
    /// The derived key was not accepted for encryption.
    EncryptionKey,
    /// The derived key was not accepted for decryption.
    DecryptionKey,
    /// The encryption failed.
    Encrypt,
    /// The envelope has another version.
    Version { version: u32 },
    /// The envelope names other algorithms.
    Algorithms { kdf: String, cipher: String },
    /// The salt is not Base64.
    SaltEncoding { cause: String },
    /// The nonce is not Base64.
    NonceEncoding { cause: String },
    /// The nonce has the wrong length.
    NonceLength,
    /// The ciphertext is not Base64.
    CiphertextEncoding { cause: String },
    /// The ciphertext is not authentic under this key and header.
    Decrypt,
}

/// The view of a [`CryptoError`].
pub enum CryptoErrorView {
    GenerateSalt,
    GenerateNonce,
    ExpandKey,
    DeriveKey,
    EncryptionKey,
    DecryptionKey,
    Encrypt,
    Version { version: u32 },
    Algorithms { kdf: Seq<char>, cipher: Seq<char> },
    SaltEncoding { cause: Seq<char> },
    NonceEncoding { cause: Seq<char> },
    NonceLength,
    CiphertextEncoding { cause: Seq<char> },
    Decrypt,
}

impl View for CryptoError {
    type V = CryptoErrorView;

    open spec fn view(&self) -> CryptoErrorView {
        match self {
            CryptoError::GenerateSalt => CryptoErrorView::GenerateSalt,
            CryptoError::GenerateNonce => CryptoErrorView::GenerateNonce,
            CryptoError::ExpandKey => CryptoErrorView::ExpandKey,
            CryptoError::DeriveKey => CryptoErrorView::DeriveKey,
            CryptoError::EncryptionKey => CryptoErrorView::EncryptionKey,
            CryptoError::DecryptionKey => CryptoErrorView::DecryptionKey,
            CryptoError::Encrypt => CryptoErrorView::Encrypt,
            CryptoError::Version { version } => CryptoErrorView::Version { version: *version },
            CryptoError::Algorithms { kdf, cipher } => CryptoErrorView::Algorithms {
                kdf: kdf@,
                cipher: cipher@,
            },
            CryptoError::SaltEncoding { cause } => CryptoErrorView::SaltEncoding { cause: cause@ },
            CryptoError::NonceEncoding { cause } => CryptoErrorView::NonceEncoding { cause: cause@ },
            CryptoError::NonceLength => CryptoErrorView::NonceLength,
            CryptoError::CiphertextEncoding { cause } => CryptoErrorView::CiphertextEncoding {
                cause: cause@,
            },
            CryptoError::Decrypt => CryptoErrorView::Decrypt,
        }
    }
}

/// The words of an error.
pub open spec fn error_text(error: CryptoErrorView) -> Seq<char> {
    match error {
        CryptoErrorView::GenerateSalt => "failed to generate a snapshot salt"@,
        CryptoErrorView::GenerateNonce => "failed to generate a snapshot nonce"@,
        CryptoErrorView::ExpandKey => "failed to expand the snapshot encryption key"@,
        CryptoErrorView::DeriveKey => "failed to derive the snapshot encryption key"@,
        CryptoErrorView::EncryptionKey => "failed to build the snapshot encryption key"@,
        CryptoErrorView::DecryptionKey => "failed to build the snapshot decryption key"@,
        CryptoErrorView::Encrypt => "failed to encrypt the snapshot"@,
        CryptoErrorView::Version { version } => "snapshot envelope version "@ + decimal(
            version as nat,
        ) + " is not supported (expected "@ + decimal(ENVELOPE_VERSION as nat) + ")"@,
        CryptoErrorView::Algorithms { kdf, cipher } => "snapshot uses unsupported algorithms ("@
            + kdf + " / "@ + cipher + ")"@,
        CryptoErrorView::SaltEncoding { cause } => "snapshot salt is not valid base64: "@ + cause,
        CryptoErrorView::NonceEncoding { cause } => "snapshot nonce is not valid base64: "@ + cause,
        CryptoErrorView::NonceLength => "snapshot nonce has the wrong length"@,
        CryptoErrorView::CiphertextEncoding { cause } => {
            "snapshot ciphertext is not valid base64: "@ + cause
        },
        CryptoErrorView::Decrypt => {
            "could not decrypt the snapshot -- it was written under a different Infisical client secret, or the file has been tampered with"@
        },
    }
}

impl CryptoError {
    /// Says in words what went wrong.
    pub fn message(&self) -> (r: String)
        ensures
            r@ == error_text(self@),
    {
        match self {
            CryptoError::GenerateSalt => "failed to generate a snapshot salt".to_owned(),
            CryptoError::GenerateNonce => "failed to generate a snapshot nonce".to_owned(),
            CryptoError::ExpandKey => "failed to expand the snapshot encryption key".to_owned(),
            CryptoError::DeriveKey => "failed to derive the snapshot encryption key".to_owned(),
            CryptoError::EncryptionKey => "failed to build the snapshot encryption key".to_owned(),
            CryptoError::DecryptionKey => "failed to build the snapshot decryption key".to_owned(),
            CryptoError::Encrypt => "failed to encrypt the snapshot".to_owned(),
            CryptoError::Version { version } => {
                let mut r = "snapshot envelope version ".to_owned();
                r.append(decimal_text(*version as u64).as_str());
                r.append(" is not supported (expected ");
                r.append(decimal_text(ENVELOPE_VERSION as u64).as_str());
                r.append(")");
                r
            },
            CryptoError::Algorithms { kdf, cipher } => {
                let mut r = "snapshot uses unsupported algorithms (".to_owned();
                r.append(kdf.as_str());
                r.append(" / ");
                r.append(cipher.as_str());
                r.append(")");
                r
            },
            CryptoError::SaltEncoding { cause } => {
                let mut r = "snapshot salt is not valid base64: ".to_owned();
                r.append(cause.as_str());
                r
            },
            CryptoError::NonceEncoding { cause } => {
                let mut r = "snapshot nonce is not valid base64: ".to_owned();
                r.append(cause.as_str());
                r
            },
            CryptoError::NonceLength => "snapshot nonce has the wrong length".to_owned(),
            CryptoError::CiphertextEncoding { cause } => {
                let mut r = "snapshot ciphertext is not valid base64: ".to_owned();
                r.append(cause.as_str());
                r
            },
            CryptoError::Decrypt => {
                "could not decrypt the snapshot -- it was written under a different Infisical client secret, or the file has been tampered with".to_owned()
            },
        }
    }
}

/// The header of an envelope: all of it but the ciphertext.
pub open spec fn header(envelope: EnvelopeView) -> Seq<char> {
    decimal(envelope.version as nat) + "|"@ + envelope.kdf + "|"@ + envelope.cipher + "|"@
        + envelope.salt + "|"@ + envelope.nonce
}

/// Binds the header to the ciphertext, so the salt, nonce or algorithm names
/// cannot be swapped without the tag check failing.
pub fn associated_data(envelope: &Envelope) -> (r: Vec<u8>)
    ensures
        r@ == encode_utf8(header(envelope@)),
{
    let mut text = decimal_text(envelope.version as u64);
    text.append("|");
    text.append(envelope.kdf.as_str());
    text.append("|");
    text.append(envelope.cipher.as_str());
    text.append("|");
    text.append(envelope.salt.as_str());
    text.append("|");
    text.append(envelope.nonce.as_str());
    text.as_str().as_bytes_vec()
}

/// The key that a client secret and a salt give.
pub open spec fn snapshot_key(client_secret: Seq<char>, salt: Seq<u8>) -> Seq<u8> {
    hkdf_sha256(encode_utf8(client_secret), salt, encode_utf8(HKDF_INFO@))
}

/// Derives the key for a client secret and a salt.
pub fn derive_key(client_secret: &str, salt: &Vec<u8>) -> (r: Result<Vec<u8>, CryptoError>)
    ensures
        r is Ok,
        r->Ok_0@ == snapshot_key(client_secret@, salt@),
        r->Ok_0@.len() == KEY_LEN,
{
    let mut key: Vec<u8> = vec![0u8; KEY_LEN];
    let outcome = hkdf_fill(client_secret, salt, HKDF_INFO, &mut key);
    derived(outcome, key)
}

/// Says what a key derivation into `key` came to.
pub fn derived(outcome: Result<(), KdfFailure>, key: Vec<u8>) -> (r: Result<Vec<u8>, CryptoError>)
    ensures
        match outcome {
            Ok(_) => r is Ok && r->Ok_0@ == key@,
            Err(KdfFailure::Expand) => r is Err && r->Err_0@ is ExpandKey,
            Err(KdfFailure::Fill) => r is Err && r->Err_0@ is DeriveKey,
        },
{
    match outcome {
        Ok(_) => Ok(key),
        Err(KdfFailure::Expand) => Err(CryptoError::ExpandKey),
        Err(KdfFailure::Fill) => Err(CryptoError::DeriveKey),
    }
}

/// The envelope of `plaintext` under a key, a salt and a nonce.
pub open spec fn sealed_envelope(
    plaintext: Seq<u8>,
    key: Seq<u8>,
    salt: Seq<u8>,
    nonce: Seq<u8>,
) -> EnvelopeView {
    let open = EnvelopeView {
        version: ENVELOPE_VERSION,
        kdf: KDF_NAME@,
        cipher: CIPHER_NAME@,
        salt: base64_encoded(salt),
        nonce: base64_encoded(nonce),
        ciphertext: Seq::empty(),
    };
    EnvelopeView {
        ciphertext: base64_encoded(
            aes_256_gcm_sealed(key, nonce, encode_utf8(header(open)), plaintext),
        ),
        ..open
    }
}

/// What an envelope holds, decoded.
pub struct PartsView {
    pub salt: Seq<u8>,
    pub nonce: Seq<u8>,
    pub ciphertext: Seq<u8>,
}

/// What an envelope holds, decoded; or why it cannot be read.
pub open spec fn parts_of(envelope: EnvelopeView) -> Result<PartsView, CryptoErrorView> {
    if envelope.version != ENVELOPE_VERSION {
        Err(CryptoErrorView::Version { version: envelope.version })
    } else if envelope.kdf != KDF_NAME@ || envelope.cipher != CIPHER_NAME@ {
        Err(CryptoErrorView::Algorithms { kdf: envelope.kdf, cipher: envelope.cipher })
    } else {
        match base64_decoded(envelope.salt) {
            Err(cause) => Err(CryptoErrorView::SaltEncoding { cause }),
            Ok(salt) => match base64_decoded(envelope.nonce) {
                Err(cause) => Err(CryptoErrorView::NonceEncoding { cause }),
                Ok(nonce) => if nonce.len() != NONCE_LEN {
                    Err(CryptoErrorView::NonceLength)
                } else {
                    match base64_decoded(envelope.ciphertext) {
                        Err(cause) => Err(CryptoErrorView::CiphertextEncoding { cause }),
                        Ok(ciphertext) => Ok(PartsView { salt, nonce, ciphertext }),
                    }
                },
            },
        }
    }
}

/// What an envelope opens to with a key: the plaintext, or why it does not.
pub open spec fn opened_with(envelope: EnvelopeView, key: Seq<u8>) -> Result<
    Seq<u8>,
    CryptoErrorView,
> {
    match parts_of(envelope) {
        Err(error) => Err(error),
        Ok(parts) => match aes_256_gcm_opened(
            key,
            parts.nonce,
            encode_utf8(header(envelope)),
            parts.ciphertext,
        ) {
            Some(plaintext) => Ok(plaintext),
            None => Err(CryptoErrorView::Decrypt),
        },
    }
}

/// What an envelope opens to for a client secret.
pub open spec fn opened(envelope: EnvelopeView, client_secret: Seq<char>) -> Result<
    Seq<u8>,
    CryptoErrorView,
> {
    match parts_of(envelope) {
        Err(error) => Err(error),
        Ok(parts) => opened_with(envelope, snapshot_key(client_secret, parts.salt)),
    }
}

/// Whether the texts of an envelope are short enough to be decoded.
pub open spec fn is_decodable(envelope: EnvelopeView) -> bool {
    &&& encode_utf8(envelope.salt).len() <= usize::MAX / 8
    &&& encode_utf8(envelope.nonce).len() <= usize::MAX / 8
    &&& encode_utf8(envelope.ciphertext).len() <= usize::MAX / 8
}

/// Whether a plaintext is short enough for its ciphertext to be encoded.
pub open spec fn is_sealable(plaintext: Seq<u8>) -> bool {
    plaintext.len() + TAG_LEN <= usize::MAX / 512
}

/// What an envelope holds, decoded.
#[derive(Debug)]
pub struct Parts {
    pub salt: Vec<u8>,
    pub nonce: [u8; 12],
    pub ciphertext: Vec<u8>,
}

impl View for Parts {
    type V = PartsView;

    open spec fn view(&self) -> PartsView {
        PartsView { salt: self.salt@, nonce: self.nonce@, ciphertext: self.ciphertext@ }
    }
}

fn nonce_from(bytes: &Vec<u8>) -> (nonce: [u8; 12])
    requires
        bytes@.len() == NONCE_LEN,
    ensures
        nonce@ == bytes@,
{
    let nonce: [u8; 12] = [
        bytes[0],
        bytes[1],
        bytes[2],
        bytes[3],
        bytes[4],
        bytes[5],
        bytes[6],
        bytes[7],
        bytes[8],
        bytes[9],
        bytes[10],
        bytes[11],
    ];
    assert(nonce@ =~= bytes@);
    nonce
}

/// Checks the header of an envelope and decodes what it holds.
pub fn read_parts(envelope: &Envelope) -> (r: Result<Parts, CryptoError>)
    requires
        is_decodable(envelope@),
    ensures
        match r {
            Ok(parts) => parts_of(envelope@) == Ok::<PartsView, CryptoErrorView>(parts@),
            Err(error) => parts_of(envelope@) == Err::<PartsView, CryptoErrorView>(error@),
        },
{
    if envelope.version != ENVELOPE_VERSION {
        return Err(CryptoError::Version { version: envelope.version });
    }
    if !same_text(envelope.kdf.as_str(), KDF_NAME) || !same_text(
        envelope.cipher.as_str(),
        CIPHER_NAME,
    ) {
        return Err(
            CryptoError::Algorithms { kdf: envelope.kdf.clone(), cipher: envelope.cipher.clone() },
        );
    }
    let salt = match from_base64(envelope.salt.as_str()) {
        Ok(salt) => salt,
        Err(cause) => {
            return Err(CryptoError::SaltEncoding { cause });
        },
    };
    let nonce = match from_base64(envelope.nonce.as_str()) {
        Ok(nonce) => nonce,
        Err(cause) => {
            return Err(CryptoError::NonceEncoding { cause });
        },
    };
    if nonce.len() != NONCE_LEN {
        return Err(CryptoError::NonceLength);
    }
    let nonce = nonce_from(&nonce);
    match from_base64(envelope.ciphertext.as_str()) {
        Ok(ciphertext) => Ok(Parts { salt, nonce, ciphertext }),
        Err(cause) => Err(CryptoError::CiphertextEncoding { cause }),
    }
}

/// Seals `plaintext` under a key, a salt and a nonce. A key of the wrong length is
/// refused, and so is a plaintext beyond the limit of the cipher.
pub fn seal_with(plaintext: &[u8], key: &Vec<u8>, salt: &Vec<u8>, nonce: &Vec<u8>) -> (r: Result<
    Envelope,
    CryptoError,
>)
    requires
        is_sealable(plaintext@),
        salt@.len() == SALT_LEN,
        nonce@.len() == NONCE_LEN,
    ensures
        match r {
            Ok(envelope) => {
                &&& envelope@ == sealed_envelope(plaintext@, key@, salt@, nonce@)
                &&& is_decodable(envelope@)
                &&& parts_of(envelope@) is Ok
                &&& parts_of(envelope@)->Ok_0.salt == salt@
                &&& parts_of(envelope@)->Ok_0.nonce == nonce@
                &&& parts_of(envelope@)->Ok_0.ciphertext.len() == plaintext@.len() + TAG_LEN
                &&& opened_with(envelope@, key@) == Ok::<Seq<u8>, CryptoErrorView>(plaintext@)
                &&& is_base64_text(envelope@.salt)
                &&& is_base64_text(envelope@.nonce)
                &&& is_base64_text(envelope@.ciphertext)
            },
            Err(error) => if key@.len() != KEY_LEN {
                error@ is EncryptionKey
            } else {
                error@ is Encrypt
            },
        },
        r is Ok <==> key@.len() == KEY_LEN && plaintext@.len() <= MAX_PLAINTEXT_LEN,
{
    let envelope = Envelope {
        version: ENVELOPE_VERSION,
        kdf: KDF_NAME.to_owned(),
        cipher: CIPHER_NAME.to_owned(),
        salt: to_base64(salt),
        nonce: to_base64(nonce),
        ciphertext: String::new(),
    };
    let ghost bare = envelope@;
    proof {
        lemma_header_is_short(bare);
    }
    let mut in_out = vstd::slice::slice_to_vec(plaintext);
    let outcome = seal_in_place(key, nonce_from(nonce), associated_data(&envelope), &mut in_out);
    let r = encrypted(outcome, envelope, in_out);
    proof {
        assert(bare.ciphertext =~= Seq::empty());
        if r is Ok {
            let done = r->Ok_0@;
            assert(header(done) == header(bare));
            lemma_base64_bytes(done.salt);
            lemma_base64_bytes(done.nonce);
            lemma_base64_bytes(done.ciphertext);
        }
    }
    r
}

/// Says what an encryption in `in_out` came to: where it succeeded, the envelope
/// takes the ciphertext.
pub fn encrypted(outcome: Result<(), AeadFailure>, envelope: Envelope, in_out: Vec<u8>) -> (r:
    Result<Envelope, CryptoError>)
    requires
        outcome is Ok ==> in_out@.len() <= usize::MAX / 512,
    ensures
        match outcome {
            Ok(_) => {
                &&& r is Ok
                &&& r->Ok_0@ == (EnvelopeView {
                    ciphertext: base64_encoded(in_out@),
                    ..envelope@
                })
                &&& is_base64_text(r->Ok_0@.ciphertext)
                &&& r->Ok_0@.ciphertext.len() == (in_out@.len() + 2) / 3 * 4
                &&& base64_decoded(r->Ok_0@.ciphertext) == Decoded::Ok(in_out@)
            },
            Err(AeadFailure::Key) => r is Err && r->Err_0@ is EncryptionKey,
            Err(AeadFailure::Operation) => r is Err && r->Err_0@ is Encrypt,
        },
{
    let mut envelope = envelope;
    let mut in_out = in_out;
    match outcome {
        Err(AeadFailure::Key) => Err(CryptoError::EncryptionKey),
        Err(AeadFailure::Operation) => Err(CryptoError::Encrypt),
        Ok(_) => {
            envelope.ciphertext = to_base64(&in_out);
            wipe(&mut in_out);
            Ok(envelope)
        },
    }
}

proof fn lemma_base64_bytes(text: Seq<char>)
    requires
        is_base64_text(text),
    ensures
        encode_utf8(text).len() == text.len(),
{
    is_ascii_chars_encode_utf8(text);
}

/// No character takes more than four bytes.
proof fn lemma_encoded_length(text: Seq<char>)
    ensures
        encode_utf8(text).len() <= 4 * text.len(),
    decreases text.len(),
{
    if text.len() > 0 {
        lemma_encoded_length(text.drop_first());
    }
}

/// The associated data of an envelope of this version is far below any limit.
proof fn lemma_header_is_short(envelope: EnvelopeView)
    requires
        envelope.version == ENVELOPE_VERSION,
        envelope.kdf == KDF_NAME@,
        envelope.cipher == CIPHER_NAME@,
        envelope.salt.len() <= 44,
        envelope.nonce.len() <= 16,
    ensures
        encode_utf8(header(envelope)).len() <= 400,
{
    reveal_strlit("|");
    reveal_strlit("hkdf-sha256");
    reveal_strlit("aes-256-gcm");
    lemma_encoded_length(header(envelope));
}

/// Opens an envelope with a key. A key of the wrong length is refused.
pub fn open_with(envelope: &Envelope, parts: Parts, key: &Vec<u8>) -> (r: Result<
    Vec<u8>,
    CryptoError,
>)
    requires
        parts_of(envelope@) == Ok::<PartsView, CryptoErrorView>(parts@),
    ensures
        match r {
            Ok(plaintext) => key@.len() == KEY_LEN && opened_with(envelope@, key@) == Ok::<
                Seq<u8>,
                CryptoErrorView,
            >(plaintext@),
            Err(error) => if key@.len() != KEY_LEN {
                error@ is DecryptionKey
            } else {
                opened_with(envelope@, key@) == Err::<Seq<u8>, CryptoErrorView>(error@)
            },
        },
{
    let mut in_out = parts.ciphertext;
    let r = decrypted(open_in_place(key, parts.nonce, associated_data(envelope), &mut in_out));
    wipe(&mut in_out);
    r
}

/// Says what a decryption came to.
pub fn decrypted(outcome: Result<Vec<u8>, AeadFailure>) -> (r: Result<Vec<u8>, CryptoError>)
    ensures
        match outcome {
            Ok(plaintext) => r is Ok && r->Ok_0@ == plaintext@,
            Err(AeadFailure::Key) => r is Err && r->Err_0@ is DecryptionKey,
            Err(AeadFailure::Operation) => r is Err && r->Err_0@ is Decrypt,
        },
{
    match outcome {
        Ok(plaintext) => Ok(plaintext),
        Err(AeadFailure::Key) => Err(CryptoError::DecryptionKey),
        Err(AeadFailure::Operation) => Err(CryptoError::Decrypt),
    }
}

/// Seals `plaintext` for a client secret, under a fresh salt and nonce. What was
/// sealed opens to the plaintext again, for the same client secret.
pub fn seal(plaintext: &[u8], client_secret: &str) -> (r: Result<Envelope, CryptoError>)
    requires
        is_sealable(plaintext@),
    ensures
        match r {
            Ok(envelope) => {
                &&& exists|salt: Seq<u8>, nonce: Seq<u8>|
                    salt.len() == SALT_LEN && nonce.len() == NONCE_LEN && envelope@
                        == #[trigger] sealed_envelope(
                        plaintext@,
                        snapshot_key(client_secret@, salt),
                        salt,
                        nonce,
                    )
                &&& is_decodable(envelope@)
                &&& opened(envelope@, client_secret@) == Ok::<Seq<u8>, CryptoErrorView>(plaintext@)
                &&& parts_of(envelope@) is Ok
                &&& parts_of(envelope@)->Ok_0.salt.len() == SALT_LEN
                &&& parts_of(envelope@)->Ok_0.nonce.len() == NONCE_LEN
                &&& parts_of(envelope@)->Ok_0.ciphertext.len() == plaintext@.len() + TAG_LEN
                &&& is_base64_text(envelope@.salt)
                &&& is_base64_text(envelope@.nonce)
                &&& is_base64_text(envelope@.ciphertext)
                &&& plaintext@.len() <= MAX_PLAINTEXT_LEN
            },
            Err(error) => error@ is GenerateSalt || error@ is GenerateNonce || (error@ is Encrypt
                && plaintext@.len() > MAX_PLAINTEXT_LEN),
        },
{
    let mut salt: Vec<u8> = vec![0u8; SALT_LEN];
    if fill_random(&mut salt).is_err() {
        return Err(CryptoError::GenerateSalt);
    }
    let mut nonce: Vec<u8> = vec![0u8; NONCE_LEN];
    if fill_random(&mut nonce).is_err() {
        return Err(CryptoError::GenerateNonce);
    }
    match derive_key(client_secret, &salt) {
        Err(error) => Err(error),
        Ok(mut key) => {
            let r = seal_with(plaintext, &key, &salt, &nonce);
            wipe(&mut key);
            r
        },
    }
}

/// Opens an envelope for a client secret.
pub fn open(envelope: &Envelope, client_secret: &str) -> (r: Result<Vec<u8>, CryptoError>)
    requires
        is_decodable(envelope@),
    ensures
        match r {
            Ok(plaintext) => opened(envelope@, client_secret@) == Ok::<Seq<u8>, CryptoErrorView>(
                plaintext@,
            ),
            Err(error) => opened(envelope@, client_secret@) == Err::<Seq<u8>, CryptoErrorView>(
                error@,
            ),
        },
{
    match read_parts(envelope) {
        Err(error) => Err(error),
        Ok(parts) => match derive_key(client_secret, &parts.salt) {
            Err(error) => Err(error),
            Ok(mut key) => {
                let r = open_with(envelope, parts, &key);
                wipe(&mut key);
                r
            },
        },
    }
}

/// The associated data binds every field of the header: two envelopes have the
/// same only if their versions, algorithms, salts and nonces are the same. The
/// fields before the nonce must not hold the separator.
pub proof fn associated_data_binds_the_header(a: EnvelopeView, b: EnvelopeView)
    requires
        is_free_of(a.kdf, '|'),
        is_free_of(a.cipher, '|'),
        is_free_of(a.salt, '|'),
        is_free_of(b.kdf, '|'),
        is_free_of(b.cipher, '|'),
        is_free_of(b.salt, '|'),
        encode_utf8(header(a)) == encode_utf8(header(b)),
    ensures
        a.version == b.version,
        a.kdf == b.kdf,
        a.cipher == b.cipher,
        a.salt == b.salt,
        a.nonce == b.nonce,
{
    encode_utf8_decode_utf8(header(a));
    encode_utf8_decode_utf8(header(b));
    reveal_strlit("|");
    let bar = "|"@;
    decimal_reads_back(a.version as nat);
    decimal_reads_back(b.version as nat);
    assert(header(a) =~= decimal(a.version as nat) + bar + (a.kdf + bar + (a.cipher + bar + (a.salt
        + bar + a.nonce))));
    assert(header(b) =~= decimal(b.version as nat) + bar + (b.kdf + bar + (b.cipher + bar + (b.salt
        + bar + b.nonce))));
    lemma_equal_up_to(
        bar,
        decimal(a.version as nat),
        a.kdf + bar + (a.cipher + bar + (a.salt + bar + a.nonce)),
        decimal(b.version as nat),
        b.kdf + bar + (b.cipher + bar + (b.salt + bar + b.nonce)),
    );
    lemma_equal_up_to(
        bar,
        a.kdf,
        a.cipher + bar + (a.salt + bar + a.nonce),
        b.kdf,
        b.cipher + bar + (b.salt + bar + b.nonce),
    );
    lemma_equal_up_to(bar, a.cipher, a.salt + bar + a.nonce, b.cipher, b.salt + bar + b.nonce);
    lemma_equal_up_to(bar, a.salt, a.nonce, b.salt, b.nonce);
}

/// An envelope whose header names the algorithms in use and whose salt is a
/// Base64 text, as every sealed one is, has a header that is bound.
pub proof fn sealed_headers_are_bound(a: EnvelopeView, b: EnvelopeView)
    requires
        a.kdf == KDF_NAME@,
        a.cipher == CIPHER_NAME@,
        is_base64_text(a.salt),
        b.kdf == KDF_NAME@,
        b.cipher == CIPHER_NAME@,
        is_base64_text(b.salt),
        encode_utf8(header(a)) == encode_utf8(header(b)),
    ensures
        a.version == b.version,
        a.salt == b.salt,
        a.nonce == b.nonce,
{
    reveal_strlit("hkdf-sha256");
    reveal_strlit("aes-256-gcm");
    associated_data_binds_the_header(a, b);
}

} // verus!
