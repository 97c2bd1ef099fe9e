//! What holds of the stored snapshot and of its envelope.
use vstd::prelude::*;
use vstd::utf8::encode_utf8;

use crate::crypto::{
    header, opened, opened_with, parts_of, sealed_envelope, snapshot_key, CryptoErrorView,
    EnvelopeView, PartsView,
};
use crate::number::decimal;
use crate::persist::{
    first_step, loaded, next_step, temporary_name, LoadErrorView, SaveStep, StoredFile,
    StoredSnapshot, StoredSnapshotView,
};
use crate::primitives::{
    aes_256_gcm_opened, aes_256_gcm_sealed, base64_decoded, base64_encoded, hkdf_sha256, Decoded,
};

verus! {

/// What is found where a snapshot is kept decides what is loaded: a snapshot of
/// this format as it is, nothing if there is no file, and otherwise an error that
/// names the file.
pub proof fn stored_file_decides_what_is_loaded(
    path: Seq<char>,
    cause: String,
    snapshot: StoredSnapshot,
)
    ensures
        loaded(path, StoredFile::Missing) == Ok::<Option<StoredSnapshotView>, LoadErrorView>(None),
        loaded(path, StoredFile::Unreadable { cause }) == Err::<
            Option<StoredSnapshotView>,
            LoadErrorView,
        >(LoadErrorView::Read { path, cause: cause@ }),
        loaded(path, StoredFile::Unopened { cause }) == Err::<
            Option<StoredSnapshotView>,
            LoadErrorView,
        >(LoadErrorView::Open { path, cause: cause@ }),
        loaded(path, StoredFile::Unparsable { cause }) == Err::<
            Option<StoredSnapshotView>,
            LoadErrorView,
        >(LoadErrorView::Parse { path, cause: cause@ }),
        snapshot.version != 1 ==> loaded(path, StoredFile::Parsed { snapshot }) == Err::<
            Option<StoredSnapshotView>,
            LoadErrorView,
        >(LoadErrorView::Version { path, version: snapshot.version }),
        snapshot.version == 1 ==> {
            let found = loaded(path, StoredFile::Parsed { snapshot });
            &&& found is Ok && found->Ok_0 is Some
            &&& found->Ok_0->0.version == 1
            &&& found->Ok_0->0.fetched_at_unix == snapshot.fetched_at_unix
            &&& found->Ok_0->0.secrets == snapshot.secrets@
            &&& found->Ok_0->0.scopes.len() == snapshot.scopes@.len()
            &&& forall|i: int|
                0 <= i < snapshot.scopes@.len() ==> found->Ok_0->0.scopes[i]
                    == (#[trigger] snapshot.scopes@[i])@
        },
{
}

/// The steps of a writing in which nothing fails: the directory is made where it is
/// missing, the snapshot is encoded, the temporary file is made, restricted,
/// written, flushed and moved into place, and the file is restricted.
pub proof fn undisturbed_save_takes_every_step()
    ensures
        first_step(true) == SaveStep::CreateDirectory,
        first_step(false) == SaveStep::Encode,
        next_step(SaveStep::CreateDirectory, true) == Some(SaveStep::RestrictDirectory),
        next_step(SaveStep::RestrictDirectory, true) == Some(SaveStep::Encode),
        next_step(SaveStep::Encode, true) == Some(SaveStep::CreateTemporary),
        next_step(SaveStep::CreateTemporary, true) == Some(SaveStep::RestrictTemporary),
        next_step(SaveStep::RestrictTemporary, true) == Some(SaveStep::Write),
        next_step(SaveStep::Write, true) == Some(SaveStep::Flush),
        next_step(SaveStep::Flush, true) == Some(SaveStep::MoveIntoPlace),
        next_step(SaveStep::MoveIntoPlace, true) == Some(SaveStep::RestrictFile),
        next_step(SaveStep::RestrictFile, true) == Some(SaveStep::Finished),
{
}

/// A step that fails ends the writing, but for that which gives the directory its
/// mode.
pub proof fn failed_step_ends_the_save(step: SaveStep)
    ensures
        !(step is RestrictDirectory) ==> next_step(step, false) is None,
        next_step(SaveStep::RestrictDirectory, false) == Some(SaveStep::Encode),
{
}

/// The temporary file stands beside the file, with an ending of its own.
pub proof fn temporary_file_has_its_ending(path: Seq<char>)
    ensures
        temporary_name(path) == path + ".tmp"@,
{
}

/// The associated data is every field of the header, with a bar between them.
pub proof fn header_names_every_field(envelope: EnvelopeView)
    ensures
        header(envelope) == decimal(envelope.version as nat) + "|"@ + envelope.kdf + "|"@
            + envelope.cipher + "|"@ + envelope.salt + "|"@ + envelope.nonce,
{
}

/// The key is derived from the client secret and the salt, for this use alone.
pub proof fn key_is_derived_for_snapshots(client_secret: Seq<char>, salt: Seq<u8>)
    ensures
        snapshot_key(client_secret, salt) == hkdf_sha256(
            encode_utf8(client_secret),
            salt,
            encode_utf8("komodo-infisical-snapshot-v1"@),
        ),
{
}

/// A sealed envelope names its version and algorithms, and holds the salt, the nonce
/// and the ciphertext in Base64. The ciphertext is that of the whole plaintext, bound
/// to the header.
pub proof fn envelope_holds_what_was_sealed(
    plaintext: Seq<u8>,
    key: Seq<u8>,
    salt: Seq<u8>,
    nonce: Seq<u8>,
)
    ensures
        ({
            let envelope = sealed_envelope(plaintext, key, salt, nonce);
            let bound = decimal(1) + "|hkdf-sha256|aes-256-gcm|"@ + base64_encoded(salt) + "|"@
                + base64_encoded(nonce);
            &&& envelope.version == 1
            &&& envelope.kdf == "hkdf-sha256"@
            &&& envelope.cipher == "aes-256-gcm"@
            &&& envelope.salt == base64_encoded(salt)
            &&& envelope.nonce == base64_encoded(nonce)
            &&& envelope.ciphertext == base64_encoded(
                aes_256_gcm_sealed(key, nonce, encode_utf8(bound), plaintext),
            )
        }),
{
    reveal_strlit("|");
    reveal_strlit("hkdf-sha256");
    reveal_strlit("aes-256-gcm");
    reveal_strlit("|hkdf-sha256|aes-256-gcm|");
    let bare = EnvelopeView {
        version: 1,
        kdf: "hkdf-sha256"@,
        cipher: "aes-256-gcm"@,
        salt: base64_encoded(salt),
        nonce: base64_encoded(nonce),
        ciphertext: Seq::empty(),
    };
    let middle = "|"@ + "hkdf-sha256"@ + "|"@ + "aes-256-gcm"@ + "|"@;
    assert(middle =~= "|hkdf-sha256|aes-256-gcm|"@);
    assert(header(bare) =~= decimal(1) + middle + base64_encoded(salt) + "|"@ + base64_encoded(
        nonce,
    ));
}

/// An envelope of this version and these algorithms, whose fields are Base64 and
/// whose nonce is twelve bytes long, can be read, whatever it holds; any other is
/// refused for the first thing that is wrong with it.
pub proof fn readable_envelopes_are_read(envelope: EnvelopeView)
    ensures
        ({
            let read = parts_of(envelope);
            let known = envelope.version == 1 && envelope.kdf == "hkdf-sha256"@ && envelope.cipher
                == "aes-256-gcm"@;
            let salt = base64_decoded(envelope.salt);
            let nonce = base64_decoded(envelope.nonce);
            let ciphertext = base64_decoded(envelope.ciphertext);
            &&& envelope.version != 1 ==> read == Err::<PartsView, CryptoErrorView>(
                CryptoErrorView::Version { version: envelope.version },
            )
            &&& envelope.version == 1 && (envelope.kdf != "hkdf-sha256"@ || envelope.cipher
                != "aes-256-gcm"@) ==> read == Err::<PartsView, CryptoErrorView>(
                CryptoErrorView::Algorithms { kdf: envelope.kdf, cipher: envelope.cipher },
            )
            &&& known && salt is Err ==> read == Err::<PartsView, CryptoErrorView>(
                CryptoErrorView::SaltEncoding { cause: salt->Err_0 },
            )
            &&& known && salt is Ok && nonce is Err ==> read == Err::<PartsView, CryptoErrorView>(
                CryptoErrorView::NonceEncoding { cause: nonce->Err_0 },
            )
            &&& known && salt is Ok && nonce is Ok && nonce->Ok_0.len() != 12 ==> read == Err::<
                PartsView,
                CryptoErrorView,
            >(CryptoErrorView::NonceLength)
            &&& known && salt is Ok && nonce is Ok && nonce->Ok_0.len() == 12 && ciphertext is Err
                ==> read == Err::<PartsView, CryptoErrorView>(
                CryptoErrorView::CiphertextEncoding { cause: ciphertext->Err_0 },
            )
            &&& known && salt is Ok && nonce is Ok && nonce->Ok_0.len() == 12 && ciphertext is Ok
                ==> read == Ok::<PartsView, CryptoErrorView>(
                PartsView {
                    salt: salt->Ok_0,
                    nonce: nonce->Ok_0,
                    ciphertext: ciphertext->Ok_0,
                },
            )
        }),
{
}

/// An envelope that can be read opens to the whole plaintext that the cipher finds
/// in it, under the key of the client secret and its salt and bound to its header,
/// and is refused only if the cipher finds none.
pub proof fn envelope_opens_to_what_the_cipher_finds(
    envelope: EnvelopeView,
    client_secret: Seq<char>,
)
    ensures
        parts_of(envelope) is Err ==> opened(envelope, client_secret) == Err::<
            Seq<u8>,
            CryptoErrorView,
        >(parts_of(envelope)->Err_0),
        parts_of(envelope) matches Ok(parts) ==> {
            let found = aes_256_gcm_opened(
                hkdf_sha256(
                    encode_utf8(client_secret),
                    parts.salt,
                    encode_utf8("komodo-infisical-snapshot-v1"@),
                ),
                parts.nonce,
                encode_utf8(
                    decimal(envelope.version as nat) + "|"@ + envelope.kdf + "|"@ + envelope.cipher
                        + "|"@ + envelope.salt + "|"@ + envelope.nonce,
                ),
                parts.ciphertext,
            );
            match found {
                Some(plaintext) => opened(envelope, client_secret) == Ok::<
                    Seq<u8>,
                    CryptoErrorView,
                >(plaintext),
                None => opened(envelope, client_secret) == Err::<Seq<u8>, CryptoErrorView>(
                    CryptoErrorView::Decrypt,
                ),
            }
        },
{
}

/// What was sealed for a client secret opens for it: to the plaintext, wherever the
/// cipher and Base64 give back what they were given.
pub proof fn sealed_snapshot_opens_again(
    plaintext: Seq<u8>,
    client_secret: Seq<char>,
    salt: Seq<u8>,
    nonce: Seq<u8>,
)
    requires
        nonce.len() == 12,
        ({
            let key = snapshot_key(client_secret, salt);
            let envelope = sealed_envelope(plaintext, key, salt, nonce);
            let bound = encode_utf8(header(envelope));
            let ciphertext = aes_256_gcm_sealed(key, nonce, bound, plaintext);
            &&& base64_decoded(base64_encoded(salt)) == Decoded::Ok(salt)
            &&& base64_decoded(base64_encoded(nonce)) == Decoded::Ok(nonce)
            &&& base64_decoded(base64_encoded(ciphertext)) == Decoded::Ok(ciphertext)
            &&& aes_256_gcm_opened(key, nonce, bound, ciphertext) == Some(plaintext)
        }),
    ensures
        opened(
            sealed_envelope(plaintext, snapshot_key(client_secret, salt), salt, nonce),
            client_secret,
        ) == Ok::<Seq<u8>, CryptoErrorView>(plaintext),
        opened_with(
            sealed_envelope(plaintext, snapshot_key(client_secret, salt), salt, nonce),
            snapshot_key(client_secret, salt),
        ) == Ok::<Seq<u8>, CryptoErrorView>(plaintext),
{
    let key = snapshot_key(client_secret, salt);
    let envelope = sealed_envelope(plaintext, key, salt, nonce);
    let bare = EnvelopeView { ciphertext: Seq::empty(), ..envelope };
    assert(header(bare) == header(envelope));
}

} // verus!
