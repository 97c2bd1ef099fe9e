//! On-disk last-known-good snapshot.
//!
//! # Why this exists
//!
//! Without it the dependency on Infisical is *hard*: the in-memory cache
//! survives an Infisical outage, but not a restart during one. Lose both at once
//! and every deploy that references a secret fails, including the deploys you
//! would use to fix it.
//!
//! Persisting the snapshot turns that hard dependency into a soft one: a cold
//! start can keep deploying with the last values that were read. The file is
//! written 0600 inside a directory created 0700, and what it holds is sealed.
use vstd::prelude::*;

use crate::clock::now_unix;
use crate::number::{decimal, decimal_text};
use crate::string_map::StringMap;
use crate::text::views;

verus! {

/// Bumped if the on-disk shape changes. An unrecognised version is discarded
/// rather than guessed at -- a mis-parsed secret file is worse than no file.
pub const FORMAT_VERSION: u32 = 1;

/// The mode of a directory that is created for the snapshot.
pub const DIRECTORY_MODE: u32 = 0o700;

/// The mode of the file that holds the snapshot.
pub const FILE_MODE: u32 = 0o600;

/// The secrets of one refresh, as they are kept across a restart.
#[derive(Debug)]
pub struct StoredSnapshot {
    pub version: u32,
    /// Wall-clock seconds since the epoch. Wall clock rather than a monotonic
    /// instant because the whole point is to survive a process restart.
    pub fetched_at_unix: u64,
    /// Recorded for diagnostics: which scopes this snapshot covers.
    pub scopes: Vec<String>,
    pub secrets: StringMap,
}

/// The view of a [`StoredSnapshot`].
pub struct StoredSnapshotView {
    pub version: u32,
    pub fetched_at_unix: u64,
    pub scopes: Seq<Seq<char>>,
    pub secrets: Map<Seq<char>, Seq<char>>,
}

impl View for StoredSnapshot {
    type V = StoredSnapshotView;

    open spec fn view(&self) -> StoredSnapshotView {
        StoredSnapshotView {
            version: self.version,
            fetched_at_unix: self.fetched_at_unix,
            scopes: views(self.scopes@),
            secrets: self.secrets@,
        }
    }
}

/// The snapshot of `secrets` that were fetched at a time.
pub fn snapshot_at(secrets: &StringMap, scopes: Vec<String>, fetched_at_unix: u64) -> (r:
    StoredSnapshot)
    ensures
        r@ == (StoredSnapshotView {
            version: FORMAT_VERSION,
            fetched_at_unix,
            scopes: views(scopes@),
            secrets: secrets@,
        }),
{
    StoredSnapshot { version: FORMAT_VERSION, fetched_at_unix, scopes, secrets: secrets.clone() }
}

/// The snapshot of `secrets` that were fetched just now.
pub fn snapshot_from(secrets: &StringMap, scopes: Vec<String>) -> (r: StoredSnapshot)
    ensures
        r@ == (StoredSnapshotView {
            version: FORMAT_VERSION,
            fetched_at_unix: r@.fetched_at_unix,
            scopes: views(scopes@),
            secrets: secrets@,
        }),
{
    snapshot_at(secrets, scopes, now_unix())
}

/// What was found where a snapshot is kept.
#[derive(Debug)]
pub enum StoredFile {
    /// There is no file.
    Missing,
    /// The file could not be read.
    Unreadable { cause: String },
    /// The file is sealed and could not be opened.
    Unopened { cause: String },
    /// The file holds no snapshot.
    Unparsable { cause: String },
    /// The file holds a snapshot.
    Parsed { snapshot: StoredSnapshot },
}

/// Why a stored snapshot cannot be used.
#[derive(Debug)]
pub enum LoadError {
    Read { path: String, cause: String },
    Open { path: String, cause: String },
    Parse { path: String, cause: String },
    Version { path: String, version: u32 },
}

/// The view of a [`LoadError`].
pub enum LoadErrorView {
    Read { path: Seq<char>, cause: Seq<char> },
    Open { path: Seq<char>, cause: Seq<char> },
    Parse { path: Seq<char>, cause: Seq<char> },
    Version { path: Seq<char>, version: u32 },
}

impl View for LoadError {
    type V = LoadErrorView;

    open spec fn view(&self) -> LoadErrorView {
        match self {
            LoadError::Read { path, cause } => LoadErrorView::Read { path: path@, cause: cause@ },
            LoadError::Open { path, cause } => LoadErrorView::Open { path: path@, cause: cause@ },
            LoadError::Parse { path, cause } => LoadErrorView::Parse { path: path@, cause: cause@ },
            LoadError::Version { path, version } => LoadErrorView::Version {
                path: path@,
                version: *version,
            },
        }
    }
}

/// The words of an error.
pub open spec fn load_error_text(error: LoadErrorView) -> Seq<char> {
    match error {
        LoadErrorView::Read { path, cause } => "failed to read "@ + path + ": "@ + cause,
        LoadErrorView::Open { path, cause } => "failed to open "@ + path + ": "@ + cause,
        LoadErrorView::Parse { path, cause } => "failed to parse "@ + path + ": "@ + cause,
        LoadErrorView::Version { path, version } => path + " has format version "@ + decimal(
            version as nat,
        ) + ", expected "@ + decimal(FORMAT_VERSION as nat),
    }
}

impl LoadError {
    /// Says in words what is wrong.
    pub fn message(&self) -> (r: String)
        ensures
            r@ == load_error_text(self@),
    {
        match self {
            LoadError::Read { path, cause } => {
                let mut r = "failed to read ".to_owned();
                r.append(path.as_str());
                r.append(": ");
                r.append(cause.as_str());
                r
            },
            LoadError::Open { path, cause } => {
                let mut r = "failed to open ".to_owned();
                r.append(path.as_str());
                r.append(": ");
                r.append(cause.as_str());
                r
            },
            LoadError::Parse { path, cause } => {
                let mut r = "failed to parse ".to_owned();
                r.append(path.as_str());
                r.append(": ");
                r.append(cause.as_str());
                r
            },
            LoadError::Version { path, version } => {
                let mut r = path.clone();
                r.append(" has format version ");
                r.append(decimal_text(*version as u64).as_str());
                r.append(", expected ");
                r.append(decimal_text(FORMAT_VERSION as u64).as_str());
                r
            },
        }
    }
}

/// What a file gives: its snapshot if it is of this format, nothing if there is
/// no file, and otherwise an error.
pub open spec fn loaded(path: Seq<char>, file: StoredFile) -> Result<
    Option<StoredSnapshotView>,
    LoadErrorView,
> {
    match file {
        StoredFile::Missing => Ok(None),
        StoredFile::Unreadable { cause } => Err(LoadErrorView::Read { path, cause: cause@ }),
        StoredFile::Unopened { cause } => Err(LoadErrorView::Open { path, cause: cause@ }),
        StoredFile::Unparsable { cause } => Err(LoadErrorView::Parse { path, cause: cause@ }),
        StoredFile::Parsed { snapshot } => if snapshot.version != FORMAT_VERSION {
            Err(LoadErrorView::Version { path, version: snapshot.version })
        } else {
            Ok(Some(snapshot@))
        },
    }
}

/// Decides what to make of the file of a previously saved snapshot.
///
/// A missing file is `Ok(None)` -- the normal first-run case. A corrupt or
/// unrecognised file is an error, so it is reported rather than silently
/// treated as "no secrets", which would look identical to a healthy empty read.
pub fn load(path: &str, file: StoredFile) -> (r: Result<Option<StoredSnapshot>, LoadError>)
    ensures
        match r {
            Ok(None) => loaded(path@, file) == Ok::<Option<StoredSnapshotView>, LoadErrorView>(
                None,
            ),
            Ok(Some(snapshot)) => loaded(path@, file) == Ok::<
                Option<StoredSnapshotView>,
                LoadErrorView,
            >(Some(snapshot@)),
            Err(error) => loaded(path@, file) == Err::<Option<StoredSnapshotView>, LoadErrorView>(
                error@,
            ),
        },
{
    match file {
        StoredFile::Missing => Ok(None),
        StoredFile::Unreadable { cause } => Err(LoadError::Read { path: path.to_owned(), cause }),
        StoredFile::Unopened { cause } => Err(LoadError::Open { path: path.to_owned(), cause }),
        StoredFile::Unparsable { cause } => Err(LoadError::Parse { path: path.to_owned(), cause }),
        StoredFile::Parsed { snapshot } => if snapshot.version != FORMAT_VERSION {
            Err(LoadError::Version { path: path.to_owned(), version: snapshot.version })
        } else {
            Ok(Some(snapshot))
        },
    }
}

/// What was saved is loaded again as it was.
pub proof fn saved_snapshot_is_loaded(path: Seq<char>, snapshot: StoredSnapshot)
    requires
        snapshot.version == FORMAT_VERSION,
    ensures
        loaded(path, StoredFile::Parsed { snapshot }) == Ok::<
            Option<StoredSnapshotView>,
            LoadErrorView,
        >(Some(snapshot@)),
{
}

/// Only a missing file counts as one without secrets; every other file that is
/// not a snapshot of this format is reported.
pub proof fn only_a_missing_file_is_no_snapshot(path: Seq<char>, file: StoredFile)
    ensures
        loaded(path, file) == Ok::<Option<StoredSnapshotView>, LoadErrorView>(None) <==> file
            is Missing,
        loaded(path, file) is Err <==> !(file is Missing) && !(file matches StoredFile::Parsed {
            snapshot,
        } && snapshot.version == FORMAT_VERSION),
{
}

/// The temporary file that is written in the place of the file at `path`.
pub open spec fn temporary_name(path: Seq<char>) -> Seq<char> {
    path + ".tmp"@
}

/// The temporary file for the file at `path`: beside it, and never that file.
pub fn temporary_path(path: &str) -> (temporary: String)
    ensures
        temporary@ == temporary_name(path@),
        temporary@ != path@,
{
    proof {
        temporary_file_is_another(path@);
    }
    path.to_owned().concat(".tmp")
}

/// No file is its own temporary file.
pub proof fn temporary_file_is_another(path: Seq<char>)
    ensures
        temporary_name(path) != path,
{
    reveal_strlit(".tmp");
    assert(temporary_name(path).len() == path.len() + 4);
}

/// A step of writing a snapshot to its file.
#[derive(Debug, Clone, Copy, PartialEq, Eq, Structural)]
pub enum SaveStep {
    /// Create the directory of the file.
    CreateDirectory,
    /// Give the directory its mode.
    RestrictDirectory,
    /// Encode and seal the snapshot.
    Encode,
    /// Create the temporary file, empty.
    CreateTemporary,
    /// Give the temporary file its mode.
    RestrictTemporary,
    /// Write the encoded snapshot to the temporary file.
    Write,
    /// Flush the temporary file to disk.
    Flush,
    /// Move the temporary file to the place of the file.
    MoveIntoPlace,
    /// Give the file its mode.
    RestrictFile,
    /// Nothing is left to do.
    Finished,
}

/// A step of writing a snapshot that failed.
#[derive(Debug)]
pub struct SaveError {
    pub step: SaveStep,
    pub cause: String,
}

/// The step with which writing a snapshot begins.
pub open spec fn first_step(directory_is_missing: bool) -> SaveStep {
    if directory_is_missing {
        SaveStep::CreateDirectory
    } else {
        SaveStep::Encode
    }
}

/// The step after one that was carried out.
pub open spec fn following(step: SaveStep) -> SaveStep {
    match step {
        SaveStep::CreateDirectory => SaveStep::RestrictDirectory,
        SaveStep::RestrictDirectory => SaveStep::Encode,
        SaveStep::Encode => SaveStep::CreateTemporary,
        SaveStep::CreateTemporary => SaveStep::RestrictTemporary,
        SaveStep::RestrictTemporary => SaveStep::Write,
        SaveStep::Write => SaveStep::Flush,
        SaveStep::Flush => SaveStep::MoveIntoPlace,
        SaveStep::MoveIntoPlace => SaveStep::RestrictFile,
        SaveStep::RestrictFile => SaveStep::Finished,
        SaveStep::Finished => SaveStep::Finished,
    }
}

/// The step after `step`, which succeeded or not, if there is one: any failure
/// ends the writing, but for that to give the directory its mode.
pub open spec fn next_step(step: SaveStep, succeeded: bool) -> Option<SaveStep> {
    if succeeded || step is RestrictDirectory {
        Some(following(step))
    } else {
        None
    }
}

/// Begins to write a snapshot.
pub fn begin_save(directory_is_missing: bool) -> (step: SaveStep)
    ensures
        step == first_step(directory_is_missing),
{
    if directory_is_missing {
        SaveStep::CreateDirectory
    } else {
        SaveStep::Encode
    }
}

/// Goes on to write a snapshot, after what `step` came to.
///
/// The snapshot is written atomically, so a crash mid-write cannot leave a
/// truncated file that would later be loaded as if it were complete. See
/// [`file_is_never_found_incomplete`].
pub fn continue_save(step: SaveStep, outcome: Result<(), String>) -> (r: Result<
    SaveStep,
    SaveError,
>)
    ensures
        match r {
            Ok(next) => next_step(step, outcome is Ok) == Some(next),
            Err(error) => next_step(step, outcome is Ok) is None && error.step == step
                && outcome is Err && error.cause@ == outcome->Err_0@,
        },
{
    match (step, outcome) {
        (SaveStep::RestrictDirectory, _) => Ok(SaveStep::Encode),
        (step, Err(cause)) => Err(SaveError { step, cause }),
        (SaveStep::CreateDirectory, Ok(_)) => Ok(SaveStep::RestrictDirectory),
        (SaveStep::Encode, Ok(_)) => Ok(SaveStep::CreateTemporary),
        (SaveStep::CreateTemporary, Ok(_)) => Ok(SaveStep::RestrictTemporary),
        // Restrict before writing, so the secrets are never briefly world-readable.
        (SaveStep::RestrictTemporary, Ok(_)) => Ok(SaveStep::Write),
        (SaveStep::Write, Ok(_)) => Ok(SaveStep::Flush),
        (SaveStep::Flush, Ok(_)) => Ok(SaveStep::MoveIntoPlace),
        (SaveStep::MoveIntoPlace, Ok(_)) => Ok(SaveStep::RestrictFile),
        (SaveStep::RestrictFile, Ok(_)) => Ok(SaveStep::Finished),
        (SaveStep::Finished, Ok(_)) => Ok(SaveStep::Finished),
    }
}

/// Whether `steps` are the steps of one writing, where `succeeded` says of each
/// but the last what it came to.
pub open spec fn is_save(
    directory_is_missing: bool,
    steps: Seq<SaveStep>,
    succeeded: Seq<bool>,
) -> bool {
    &&& steps.len() == succeeded.len() + 1
    &&& steps[0] == first_step(directory_is_missing)
    &&& forall|i: int|
        #![trigger succeeded[i]]
        0 <= i < succeeded.len() ==> next_step(steps[i], succeeded[i]) == Some(steps[i + 1])
}

/// Secrets are written only to a temporary file that has been restricted.
pub proof fn only_a_restricted_file_is_written(
    directory_is_missing: bool,
    steps: Seq<SaveStep>,
    succeeded: Seq<bool>,
    k: int,
)
    requires
        is_save(directory_is_missing, steps, succeeded),
        0 <= k < steps.len(),
        steps[k] is Write,
    ensures
        k >= 2,
        steps[k - 1] is RestrictTemporary && succeeded[k - 1],
        steps[k - 2] is CreateTemporary && succeeded[k - 2],
{
    assert(next_step(steps[k - 1], succeeded[k - 1]) == Some(steps[k]));
    assert(next_step(steps[k - 2], succeeded[k - 2]) == Some(steps[k - 1]));
}

/// The file is replaced only by a temporary file that was restricted, written
/// and flushed, one after the other and all with success.
pub proof fn only_a_complete_file_is_moved_into_place(
    directory_is_missing: bool,
    steps: Seq<SaveStep>,
    succeeded: Seq<bool>,
    k: int,
)
    requires
        is_save(directory_is_missing, steps, succeeded),
        0 <= k < steps.len(),
        steps[k] is MoveIntoPlace,
    ensures
        k >= 4,
        steps[k - 1] is Flush && succeeded[k - 1],
        steps[k - 2] is Write && succeeded[k - 2],
        steps[k - 3] is RestrictTemporary && succeeded[k - 3],
        steps[k - 4] is CreateTemporary && succeeded[k - 4],
{
    assert(next_step(steps[k - 1], succeeded[k - 1]) == Some(steps[k]));
    assert(next_step(steps[k - 2], succeeded[k - 2]) == Some(steps[k - 1]));
    only_a_restricted_file_is_written(directory_is_missing, steps, succeeded, k - 2);
}

/// Writing ends well only after the file was moved into place and restricted.
pub proof fn finished_save_left_a_restricted_file(
    directory_is_missing: bool,
    steps: Seq<SaveStep>,
    succeeded: Seq<bool>,
    k: int,
)
    requires
        is_save(directory_is_missing, steps, succeeded),
        0 <= k < steps.len(),
        steps[k] is Finished,
        forall|i: int| 0 <= i < k ==> !(#[trigger] steps[i] is Finished),
    ensures
        k >= 2,
        steps[k - 1] is RestrictFile && succeeded[k - 1],
        steps[k - 2] is MoveIntoPlace && succeeded[k - 2],
{
    assert(next_step(steps[k - 1], succeeded[k - 1]) == Some(steps[k]));
    assert(next_step(steps[k - 2], succeeded[k - 2]) == Some(steps[k - 1]));
}

/// What is on disk while a snapshot is written.
pub struct Disk {
    /// What is found in each file, also after a crash.
    pub files: Map<Seq<char>, Seq<u8>>,
    /// What was written to the temporary file, flushed or not.
    pub pending: Seq<u8>,
}

/// Whether the file at `path` is the same in both: it holds the same bytes, or is
/// missing.
pub open spec fn same_file(
    a: Map<Seq<char>, Seq<u8>>,
    b: Map<Seq<char>, Seq<u8>>,
    path: Seq<char>,
) -> bool {
    &&& a.contains_key(path) == b.contains_key(path)
    &&& a.contains_key(path) ==> a[path] == b[path]
}

/// Whether there is a file at `path` that holds exactly `contents`.
pub open spec fn holds(
    files: Map<Seq<char>, Seq<u8>>,
    path: Seq<char>,
    contents: Seq<u8>,
) -> bool {
    files.contains_key(path) && files[path] == contents
}

/// Whether `step` of writing `encoded` to the file at `path` can turn what is on
/// disk from `before` to `after`. One that did not succeed may have been carried
/// out in part. What is written is in the temporary file for certain only once it
/// is flushed; a move is carried out as a whole or not at all.
pub open spec fn may_leave(
    step: SaveStep,
    succeeded: bool,
    path: Seq<char>,
    encoded: Seq<u8>,
    before: Disk,
    after: Disk,
) -> bool {
    let temporary = temporary_name(path);
    match step {
        SaveStep::CreateTemporary | SaveStep::Write | SaveStep::Flush => {
            &&& forall|other: Seq<char>|
                other != temporary ==> #[trigger] same_file(before.files, after.files, other)
            &&& succeeded && step is CreateTemporary ==> after.pending == Seq::<u8>::empty()
            &&& succeeded && step is Write ==> after.pending == before.pending + encoded
            &&& succeeded && step is Flush ==> holds(after.files, temporary, before.pending)
        },
        SaveStep::MoveIntoPlace => {
            ||| before.files.contains_key(temporary) && after.files == before.files.remove(
                temporary,
            ).insert(path, before.files[temporary])
            ||| !succeeded && after.files == before.files
        },
        _ => after == before,
    }
}

/// Whether carrying out `steps` takes what is on disk through `disks`: what was
/// there before each step, and at the end what the last one has left so far.
pub open spec fn is_carried_out(
    steps: Seq<SaveStep>,
    succeeded: Seq<bool>,
    path: Seq<char>,
    encoded: Seq<u8>,
    disks: Seq<Disk>,
) -> bool {
    &&& disks.len() == steps.len() + 1
    &&& forall|i: int|
        #![trigger steps[i]]
        0 <= i < steps.len() ==> may_leave(
            steps[i],
            i < succeeded.len() && succeeded[i],
            path,
            encoded,
            disks[i],
            disks[i + 1],
        )
}

/// What is on disk when `step` is next, where it was `start` at the beginning.
spec fn is_on_disk(
    step: SaveStep,
    path: Seq<char>,
    encoded: Seq<u8>,
    start: Disk,
    disk: Disk,
) -> bool {
    &&& match step {
        SaveStep::RestrictFile | SaveStep::Finished => holds(disk.files, path, encoded),
        _ => same_file(start.files, disk.files, path),
    }
    &&& step is RestrictTemporary || step is Write ==> disk.pending == Seq::<u8>::empty()
    &&& step is Flush ==> disk.pending == encoded
    &&& step is MoveIntoPlace ==> holds(disk.files, temporary_name(path), encoded)
    &&& forall|other: Seq<char>|
        other != path && other != temporary_name(path) ==> #[trigger] same_file(
            start.files,
            disk.files,
            other,
        )
}

proof fn lemma_on_disk(
    directory_is_missing: bool,
    steps: Seq<SaveStep>,
    succeeded: Seq<bool>,
    path: Seq<char>,
    encoded: Seq<u8>,
    disks: Seq<Disk>,
    k: int,
)
    requires
        is_save(directory_is_missing, steps, succeeded),
        is_carried_out(steps, succeeded, path, encoded, disks),
        0 <= k < steps.len(),
    ensures
        is_on_disk(steps[k], path, encoded, disks[0], disks[k]),
    decreases k,
{
    if k > 0 {
        let i = k - 1;
        lemma_on_disk(directory_is_missing, steps, succeeded, path, encoded, disks, i);
        temporary_file_is_another(path);
        assert(next_step(steps[i], succeeded[i]) == Some(steps[i + 1]));
        assert(may_leave(steps[i], succeeded[i], path, encoded, disks[i], disks[i + 1]));
        assert(same_file(disks[i].files, disks[k].files, path) || steps[i] is MoveIntoPlace);
        assert forall|other: Seq<char>|
            other != path && other != temporary_name(path) implies #[trigger] same_file(
            disks[0].files,
            disks[k].files,
            other,
        ) by {
            assert(same_file(disks[0].files, disks[i].files, other));
            assert(same_file(disks[i].files, disks[k].files, other));
        }
    }
}

/// A snapshot is written atomically. At every moment, also where a step failed or
/// was cut short by a crash, the file is what it was before or holds the complete
/// snapshot. Where the writing ended well, it holds the snapshot. Of the other
/// files none but the temporary one is touched.
pub proof fn file_is_never_found_incomplete(
    directory_is_missing: bool,
    steps: Seq<SaveStep>,
    succeeded: Seq<bool>,
    path: Seq<char>,
    encoded: Seq<u8>,
    disks: Seq<Disk>,
    k: int,
)
    requires
        is_save(directory_is_missing, steps, succeeded),
        is_carried_out(steps, succeeded, path, encoded, disks),
        0 <= k < disks.len(),
    ensures
        same_file(disks[0].files, disks[k].files, path) || holds(disks[k].files, path, encoded),
        k < steps.len() && steps[k] is Finished ==> holds(disks[k].files, path, encoded),
        forall|other: Seq<char>|
            other != path && other != temporary_name(path) ==> #[trigger] same_file(
                disks[0].files,
                disks[k].files,
                other,
            ),
{
    if k < steps.len() {
        lemma_on_disk(directory_is_missing, steps, succeeded, path, encoded, disks, k);
    } else {
        let i = k - 1;
        lemma_on_disk(directory_is_missing, steps, succeeded, path, encoded, disks, i);
        temporary_file_is_another(path);
        assert(may_leave(steps[i], false, path, encoded, disks[i], disks[i + 1]));
        assert(same_file(disks[i].files, disks[k].files, path) || steps[i] is MoveIntoPlace);
        assert forall|other: Seq<char>|
            other != path && other != temporary_name(path) implies #[trigger] same_file(
            disks[0].files,
            disks[k].files,
            other,
        ) by {
            assert(same_file(disks[0].files, disks[i].files, other));
            assert(same_file(disks[i].files, disks[k].files, other));
        }
    }
}

/// The words for a step of writing that failed, with the directory of the file,
/// the temporary file and the file.
pub open spec fn save_error_text(
    step: SaveStep,
    cause: Seq<char>,
    directory: Seq<char>,
    temporary: Seq<char>,
    path: Seq<char>,
) -> Seq<char> {
    let what = match step {
        SaveStep::CreateDirectory => "failed to create "@ + directory,
        SaveStep::RestrictDirectory => "failed to set mode 700 on "@ + directory,
        SaveStep::Encode => "failed to encode the Infisical snapshot"@,
        SaveStep::CreateTemporary => "failed to create "@ + temporary,
        SaveStep::RestrictTemporary => "failed to set mode 600 on "@ + temporary,
        SaveStep::Write => "failed to write "@ + temporary,
        SaveStep::Flush => "failed to flush "@ + temporary,
        SaveStep::MoveIntoPlace => "failed to move "@ + temporary + " into place at "@ + path,
        SaveStep::RestrictFile | SaveStep::Finished => "failed to set mode 600 on "@ + path,
    };
    what + ": "@ + cause
}

impl SaveError {
    /// Says in words what failed.
    pub fn message(&self, directory: &str, temporary: &str, path: &str) -> (r: String)
        ensures
            r@ == save_error_text(self.step, self.cause@, directory@, temporary@, path@),
    {
        let mut r = match self.step {
            SaveStep::CreateDirectory => "failed to create ".to_owned().concat(directory),
            SaveStep::RestrictDirectory => {
                "failed to set mode 700 on ".to_owned().concat(directory)
            },
            SaveStep::Encode => "failed to encode the Infisical snapshot".to_owned(),
            SaveStep::CreateTemporary => "failed to create ".to_owned().concat(temporary),
            SaveStep::RestrictTemporary => {
                "failed to set mode 600 on ".to_owned().concat(temporary)
            },
            SaveStep::Write => "failed to write ".to_owned().concat(temporary),
            SaveStep::Flush => "failed to flush ".to_owned().concat(temporary),
            SaveStep::MoveIntoPlace => "failed to move ".to_owned().concat(temporary).concat(
                " into place at ",
            ).concat(path),
            SaveStep::RestrictFile | SaveStep::Finished => {
                "failed to set mode 600 on ".to_owned().concat(path)
            },
        };
        r.append(": ");
        r.append(self.cause.as_str());
        r
    }
}

} // verus!
