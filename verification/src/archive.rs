//! The archival executor, modelled as a state machine.  The library decides
//! every step — which directory to create, which path to check, when to
//! copy, how to verify, when to delete a corrupt copy — and the caller only
//! performs the file operations and reports what happened.  The safety
//! properties (no overwrite on a name collision, no success without a
//! verified size) are proved over whole traces.

use crate::images::display_name_of;
use crate::images::Date;
use crate::images::ImageAdv;
use vstd::prelude::*;
use vstd::string::StringExecFns;

verus! {

/// Why one archival attempt failed.  Each failure leaves the source file
/// untouched, so the entry is naturally retried on the next run.
#[derive(Debug, PartialEq, Eq, Structural, Copy, Clone)]
pub enum ArchiveError {
    /// The destination directory could not be created.
    DirFailed,
    /// A file already bears the destination name; it is not overwritten.
    Collision,
    /// The destination could not be examined.
    StatFailed,
    /// The byte copy itself failed.
    CopyFailed,
    /// The copied size disagreed with the record; the copy was removed.
    Integrity,
    /// The corrupt copy could not be removed.
    RemoveFailed,
}

/// Where one archival attempt stands.
#[derive(Debug, PartialEq, Eq, Structural, Copy, Clone)]
pub enum ArchiveState {
    /// Creating the date-bucket directory (already existing is fine).
    MakingDir,
    /// Checking whether the destination name is already taken.
    CheckingDest,
    /// Copying the bytes.
    Copying,
    /// Re-reading the destination to verify the copied size.
    Verifying,
    /// Removing a copy whose size did not verify.
    Removing,
    /// The copy was made and its size verified.
    Succeeded,
    /// The attempt failed; nothing more will be done.
    Failed(ArchiveError),
}

/// What the caller observed after performing the requested action.
#[derive(Debug, PartialEq, Eq, Structural, Copy, Clone)]
pub enum ArchiveEvent {
    /// The bucket directory now exists (or could not be made).
    DirMade { ok: bool },
    /// Whether a file already bears the destination name.
    DestChecked { exists: bool },
    /// The destination could not be examined.
    DestCheckFailed,
    /// The byte copy finished (or failed).
    Copied { ok: bool },
    /// The destination's size after the copy.
    SizeRead { size: u64 },
    /// The destination's size could not be read back.
    SizeReadFailed,
    /// The corrupt copy was removed (or could not be).
    Removed { ok: bool },
}

/// The file operation the caller must perform in one state.
#[derive(Debug)]
pub enum ArchiveAction {
    /// Create this directory, accepting one that already exists.
    CreateDir { path: String },
    /// Report whether a file exists at this path.
    CheckExists { path: String },
    /// Copy the bytes of `from` to `to`.
    CopyFile { from: String, to: String },
    /// Read back the size of the file at this path.
    ReadSize { path: String },
    /// Remove the file at this path.
    RemoveFile { path: String },
}

/// Does this event answer the action this state asks for?
pub open spec fn ev_fits(st: ArchiveState, ev: ArchiveEvent) -> bool {
    match st {
        ArchiveState::MakingDir => ev is DirMade,
        ArchiveState::CheckingDest => ev is DestChecked || ev is DestCheckFailed,
        ArchiveState::Copying => ev is Copied,
        ArchiveState::Verifying => ev is SizeRead || ev is SizeReadFailed,
        ArchiveState::Removing => ev is Removed,
        ArchiveState::Succeeded => false,
        ArchiveState::Failed(_) => false,
    }
}

/// The transition relation of one archival attempt for a record whose
/// catalog size is `expected`.  An event that does not answer the state's
/// action leaves the state unchanged.
pub open spec fn step_spec(expected: u64, st: ArchiveState, ev: ArchiveEvent) -> ArchiveState {
    match (st, ev) {
        (ArchiveState::MakingDir, ArchiveEvent::DirMade { ok }) => if ok {
            ArchiveState::CheckingDest
        } else {
            ArchiveState::Failed(ArchiveError::DirFailed)
        },
        (ArchiveState::CheckingDest, ArchiveEvent::DestChecked { exists }) => if exists {
            ArchiveState::Failed(ArchiveError::Collision)
        } else {
            ArchiveState::Copying
        },
        (ArchiveState::CheckingDest, ArchiveEvent::DestCheckFailed) => ArchiveState::Failed(
            ArchiveError::StatFailed,
        ),
        (ArchiveState::Copying, ArchiveEvent::Copied { ok }) => if ok {
            ArchiveState::Verifying
        } else {
            ArchiveState::Failed(ArchiveError::CopyFailed)
        },
        (ArchiveState::Verifying, ArchiveEvent::SizeRead { size }) => if size == expected {
            ArchiveState::Succeeded
        } else {
            ArchiveState::Removing
        },
        (ArchiveState::Verifying, ArchiveEvent::SizeReadFailed) => ArchiveState::Failed(
            ArchiveError::StatFailed,
        ),
        (ArchiveState::Removing, ArchiveEvent::Removed { ok }) => if ok {
            ArchiveState::Failed(ArchiveError::Integrity)
        } else {
            ArchiveState::Failed(ArchiveError::RemoveFailed)
        },
        _ => st,
    }
}

/// Advances one archival attempt by one observed event.
pub fn archive_step(expected: u64, st: ArchiveState, ev: ArchiveEvent) -> (r: ArchiveState)
    ensures
        r == step_spec(expected, st, ev),
{
    match (st, ev) {
        (ArchiveState::MakingDir, ArchiveEvent::DirMade { ok }) => {
            if ok {
                ArchiveState::CheckingDest
            } else {
                ArchiveState::Failed(ArchiveError::DirFailed)
            }
        },
        (ArchiveState::CheckingDest, ArchiveEvent::DestChecked { exists }) => {
            if exists {
                ArchiveState::Failed(ArchiveError::Collision)
            } else {
                ArchiveState::Copying
            }
        },
        (ArchiveState::CheckingDest, ArchiveEvent::DestCheckFailed) => ArchiveState::Failed(
            ArchiveError::StatFailed,
        ),
        (ArchiveState::Copying, ArchiveEvent::Copied { ok }) => {
            if ok {
                ArchiveState::Verifying
            } else {
                ArchiveState::Failed(ArchiveError::CopyFailed)
            }
        },
        (ArchiveState::Verifying, ArchiveEvent::SizeRead { size }) => {
            if size == expected {
                ArchiveState::Succeeded
            } else {
                ArchiveState::Removing
            }
        },
        (ArchiveState::Verifying, ArchiveEvent::SizeReadFailed) => ArchiveState::Failed(
            ArchiveError::StatFailed,
        ),
        (ArchiveState::Removing, ArchiveEvent::Removed { ok }) => {
            if ok {
                ArchiveState::Failed(ArchiveError::Integrity)
            } else {
                ArchiveState::Failed(ArchiveError::RemoveFailed)
            }
        },
        (s, _) => s,
    }
}

/// A base path and a relative path joined by one separator.
pub open spec fn joined(base: Seq<char>, rel: Seq<char>) -> Seq<char> {
    base + seq!['/'] + rel
}

/// Joins a base path and a relative path with one separator.
pub fn join_path(base: &str, rel: &str) -> (r: String)
    ensures
        r@ == joined(base@, rel@),
{
    proof {
        reveal_strlit("/");
    }
    let mut s = base.to_owned();
    s.append("/");
    s.append(rel);
    proof {
        assert(s@ =~= joined(base@, rel@));
    }
    s
}

/// The date-bucket directory an image is archived into.
pub open spec fn bucket_dir_of(target_base: Seq<char>, d: Date) -> Seq<char> {
    joined(target_base, d.bucket_chars())
}

/// The exact destination path: the bucket directory plus the display name.
pub open spec fn dest_path_of(target_base: Seq<char>, im: ImageAdv) -> Seq<char> {
    joined(bucket_dir_of(target_base, im.date), display_name_of(im.basic.path@))
}

/// Where the bytes are read from: the source root plus the identity.
pub open spec fn source_path_of(source_base: Seq<char>, im: ImageAdv) -> Seq<char> {
    joined(source_base, im.basic.path@)
}

/// The file operation to perform in this state, with its exact paths: the
/// bucket directory from the record's date, the destination bearing the
/// record's display name, the source under its identity.  Terminal states
/// ask for nothing.
pub fn archive_action(
    image: &ImageAdv,
    source_base: &str,
    target_base: &str,
    st: &ArchiveState,
) -> (r: Option<ArchiveAction>)
    requires
        image.date.valid(),
    ensures
        match st {
            ArchiveState::MakingDir => r matches Some(ArchiveAction::CreateDir { path })
                && path@ == bucket_dir_of(target_base@, image.date),
            ArchiveState::CheckingDest => r matches Some(ArchiveAction::CheckExists { path })
                && path@ == dest_path_of(target_base@, *image),
            ArchiveState::Copying => r matches Some(ArchiveAction::CopyFile { from, to })
                && from@ == source_path_of(source_base@, *image) && to@ == dest_path_of(
                target_base@,
                *image,
            ),
            ArchiveState::Verifying => r matches Some(ArchiveAction::ReadSize { path })
                && path@ == dest_path_of(target_base@, *image),
            ArchiveState::Removing => r matches Some(ArchiveAction::RemoveFile { path })
                && path@ == dest_path_of(target_base@, *image),
            ArchiveState::Succeeded => r is None,
            ArchiveState::Failed(_) => r is None,
        },
{
    match st {
        ArchiveState::MakingDir => {
            let bucket = image.date.bucket_name();
            Some(ArchiveAction::CreateDir { path: join_path(target_base, bucket.as_str()) })
        },
        ArchiveState::CheckingDest => Some(
            ArchiveAction::CheckExists { path: dest_path(image, target_base) },
        ),
        ArchiveState::Copying => Some(
            ArchiveAction::CopyFile {
                from: join_path(source_base, image.basic.path.as_str()),
                to: dest_path(image, target_base),
            },
        ),
        ArchiveState::Verifying => Some(
            ArchiveAction::ReadSize { path: dest_path(image, target_base) },
        ),
        ArchiveState::Removing => Some(
            ArchiveAction::RemoveFile { path: dest_path(image, target_base) },
        ),
        ArchiveState::Succeeded => None,
        ArchiveState::Failed(_) => None,
    }
}

/// The exact destination path of one image under the target root.
pub fn dest_path(image: &ImageAdv, target_base: &str) -> (r: String)
    requires
        image.date.valid(),
    ensures
        r@ == dest_path_of(target_base@, *image),
{
    let bucket = image.date.bucket_name();
    let dir = join_path(target_base, bucket.as_str());
    let name = image.basic.get_name();
    join_path(dir.as_str(), name)
}

/// The state after the first `i` events of an attempt that starts in
/// [`ArchiveState::MakingDir`].
pub open spec fn state_at(expected: u64, evs: Seq<ArchiveEvent>, i: int) -> ArchiveState
    decreases i,
{
    if i <= 0 {
        ArchiveState::MakingDir
    } else {
        step_spec(expected, state_at(expected, evs, i - 1), evs[i - 1])
    }
}

/// Every event of the trace answers the action its state asks for.
pub open spec fn trace_fits(expected: u64, evs: Seq<ArchiveEvent>) -> bool {
    forall|i: int|
        0 <= i < evs.len() ==> ev_fits(state_at(expected, evs, i), #[trigger] evs[i])
}

/// How far an attempt has progressed; transitions never go back.
pub open spec fn phase(st: ArchiveState) -> int {
    match st {
        ArchiveState::MakingDir => 0,
        ArchiveState::CheckingDest => 1,
        ArchiveState::Copying => 2,
        ArchiveState::Verifying => 3,
        ArchiveState::Removing => 4,
        ArchiveState::Succeeded => 5,
        ArchiveState::Failed(_) => 6,
    }
}

/// One step never decreases the progress of an attempt.
proof fn lemma_phase_step(expected: u64, st: ArchiveState, ev: ArchiveEvent)
    ensures
        phase(step_spec(expected, st, ev)) >= phase(st),
{
}

/// Along a trace, progress only grows.
proof fn lemma_phase_monotone(expected: u64, evs: Seq<ArchiveEvent>, k1: int, k2: int)
    requires
        0 <= k1 <= k2,
    ensures
        phase(state_at(expected, evs, k1)) <= phase(state_at(expected, evs, k2)),
    decreases k2 - k1,
{
    if k1 < k2 {
        lemma_phase_monotone(expected, evs, k1, k2 - 1);
        lemma_phase_step(expected, state_at(expected, evs, k2 - 1), evs[k2 - 1]);
    }
}

/// A finished attempt, successful or failed, answers no further event: a
/// fitting trace ends there.
pub proof fn lemma_terminal_is_final(expected: u64, evs: Seq<ArchiveEvent>, i: int)
    requires
        trace_fits(expected, evs),
        0 <= i < evs.len(),
    ensures
        !(state_at(expected, evs, i) is Succeeded),
        !(state_at(expected, evs, i) is Failed),
{
    assert(ev_fits(state_at(expected, evs, i), evs[i]));
}

/// The bytes are copied only after the destination was checked and found
/// free: the step into [`ArchiveState::Copying`] is exactly the answer
/// "no file bears that name yet".
pub proof fn lemma_copy_needs_free_dest(expected: u64, evs: Seq<ArchiveEvent>, i: int)
    requires
        trace_fits(expected, evs),
        0 <= i <= evs.len(),
        state_at(expected, evs, i) is Copying,
    ensures
        i > 0,
        state_at(expected, evs, i - 1) is CheckingDest,
        evs[i - 1] == (ArchiveEvent::DestChecked { exists: false }),
{
    assert(!(state_at(expected, evs, 0) is Copying));
    assert(ev_fits(state_at(expected, evs, i - 1), evs[i - 1]));
}

/// A destination-name collision fails the attempt at once, and the bytes
/// are never copied anywhere in such a trace: the existing file is not
/// overwritten.
pub proof fn lemma_collision_no_copy(expected: u64, evs: Seq<ArchiveEvent>, i: int)
    requires
        trace_fits(expected, evs),
        0 <= i < evs.len(),
        state_at(expected, evs, i) is CheckingDest,
        evs[i] == (ArchiveEvent::DestChecked { exists: true }),
    ensures
        state_at(expected, evs, i + 1) == ArchiveState::Failed(ArchiveError::Collision),
        forall|k: int| 0 <= k <= evs.len() ==> !(state_at(expected, evs, k) is Copying),
{
    assert forall|k: int| 0 <= k <= evs.len() implies !(state_at(expected, evs, k) is Copying) by {
        if state_at(expected, evs, k) is Copying {
            if k <= i {
                lemma_phase_monotone(expected, evs, k, i);
            } else {
                if i + 1 < evs.len() {
                    assert(ev_fits(state_at(expected, evs, i + 1), evs[i + 1]));
                }
                assert(k == i + 1);
            }
        }
    }
}

/// Success is reported only when the size read back equals the catalog
/// size: the step into [`ArchiveState::Succeeded`] is exactly that answer.
pub proof fn lemma_success_needs_verified_size(expected: u64, evs: Seq<ArchiveEvent>, i: int)
    requires
        trace_fits(expected, evs),
        0 <= i <= evs.len(),
        state_at(expected, evs, i) is Succeeded,
    ensures
        i > 0,
        state_at(expected, evs, i - 1) is Verifying,
        evs[i - 1] == (ArchiveEvent::SizeRead { size: expected }),
{
    assert(!(state_at(expected, evs, 0) is Succeeded));
    assert(ev_fits(state_at(expected, evs, i - 1), evs[i - 1]));
}

/// A size that does not verify sends the attempt to remove the corrupt
/// copy, and no later state of the trace reports success: the record stays
/// unarchived and is retried on the next run.
pub proof fn lemma_mismatch_removes_and_fails(expected: u64, evs: Seq<ArchiveEvent>, i: int)
    requires
        trace_fits(expected, evs),
        0 <= i < evs.len(),
        state_at(expected, evs, i) is Verifying,
        evs[i] matches ArchiveEvent::SizeRead { size } && size != expected,
    ensures
        state_at(expected, evs, i + 1) == ArchiveState::Removing,
        forall|k: int| 0 <= k <= evs.len() ==> !(state_at(expected, evs, k) is Succeeded),
{
    assert forall|k: int| 0 <= k <= evs.len() implies !(state_at(expected, evs, k) is Succeeded)
        by {
        if state_at(expected, evs, k) is Succeeded {
            if k <= i {
                lemma_phase_monotone(expected, evs, k, i);
            } else if k == i + 1 {
                assert(state_at(expected, evs, k) == ArchiveState::Removing);
            } else {
                lemma_success_needs_verified_size(expected, evs, k);
                lemma_phase_monotone(expected, evs, i + 1, k - 1);
            }
        }
    }
}

} // verus!
