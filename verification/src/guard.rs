//! The exclusive guard: directory-existence-based mutual exclusion.
//!
//! Acquiring the guard succeeds exactly when its directory did not already
//! exist, relying on the filesystem's atomic create-if-absent directory
//! semantics; releasing removes it.  An informational marker file inside
//! the directory names the holder, for diagnostics only.
//!
//! The verified core performs no filesystem call itself.  It is a step
//! machine: each call hands the unverified shell one `FsAction` to
//! perform, and the shell reports the outcome back as an `FsEvent`.  The
//! machine decides every transition — in particular the rollback that
//! removes a freshly created guard directory when the marker file cannot
//! be created, so no orphaned directory is left to block all future
//! acquisition.

use vstd::prelude::*;

use crate::identity::ProcessId;

verus! {

/// One filesystem step the shell is asked to perform next.
#[derive(Debug)]
pub enum FsAction {
    /// Atomically create this directory (create-if-absent).
    CreateDir(String),
    /// Create this file afresh.
    CreateFile(String),
    /// Remove this file; an already absent file counts as removed.
    RemoveFile(String),
    /// Remove this directory.
    RemoveDir(String),
    /// Read this file whole.
    ReadFile(String),
    /// Write this file in one piece, so that a concurrent reader never
    /// observes a half-written file.
    WriteFile(String, Vec<u8>),
    /// Nothing further: the operation has concluded.
    Done,
}

/// The outcome the shell reports for the last action.
#[derive(Debug)]
pub enum FsEvent {
    /// The directory or file was created.
    Created,
    /// The directory already existed: someone else holds it.
    AlreadyExists,
    /// The file or directory was removed, or was already absent.
    Removed,
    /// The file's contents, or nothing if the file is absent.
    FileRead(Option<Vec<u8>>),
    /// The file was written.
    Written,
    /// Any other filesystem failure.
    IoFailed,
}

/// Where the guard machine stands.
#[derive(Clone, Copy, PartialEq, Eq, Structural, Debug)]
pub enum GuardPhase {
    /// Waiting for the outcome of creating the guard directory.
    Creating,
    /// Directory created; waiting for the outcome of the marker file.
    Marking,
    /// Marker creation failed; waiting for the rollback removal of the
    /// directory just created.
    Unwinding,
    /// Acquired: the directory exists and is ours.
    Held,
    /// Releasing: waiting for the marker file's removal.
    Dropping,
    /// Releasing: waiting for the directory's removal.
    Clearing,
    /// Terminal: the directory already existed, nothing was changed.
    Busy,
    /// Terminal: a filesystem failure; nothing of ours is left behind.
    Failed,
    /// Terminal: released.
    Released,
}

/// The transition relation of the guard machine.  Release steps are best
/// effort: whatever the shell reports, the machine moves on, since the
/// releasing caller may itself be unwinding from an earlier error.
pub open spec fn guard_step(p: GuardPhase, e: FsEvent) -> GuardPhase {
    match p {
        GuardPhase::Creating => match e {
            FsEvent::Created => GuardPhase::Marking,
            FsEvent::AlreadyExists => GuardPhase::Busy,
            _ => GuardPhase::Failed,
        },
        GuardPhase::Marking => match e {
            FsEvent::Created => GuardPhase::Held,
            _ => GuardPhase::Unwinding,
        },
        GuardPhase::Unwinding => GuardPhase::Failed,
        GuardPhase::Dropping => GuardPhase::Clearing,
        GuardPhase::Clearing => GuardPhase::Released,
        _ => p,
    }
}

/// Whether the machine is waiting for the outcome of an action.
pub open spec fn guard_awaits(p: GuardPhase) -> bool {
    match p {
        GuardPhase::Creating | GuardPhase::Marking | GuardPhase::Unwinding
            | GuardPhase::Dropping | GuardPhase::Clearing => true,
        _ => false,
    }
}

/// The action owed to the shell on entering phase `p`.
pub open spec fn guard_action_ok(a: FsAction, p: GuardPhase, dir: Seq<char>, file: Seq<char>) -> bool {
    match p {
        GuardPhase::Creating => a matches FsAction::CreateDir(d) && d@ == dir,
        GuardPhase::Marking => a matches FsAction::CreateFile(f) && f@ == file,
        GuardPhase::Unwinding => a matches FsAction::RemoveDir(d) && d@ == dir,
        GuardPhase::Dropping => a matches FsAction::RemoveFile(f) && f@ == file,
        GuardPhase::Clearing => a matches FsAction::RemoveDir(d) && d@ == dir,
        _ => a is Done,
    }
}

/// A directory-based exclusive lock: the pathname of the directory that
/// embodies it, the marker file within, and the machine's phase.
#[derive(Debug)]
pub struct ExclusiveLock {
    /// The pathname of the directory holding the lock.
    dir: String,
    /// The marker file within the directory identifying the holder.
    file: String,
    /// Where the acquisition or release protocol stands.
    phase: GuardPhase,
}

impl ExclusiveLock {
    /// The directory's pathname.
    pub closed spec fn dir_view(self) -> Seq<char> {
        self.dir@
    }

    /// The marker file's pathname: the directory joined with the holder's
    /// filename-form identity.
    pub closed spec fn file_view(self) -> Seq<char> {
        self.file@
    }

    pub closed spec fn phase_of(self) -> GuardPhase {
        self.phase
    }

    /// Begin acquiring an exclusive lock on the directory `dir`, with a
    /// marker file named after `id`.  The returned action must be
    /// performed by the caller and its outcome handed to `step`.
    pub fn new(dir: String, id: &ProcessId) -> (r: (ExclusiveLock, FsAction))
        ensures
            r.0.phase_of() == GuardPhase::Creating,
            r.0.dir_view() == dir@,
            r.0.file_view() == dir@ + "/"@ + id.filename(),
            guard_action_ok(r.1, r.0.phase_of(), r.0.dir_view(), r.0.file_view()),
    {
        let mut file = dir.clone();
        file.append("/");
        let name = id.to_filename();
        file.append(name.as_str());
        let action = FsAction::CreateDir(dir.clone());
        (
            ExclusiveLock { dir, file, phase: GuardPhase::Creating },
            action,
        )
    }

    /// Report the outcome of the last action and receive the next one.
    pub fn step(&mut self, e: FsEvent) -> (r: FsAction)
        requires
            guard_awaits(old(self).phase_of()),
        ensures
            final(self).dir_view() == old(self).dir_view(),
            final(self).file_view() == old(self).file_view(),
            final(self).phase_of() == guard_step(old(self).phase_of(), e),
            guard_action_ok(r, final(self).phase_of(), final(self).dir_view(), final(self).file_view()),
    {
        match self.phase {
            GuardPhase::Creating => match e {
                FsEvent::Created => {
                    self.phase = GuardPhase::Marking;
                    FsAction::CreateFile(self.file.clone())
                },
                FsEvent::AlreadyExists => {
                    self.phase = GuardPhase::Busy;
                    FsAction::Done
                },
                _ => {
                    self.phase = GuardPhase::Failed;
                    FsAction::Done
                },
            },
            GuardPhase::Marking => match e {
                FsEvent::Created => {
                    self.phase = GuardPhase::Held;
                    FsAction::Done
                },
                _ => {
                    self.phase = GuardPhase::Unwinding;
                    FsAction::RemoveDir(self.dir.clone())
                },
            },
            GuardPhase::Unwinding => {
                self.phase = GuardPhase::Failed;
                FsAction::Done
            },
            GuardPhase::Dropping => {
                self.phase = GuardPhase::Clearing;
                FsAction::RemoveDir(self.dir.clone())
            },
            _ => {
                self.phase = GuardPhase::Released;
                FsAction::Done
            },
        }
    }

    /// Begin releasing a held lock: first the marker file goes, then the
    /// directory.  Failures along the way are absorbed, never escalated.
    pub fn release(&mut self) -> (r: FsAction)
        requires
            old(self).phase_of() == GuardPhase::Held,
        ensures
            final(self).dir_view() == old(self).dir_view(),
            final(self).file_view() == old(self).file_view(),
            final(self).phase_of() == GuardPhase::Dropping,
            guard_action_ok(r, final(self).phase_of(), final(self).dir_view(), final(self).file_view()),
    {
        self.phase = GuardPhase::Dropping;
        FsAction::RemoveFile(self.file.clone())
    }
}

/// If creating the marker file fails after the guard directory was
/// created, the directory must not remain on disk: the machine's next and
/// only demand is the removal of that very directory, and the acquisition
/// then concludes failed, with nothing of ours left behind.
pub proof fn lemma_marker_failure_rolls_back(e: FsEvent, e2: FsEvent, a: FsAction, dir: Seq<char>, file: Seq<char>)
    requires
        !(e is Created),
        guard_action_ok(a, guard_step(GuardPhase::Marking, e), dir, file),
    ensures
        guard_step(GuardPhase::Marking, e) == GuardPhase::Unwinding,
        a matches FsAction::RemoveDir(d) && d@ == dir,
        guard_step(guard_step(GuardPhase::Marking, e), e2) == GuardPhase::Failed,
{
}

} // verus!
