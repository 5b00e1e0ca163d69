//! The lock coordinator: a state machine over unlocked, shared and
//! exclusive access.
//!
//! A `Lock` composes the exclusive guard (as the long-held marker of an
//! exclusive session, and as the short-lived mutation guard serializing
//! every roster read-modify-write) with the roster (recording every
//! holder).  Acquisition never waits: it succeeds or fails with
//! `LockBusy` at once, and any multi-step acquisition that fails partway
//! undoes everything it has already done before reporting the error.
//!
//! Like the guard, the coordinator performs no filesystem call itself:
//! each operation is begun with `lock_exclusive`, `lock_shared` or
//! `release`, driven by handing each action's outcome to `step` until the
//! machine answers `Done`, and concluded with `finish`.

use vstd::prelude::*;
use vstd::pervasive::unreached;

use crate::codec::{lemma_load_v_ok, lemma_removed_ok, load_v, roster_bytes, roster_ok};
use crate::guard::{FsAction, FsEvent};
use crate::identity::ProcessId;
use crate::roster::{exclusive_outcome, shared_outcome, Roster, RosterV};
use crate::Error;

verus! {

/// Locks start out `Unlocked`, and can then be transitioned through the
/// states `Unlocked`, `Shared`, and `Exclusive`.
#[derive(Clone, Copy, PartialEq, Eq, Structural, Debug)]
pub enum State {
    Unlocked,
    Shared,
    Exclusive,
}

/// Why an operation concluded without success.  The path the error names
/// is attached when the outcome is reported, so only the reason is kept.
#[derive(Clone, Copy, Debug)]
pub enum Fail {
    /// The long-held exclusive guard directory already existed.
    BusyGuard,
    /// The mutation guard directory already existed.
    BusyMutate,
    /// The roster records a holder incompatible with the request.
    BusyRoster,
    /// A filesystem failure.
    Io,
    /// The roster file is present but unparseable.
    Corrupt,
}

/// Where an in-flight operation stands: which action's outcome the
/// machine is waiting for.
#[derive(Clone, Copy, Debug)]
pub enum LockFlow {
    /// No operation in flight.
    Idle,
    /// Exclusive acquisition: creating the long-held guard directory.
    ExGuardDir,
    /// Exclusive acquisition: creating the guard's marker file.
    ExGuardMarker,
    /// Marker creation failed: removing the guard directory just created,
    /// so no orphan is left behind.
    ExGuardUnwind,
    /// Exclusive acquisition: creating the mutation guard directory.
    ExMutateDir,
    /// Exclusive acquisition: reading the roster file.
    ExRead,
    /// Exclusive acquisition: writing the updated roster.
    ExWrite,
    /// Exclusive acquisition: removing the mutation guard; `None` means
    /// the acquisition succeeded.
    ExMutateRel(Option<Fail>),
    /// Failed exclusive acquisition: removing the guard's marker file.
    ExGuardRelMarker(Fail),
    /// Failed exclusive acquisition: removing the guard directory.
    ExGuardRelDir(Fail),
    /// Shared acquisition: creating the mutation guard directory.
    ShMutateDir,
    /// Shared acquisition: reading the roster file.
    ShRead,
    /// Shared acquisition: writing the updated roster.
    ShWrite,
    /// Shared acquisition: removing the mutation guard.
    ShMutateRel(Option<Fail>),
    /// Release: creating the mutation guard directory.
    RelMutateDir,
    /// Release: reading the roster file.
    RelRead,
    /// Release: writing the shrunk roster, or deleting it.
    RelWrite,
    /// Release: removing the mutation guard.
    RelMutateRel(Option<Fail>),
    /// Successful release of an exclusive session: removing the long-held
    /// guard's marker file.
    RelGuardMarker,
    /// Successful release of an exclusive session: removing the long-held
    /// guard directory.
    RelGuardDir,
    /// The operation has concluded; `finish` reports the outcome.
    Settled(Option<Fail>),
}

/// A general lock over a directory, using a name prefix: with base
/// `"lock"`, the long-held exclusive guard is the directory
/// `"lock.exclusive"`, the roster file is `"lock.roster"`, and the
/// mutation guard is the directory `"lock.mutate"`.
#[derive(Debug)]
pub struct Lock {
    /// The directory containing the lock.
    path: String,
    /// The prefix of each file and directory name.
    base: String,
    /// Cached identity of this process, captured once at construction.
    id: ProcessId,
    /// The state of this session.
    state: State,
    /// The last roster value read or written.
    roster: Roster,
    /// The in-flight operation.
    flow: LockFlow,
}

impl Lock {
    pub closed spec fn path_v(self) -> Seq<char> {
        self.path@
    }

    pub closed spec fn base_v(self) -> Seq<char> {
        self.base@
    }

    pub closed spec fn id_v(self) -> (Seq<char>, int, int) {
        self.id@
    }

    pub closed spec fn state_of(self) -> State {
        self.state
    }

    pub closed spec fn roster_v(self) -> RosterV {
        self.roster@
    }

    pub closed spec fn flow_of(self) -> LockFlow {
        self.flow
    }

    /// The long-held exclusive guard directory's pathname.
    pub closed spec fn en(self) -> Seq<char> {
        self.path@ + "/"@ + self.base@ + ".exclusive"@
    }

    /// The roster file's pathname.
    pub closed spec fn rn(self) -> Seq<char> {
        self.path@ + "/"@ + self.base@ + ".roster"@
    }

    /// The mutation guard directory's pathname.
    pub closed spec fn mn(self) -> Seq<char> {
        self.path@ + "/"@ + self.base@ + ".mutate"@
    }

    /// The guard marker file's pathname.
    pub closed spec fn marker_v(self) -> Seq<char> {
        self.en() + "/"@ + self.id.filename()
    }

    /// The machine's own consistency: an identity the roster file can
    /// represent, and a roster cache that can always be written back.
    pub closed spec fn wf(self) -> bool {
        self.id.wf() && roster_ok(self.roster@)
    }
}

/// The identity, paths and base of a lock never change.
pub open spec fn frame_ok(pre: Lock, post: Lock) -> bool {
    post.path_v() == pre.path_v() && post.base_v() == pre.base_v() && post.id_v() == pre.id_v()
}

/// Neither the session state nor the roster cache moved.
pub open spec fn same_sr(pre: Lock, post: Lock) -> bool {
    post.state_of() == pre.state_of() && post.roster_v() == pre.roster_v()
}

/// Whether `step` may be called: an operation is in flight and not yet
/// settled.
pub open spec fn lock_awaits(f: LockFlow) -> bool {
    !(f is Idle) && !(f is Settled)
}

/// One transition of the exclusive-acquisition protocol.
pub open spec fn step_ex(pre: Lock, e: FsEvent, post: Lock, r: FsAction) -> bool {
    match pre.flow_of() {
        LockFlow::ExGuardDir => match e {
            FsEvent::Created => post.flow_of() matches LockFlow::ExGuardMarker && same_sr(
                pre,
                post,
            ) && (r matches FsAction::CreateFile(f) && f@ == pre.marker_v()),
            FsEvent::AlreadyExists => post.flow_of() matches LockFlow::Settled(f) && f
                matches Some(Fail::BusyGuard) && same_sr(pre, post) && r is Done,
            _ => post.flow_of() matches LockFlow::Settled(f) && f matches Some(Fail::Io)
                && same_sr(pre, post) && r is Done,
        },
        LockFlow::ExGuardMarker => match e {
            FsEvent::Created => post.flow_of() matches LockFlow::ExMutateDir && same_sr(
                pre,
                post,
            ) && (r matches FsAction::CreateDir(d) && d@ == pre.mn()),
            _ => post.flow_of() matches LockFlow::ExGuardUnwind && same_sr(pre, post) && (r
                matches FsAction::RemoveDir(d) && d@ == pre.en()),
        },
        LockFlow::ExGuardUnwind => post.flow_of() matches LockFlow::Settled(f) && f
            matches Some(Fail::Io) && same_sr(pre, post) && r is Done,
        LockFlow::ExMutateDir => match e {
            FsEvent::Created => post.flow_of() matches LockFlow::ExRead && same_sr(pre, post)
                && (r matches FsAction::ReadFile(p) && p@ == pre.rn()),
            FsEvent::AlreadyExists => post.flow_of() matches LockFlow::ExGuardRelMarker(f) && f
                is BusyMutate && same_sr(pre, post) && (r matches FsAction::RemoveFile(p) && p@
                == pre.marker_v()),
            _ => post.flow_of() matches LockFlow::ExGuardRelMarker(f) && f is Io && same_sr(
                pre,
                post,
            ) && (r matches FsAction::RemoveFile(p) && p@ == pre.marker_v()),
        },
        LockFlow::ExRead => match e {
            FsEvent::FileRead(ob) => match load_v(ob) {
                Some(rv) => match exclusive_outcome(rv, pre.id_v()) {
                    Some(rv2) => post.flow_of() matches LockFlow::ExWrite && post.state_of()
                        == pre.state_of() && post.roster_v() == rv2 && (r
                        matches FsAction::WriteFile(p, b) && p@ == pre.rn() && Some(b@)
                        == roster_bytes(rv2)),
                    None => post.flow_of() matches LockFlow::ExMutateRel(f) && f matches Some(
                        Fail::BusyRoster,
                    ) && post.state_of() == pre.state_of() && post.roster_v() == rv && (r
                        matches FsAction::RemoveDir(d) && d@ == pre.mn()),
                },
                None => post.flow_of() matches LockFlow::ExMutateRel(f) && f matches Some(
                    Fail::Corrupt,
                ) && same_sr(pre, post) && (r matches FsAction::RemoveDir(d) && d@ == pre.mn()),
            },
            _ => post.flow_of() matches LockFlow::ExMutateRel(f) && f matches Some(Fail::Io)
                && same_sr(pre, post) && (r matches FsAction::RemoveDir(d) && d@ == pre.mn()),
        },
        LockFlow::ExWrite => match e {
            FsEvent::Written => post.flow_of() matches LockFlow::ExMutateRel(f) && f is None
                && same_sr(pre, post) && (r matches FsAction::RemoveDir(d) && d@ == pre.mn()),
            _ => post.flow_of() matches LockFlow::ExMutateRel(f) && f matches Some(Fail::Io)
                && same_sr(pre, post) && (r matches FsAction::RemoveDir(d) && d@ == pre.mn()),
        },
        LockFlow::ExMutateRel(res) => match res {
            None => post.flow_of() matches LockFlow::Settled(f) && f is None && post.state_of()
                is Exclusive && post.roster_v() == pre.roster_v() && r is Done,
            Some(fail) => post.flow_of() matches LockFlow::ExGuardRelMarker(f2) && f2 == fail
                && same_sr(pre, post) && (r matches FsAction::RemoveFile(p) && p@
                == pre.marker_v()),
        },
        LockFlow::ExGuardRelMarker(fail) => post.flow_of() matches LockFlow::ExGuardRelDir(f2)
            && f2 == fail && same_sr(pre, post) && (r matches FsAction::RemoveDir(d) && d@
            == pre.en()),
        LockFlow::ExGuardRelDir(fail) => post.flow_of() matches LockFlow::Settled(f) && f
            == Some(fail) && post.state_of() is Unlocked && post.roster_v() == pre.roster_v()
            && r is Done,
        _ => true,
    }
}

/// One transition of the shared-acquisition protocol.
pub open spec fn step_sh(pre: Lock, e: FsEvent, post: Lock, r: FsAction) -> bool {
    match pre.flow_of() {
        LockFlow::ShMutateDir => match e {
            FsEvent::Created => post.flow_of() matches LockFlow::ShRead && same_sr(pre, post)
                && (r matches FsAction::ReadFile(p) && p@ == pre.rn()),
            FsEvent::AlreadyExists => post.flow_of() matches LockFlow::Settled(f) && f
                matches Some(Fail::BusyMutate) && same_sr(pre, post) && r is Done,
            _ => post.flow_of() matches LockFlow::Settled(f) && f matches Some(Fail::Io)
                && same_sr(pre, post) && r is Done,
        },
        LockFlow::ShRead => match e {
            FsEvent::FileRead(ob) => match load_v(ob) {
                Some(rv) => match shared_outcome(rv, pre.id_v()) {
                    Some(rv2) => post.flow_of() matches LockFlow::ShWrite && post.state_of()
                        == pre.state_of() && post.roster_v() == rv2 && (r
                        matches FsAction::WriteFile(p, b) && p@ == pre.rn() && Some(b@)
                        == roster_bytes(rv2)),
                    None => post.flow_of() matches LockFlow::ShMutateRel(f) && f matches Some(
                        Fail::BusyRoster,
                    ) && post.state_of() == pre.state_of() && post.roster_v() == rv && (r
                        matches FsAction::RemoveDir(d) && d@ == pre.mn()),
                },
                None => post.flow_of() matches LockFlow::ShMutateRel(f) && f matches Some(
                    Fail::Corrupt,
                ) && same_sr(pre, post) && (r matches FsAction::RemoveDir(d) && d@ == pre.mn()),
            },
            _ => post.flow_of() matches LockFlow::ShMutateRel(f) && f matches Some(Fail::Io)
                && same_sr(pre, post) && (r matches FsAction::RemoveDir(d) && d@ == pre.mn()),
        },
        LockFlow::ShWrite => match e {
            FsEvent::Written => post.flow_of() matches LockFlow::ShMutateRel(f) && f is None
                && same_sr(pre, post) && (r matches FsAction::RemoveDir(d) && d@ == pre.mn()),
            _ => post.flow_of() matches LockFlow::ShMutateRel(f) && f matches Some(Fail::Io)
                && same_sr(pre, post) && (r matches FsAction::RemoveDir(d) && d@ == pre.mn()),
        },
        LockFlow::ShMutateRel(res) => match res {
            None => post.flow_of() matches LockFlow::Settled(f) && f is None && post.state_of()
                is Shared && post.roster_v() == pre.roster_v() && r is Done,
            Some(fail) => post.flow_of() matches LockFlow::Settled(f) && f == Some(fail)
                && post.state_of() is Unlocked && post.roster_v() == pre.roster_v() && r
                is Done,
        },
        _ => true,
    }
}

/// One transition of the release protocol.  A failure after the roster
/// write leaves the session held, so release can be retried; the removal
/// of the guards themselves is best effort.
pub open spec fn step_rl(pre: Lock, e: FsEvent, post: Lock, r: FsAction) -> bool {
    match pre.flow_of() {
        LockFlow::RelMutateDir => match e {
            FsEvent::Created => post.flow_of() matches LockFlow::RelRead && same_sr(pre, post)
                && (r matches FsAction::ReadFile(p) && p@ == pre.rn()),
            FsEvent::AlreadyExists => post.flow_of() matches LockFlow::Settled(f) && f
                matches Some(Fail::BusyMutate) && same_sr(pre, post) && r is Done,
            _ => post.flow_of() matches LockFlow::Settled(f) && f matches Some(Fail::Io)
                && same_sr(pre, post) && r is Done,
        },
        LockFlow::RelRead => match e {
            FsEvent::FileRead(ob) => match load_v(ob) {
                Some(rv) => post.flow_of() matches LockFlow::RelWrite && post.state_of()
                    == pre.state_of() && post.roster_v() == rv.removed(pre.id_v()) && (match
                    roster_bytes(rv.removed(pre.id_v())) {
                    Some(bs) => r matches FsAction::WriteFile(p, b) && p@ == pre.rn() && b@
                        == bs,
                    None => r matches FsAction::RemoveFile(p) && p@ == pre.rn(),
                }),
                None => post.flow_of() matches LockFlow::RelMutateRel(f) && f matches Some(
                    Fail::Corrupt,
                ) && same_sr(pre, post) && (r matches FsAction::RemoveDir(d) && d@ == pre.mn()),
            },
            _ => post.flow_of() matches LockFlow::RelMutateRel(f) && f matches Some(Fail::Io)
                && same_sr(pre, post) && (r matches FsAction::RemoveDir(d) && d@ == pre.mn()),
        },
        LockFlow::RelWrite => match e {
            FsEvent::Written | FsEvent::Removed => post.flow_of()
                matches LockFlow::RelMutateRel(f) && f is None && same_sr(pre, post) && (r
                matches FsAction::RemoveDir(d) && d@ == pre.mn()),
            _ => post.flow_of() matches LockFlow::RelMutateRel(f) && f matches Some(Fail::Io)
                && same_sr(pre, post) && (r matches FsAction::RemoveDir(d) && d@ == pre.mn()),
        },
        LockFlow::RelMutateRel(res) => match res {
            None => if pre.state_of() is Exclusive {
                post.flow_of() matches LockFlow::RelGuardMarker && same_sr(pre, post) && (r
                    matches FsAction::RemoveFile(p) && p@ == pre.marker_v())
            } else {
                post.flow_of() matches LockFlow::Settled(f) && f is None && post.state_of()
                    is Unlocked && post.roster_v() == pre.roster_v() && r is Done
            },
            Some(fail) => post.flow_of() matches LockFlow::Settled(f) && f == Some(fail)
                && same_sr(pre, post) && r is Done,
        },
        LockFlow::RelGuardMarker => post.flow_of() matches LockFlow::RelGuardDir && same_sr(
            pre,
            post,
        ) && (r matches FsAction::RemoveDir(d) && d@ == pre.en()),
        LockFlow::RelGuardDir => post.flow_of() matches LockFlow::Settled(f) && f is None
            && post.state_of() is Unlocked && post.roster_v() == pre.roster_v() && r is Done,
        _ => true,
    }
}

/// The full transition relation of the coordinator.
pub open spec fn lock_step_ok(pre: Lock, e: FsEvent, post: Lock, r: FsAction) -> bool {
    frame_ok(pre, post) && step_ex(pre, e, post, r) && step_sh(pre, e, post, r) && step_rl(
        pre,
        e,
        post,
        r,
    )
}

impl Lock {
    /// Construct a new lock in the given directory, with the given base
    /// (prefix) for the names, acting for the given identity.  The lock
    /// starts unlocked; no operation that could fail is performed.
    pub fn new(path: String, base: String, id: ProcessId) -> (r: Lock)
        requires
            id.wf(),
        ensures
            r.wf(),
            r.path_v() == path@,
            r.base_v() == base@,
            r.id_v() == id@,
            r.state_of() is Unlocked,
            r.roster_v() is Empty,
            r.flow_of() is Idle,
    {
        Lock {
            path,
            base,
            id,
            state: State::Unlocked,
            roster: Roster::Empty,
            flow: LockFlow::Idle,
        }
    }

    /// The state of this session.
    pub fn state(&self) -> (r: State)
        ensures
            r == self.state_of(),
    {
        self.state
    }

    /// Whether no operation is in flight.
    pub fn is_idle(&self) -> (r: bool)
        ensures
            r == (self.flow_of() is Idle),
    {
        matches!(self.flow, LockFlow::Idle)
    }

    fn join_name(&self, suffix: &str) -> (r: String)
        ensures
            r@ == self.path_v() + "/"@ + self.base_v() + suffix@,
    {
        let mut s = self.path.clone();
        s.append("/");
        s.append(self.base.as_str());
        s.append(suffix);
        s
    }

    /// Get the pathname of the long-held exclusive guard directory.
    pub fn exclusive_name(&self) -> (r: String)
        ensures
            r@ == self.en(),
    {
        self.join_name(".exclusive")
    }

    /// Get the pathname of the roster file.
    pub fn roster_name(&self) -> (r: String)
        ensures
            r@ == self.rn(),
    {
        self.join_name(".roster")
    }

    /// Get the pathname of the mutation guard directory.
    pub fn mutate_name(&self) -> (r: String)
        ensures
            r@ == self.mn(),
    {
        self.join_name(".mutate")
    }

    fn marker_name(&self) -> (r: String)
        ensures
            r@ == self.marker_v(),
    {
        let mut s = self.exclusive_name();
        s.append("/");
        let name = self.id.to_filename();
        s.append(name.as_str());
        s
    }

    /// Begin acquiring an exclusive lock.  Callable only while unlocked
    /// with no operation in flight: acquiring on an already locked `Lock`
    /// is a caller bug, which the shell turns into a panic, never into an
    /// error value.  Drive the returned action through `step` until it
    /// answers `Done`, then take the outcome from `finish`.
    pub fn lock_exclusive(&mut self) -> (r: FsAction)
        requires
            old(self).wf(),
            old(self).flow_of() is Idle,
            old(self).state_of() is Unlocked,
        ensures
            final(self).wf(),
            frame_ok(*old(self), *final(self)),
            same_sr(*old(self), *final(self)),
            final(self).flow_of() is ExGuardDir,
            r matches FsAction::CreateDir(d) && d@ == old(self).en(),
    {
        self.flow = LockFlow::ExGuardDir;
        FsAction::CreateDir(self.exclusive_name())
    }

    /// Begin acquiring a shared lock.  Callable only while unlocked with
    /// no operation in flight.  No long-held guard is taken: correctness
    /// for concurrent readers rests entirely on the roster.
    pub fn lock_shared(&mut self) -> (r: FsAction)
        requires
            old(self).wf(),
            old(self).flow_of() is Idle,
            old(self).state_of() is Unlocked,
        ensures
            final(self).wf(),
            frame_ok(*old(self), *final(self)),
            same_sr(*old(self), *final(self)),
            final(self).flow_of() is ShMutateDir,
            r matches FsAction::CreateDir(d) && d@ == old(self).mn(),
    {
        self.flow = LockFlow::ShMutateDir;
        FsAction::CreateDir(self.mutate_name())
    }

    /// Begin releasing the current lock.  Releasing an unlocked lock is a
    /// no-op that concludes successfully at once, so release is idempotent.
    pub fn release(&mut self) -> (r: FsAction)
        requires
            old(self).wf(),
            old(self).flow_of() is Idle,
        ensures
            final(self).wf(),
            frame_ok(*old(self), *final(self)),
            same_sr(*old(self), *final(self)),
            if old(self).state_of() is Unlocked {
                (final(self).flow_of() matches LockFlow::Settled(f) && f is None) && r is Done
            } else {
                final(self).flow_of() is RelMutateDir && (r matches FsAction::CreateDir(d) && d@
                    == old(self).mn())
            },
    {
        match self.state {
            State::Unlocked => {
                self.flow = LockFlow::Settled(None);
                FsAction::Done
            },
            _ => {
                self.flow = LockFlow::RelMutateDir;
                FsAction::CreateDir(self.mutate_name())
            },
        }
    }

    /// Report the outcome of the last action and receive the next one.
    pub fn step(&mut self, e: FsEvent) -> (r: FsAction)
        requires
            old(self).wf(),
            lock_awaits(old(self).flow_of()),
        ensures
            final(self).wf(),
            lock_step_ok(*old(self), e, *final(self), r),
    {
        match self.flow {
            LockFlow::Idle | LockFlow::Settled(_) => unreached(),
            LockFlow::ExGuardDir => match e {
                FsEvent::Created => {
                    self.flow = LockFlow::ExGuardMarker;
                    FsAction::CreateFile(self.marker_name())
                },
                FsEvent::AlreadyExists => {
                    self.flow = LockFlow::Settled(Some(Fail::BusyGuard));
                    FsAction::Done
                },
                _ => {
                    self.flow = LockFlow::Settled(Some(Fail::Io));
                    FsAction::Done
                },
            },
            LockFlow::ExGuardMarker => match e {
                FsEvent::Created => {
                    self.flow = LockFlow::ExMutateDir;
                    FsAction::CreateDir(self.mutate_name())
                },
                _ => {
                    self.flow = LockFlow::ExGuardUnwind;
                    FsAction::RemoveDir(self.exclusive_name())
                },
            },
            LockFlow::ExGuardUnwind => {
                self.flow = LockFlow::Settled(Some(Fail::Io));
                FsAction::Done
            },
            LockFlow::ExMutateDir => match e {
                FsEvent::Created => {
                    self.flow = LockFlow::ExRead;
                    FsAction::ReadFile(self.roster_name())
                },
                FsEvent::AlreadyExists => {
                    self.flow = LockFlow::ExGuardRelMarker(Fail::BusyMutate);
                    FsAction::RemoveFile(self.marker_name())
                },
                _ => {
                    self.flow = LockFlow::ExGuardRelMarker(Fail::Io);
                    FsAction::RemoveFile(self.marker_name())
                },
            },
            LockFlow::ExRead => match e {
                FsEvent::FileRead(ob) => {
                    proof {
                        lemma_load_v_ok(ob);
                    }
                    match Roster::load(ob.as_ref()) {
                        Ok(ro) => {
                            self.roster = ro;
                            let rname = self.roster_name();
                            match self.roster.make_exclusive(&self.id, rname.as_str()) {
                                Ok(()) => {
                                    proof {
                                        assert forall|i: int|
                                            0 <= i < self.roster@.holders().len() implies
                                            crate::codec::holder_ok(
                                                #[trigger] self.roster@.holders()[i],
                                            ) by {
                                            assert(self.roster@.holders()[i] == self.id@);
                                        }
                                    }
                                    match self.roster.to_bytes() {
                                        Some(bs) => {
                                            self.flow = LockFlow::ExWrite;
                                            FsAction::WriteFile(rname, bs)
                                        },
                                        None => unreached(),
                                    }
                                },
                                Err(_) => {
                                    self.flow = LockFlow::ExMutateRel(Some(Fail::BusyRoster));
                                    FsAction::RemoveDir(self.mutate_name())
                                },
                            }
                        },
                        Err(_) => {
                            self.flow = LockFlow::ExMutateRel(Some(Fail::Corrupt));
                            FsAction::RemoveDir(self.mutate_name())
                        },
                    }
                },
                _ => {
                    self.flow = LockFlow::ExMutateRel(Some(Fail::Io));
                    FsAction::RemoveDir(self.mutate_name())
                },
            },
            LockFlow::ExWrite => match e {
                FsEvent::Written => {
                    self.flow = LockFlow::ExMutateRel(None);
                    FsAction::RemoveDir(self.mutate_name())
                },
                _ => {
                    self.flow = LockFlow::ExMutateRel(Some(Fail::Io));
                    FsAction::RemoveDir(self.mutate_name())
                },
            },
            LockFlow::ExMutateRel(res) => match res {
                None => {
                    self.state = State::Exclusive;
                    self.flow = LockFlow::Settled(None);
                    FsAction::Done
                },
                Some(f) => {
                    self.flow = LockFlow::ExGuardRelMarker(f);
                    FsAction::RemoveFile(self.marker_name())
                },
            },
            LockFlow::ExGuardRelMarker(f) => {
                self.flow = LockFlow::ExGuardRelDir(f);
                FsAction::RemoveDir(self.exclusive_name())
            },
            LockFlow::ExGuardRelDir(f) => {
                self.state = State::Unlocked;
                self.flow = LockFlow::Settled(Some(f));
                FsAction::Done
            },
            LockFlow::ShMutateDir => match e {
                FsEvent::Created => {
                    self.flow = LockFlow::ShRead;
                    FsAction::ReadFile(self.roster_name())
                },
                FsEvent::AlreadyExists => {
                    self.flow = LockFlow::Settled(Some(Fail::BusyMutate));
                    FsAction::Done
                },
                _ => {
                    self.flow = LockFlow::Settled(Some(Fail::Io));
                    FsAction::Done
                },
            },
            LockFlow::ShRead => match e {
                FsEvent::FileRead(ob) => {
                    proof {
                        lemma_load_v_ok(ob);
                    }
                    match Roster::load(ob.as_ref()) {
                        Ok(ro) => {
                            let ghost loaded = ro@;
                            self.roster = ro;
                            let rname = self.roster_name();
                            match self.roster.add_shared(&self.id, rname.as_str()) {
                                Ok(()) => {
                                    proof {
                                        assert forall|i: int|
                                            0 <= i < self.roster@.holders().len() implies
                                            crate::codec::holder_ok(
                                                #[trigger] self.roster@.holders()[i],
                                            ) by {
                                            let hs = self.roster@.holders();
                                            if i == hs.len() - 1 {
                                                assert(hs[i] == self.id@);
                                            } else {
                                                assert(hs[i] == loaded.holders()[i]);
                                                assert(crate::codec::holder_ok(
                                                    loaded.holders()[i],
                                                ));
                                            }
                                        }
                                    }
                                    match self.roster.to_bytes() {
                                        Some(bs) => {
                                            self.flow = LockFlow::ShWrite;
                                            FsAction::WriteFile(rname, bs)
                                        },
                                        None => unreached(),
                                    }
                                },
                                Err(_) => {
                                    self.flow = LockFlow::ShMutateRel(Some(Fail::BusyRoster));
                                    FsAction::RemoveDir(self.mutate_name())
                                },
                            }
                        },
                        Err(_) => {
                            self.flow = LockFlow::ShMutateRel(Some(Fail::Corrupt));
                            FsAction::RemoveDir(self.mutate_name())
                        },
                    }
                },
                _ => {
                    self.flow = LockFlow::ShMutateRel(Some(Fail::Io));
                    FsAction::RemoveDir(self.mutate_name())
                },
            },
            LockFlow::ShWrite => match e {
                FsEvent::Written => {
                    self.flow = LockFlow::ShMutateRel(None);
                    FsAction::RemoveDir(self.mutate_name())
                },
                _ => {
                    self.flow = LockFlow::ShMutateRel(Some(Fail::Io));
                    FsAction::RemoveDir(self.mutate_name())
                },
            },
            LockFlow::ShMutateRel(res) => match res {
                None => {
                    self.state = State::Shared;
                    self.flow = LockFlow::Settled(None);
                    FsAction::Done
                },
                Some(f) => {
                    self.state = State::Unlocked;
                    self.flow = LockFlow::Settled(Some(f));
                    FsAction::Done
                },
            },
            LockFlow::RelMutateDir => match e {
                FsEvent::Created => {
                    self.flow = LockFlow::RelRead;
                    FsAction::ReadFile(self.roster_name())
                },
                FsEvent::AlreadyExists => {
                    self.flow = LockFlow::Settled(Some(Fail::BusyMutate));
                    FsAction::Done
                },
                _ => {
                    self.flow = LockFlow::Settled(Some(Fail::Io));
                    FsAction::Done
                },
            },
            LockFlow::RelRead => match e {
                FsEvent::FileRead(ob) => {
                    proof {
                        lemma_load_v_ok(ob);
                    }
                    match Roster::load(ob.as_ref()) {
                        Ok(ro) => {
                            let ghost loaded = ro@;
                            self.roster = ro;
                            self.roster.remove_holder(&self.id);
                            proof {
                                lemma_removed_ok(loaded, self.id@);
                            }
                            let rname = self.roster_name();
                            match self.roster.to_bytes() {
                                Some(bs) => {
                                    self.flow = LockFlow::RelWrite;
                                    FsAction::WriteFile(rname, bs)
                                },
                                None => {
                                    self.flow = LockFlow::RelWrite;
                                    FsAction::RemoveFile(rname)
                                },
                            }
                        },
                        Err(_) => {
                            self.flow = LockFlow::RelMutateRel(Some(Fail::Corrupt));
                            FsAction::RemoveDir(self.mutate_name())
                        },
                    }
                },
                _ => {
                    self.flow = LockFlow::RelMutateRel(Some(Fail::Io));
                    FsAction::RemoveDir(self.mutate_name())
                },
            },
            LockFlow::RelWrite => match e {
                FsEvent::Written | FsEvent::Removed => {
                    self.flow = LockFlow::RelMutateRel(None);
                    FsAction::RemoveDir(self.mutate_name())
                },
                _ => {
                    self.flow = LockFlow::RelMutateRel(Some(Fail::Io));
                    FsAction::RemoveDir(self.mutate_name())
                },
            },
            LockFlow::RelMutateRel(res) => match res {
                None => match self.state {
                    State::Exclusive => {
                        self.flow = LockFlow::RelGuardMarker;
                        FsAction::RemoveFile(self.marker_name())
                    },
                    _ => {
                        self.state = State::Unlocked;
                        self.flow = LockFlow::Settled(None);
                        FsAction::Done
                    },
                },
                Some(f) => {
                    self.flow = LockFlow::Settled(Some(f));
                    FsAction::Done
                },
            },
            LockFlow::RelGuardMarker => {
                self.flow = LockFlow::RelGuardDir;
                FsAction::RemoveDir(self.exclusive_name())
            },
            LockFlow::RelGuardDir => {
                self.state = State::Unlocked;
                self.flow = LockFlow::Settled(None);
                FsAction::Done
            },
        }
    }

    /// Take the outcome of a concluded operation, returning the machine to
    /// rest.  A busy lock is a normal, expected condition: the caller may
    /// retry after its own decision, since no waiting happens here.
    pub fn finish(&mut self) -> (r: Result<(), Error>)
        requires
            old(self).wf(),
            old(self).flow_of() matches LockFlow::Settled(_),
        ensures
            final(self).wf(),
            frame_ok(*old(self), *final(self)),
            same_sr(*old(self), *final(self)),
            final(self).flow_of() is Idle,
            match old(self).flow_of() {
                LockFlow::Settled(res) => match res {
                    None => r is Ok,
                    Some(f) => r matches Err(e) && match f {
                        Fail::BusyGuard => e matches Error::LockBusy(p) && p@ == old(self).en(),
                        Fail::BusyMutate => e matches Error::LockBusy(p) && p@ == old(
                            self,
                        ).mn(),
                        Fail::BusyRoster => e matches Error::LockBusy(p) && p@ == old(
                            self,
                        ).rn(),
                        Fail::Io => e is Io,
                        Fail::Corrupt => e is RosterCorrupt,
                    },
                },
                _ => false,
            },
    {
        let res = self.flow;
        self.flow = LockFlow::Idle;
        match res {
            LockFlow::Settled(None) => Ok(()),
            LockFlow::Settled(Some(f)) => Err(
                match f {
                    Fail::BusyGuard => Error::LockBusy(self.exclusive_name()),
                    Fail::BusyMutate => Error::LockBusy(self.mutate_name()),
                    Fail::BusyRoster => Error::LockBusy(self.roster_name()),
                    Fail::Io => Error::Io,
                    Fail::Corrupt => Error::RosterCorrupt,
                },
            ),
            _ => unreached(),
        }
    }
}

} // verus!
