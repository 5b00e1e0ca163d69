//! Scenario tests for the lock coordinator, driving the verified step
//! machine against a small in-memory model of the lock directory.

use borp::guard::{ExclusiveLock, FsAction, FsEvent};
use borp::identity::ProcessId;
use borp::lock::{Lock, State};
use borp::Error;

/// A tiny model of the lock directory: which directories exist, and which
/// files with which contents.
struct Disk {
    dirs: Vec<String>,
    files: Vec<(String, Vec<u8>)>,
    fail_file_create: bool,
    fail_file_write: bool,
}

impl Disk {
    fn new() -> Disk {
        Disk {
            dirs: Vec::new(),
            files: Vec::new(),
            fail_file_create: false,
            fail_file_write: false,
        }
    }

    fn has_dir(&self, d: &str) -> bool {
        self.dirs.iter().any(|x| x == d)
    }

    fn file(&self, f: &str) -> Option<&Vec<u8>> {
        self.files.iter().find(|(n, _)| n == f).map(|(_, c)| c)
    }

    fn perform(&mut self, a: &FsAction) -> FsEvent {
        match a {
            FsAction::CreateDir(d) => {
                if self.has_dir(d) {
                    FsEvent::AlreadyExists
                } else {
                    self.dirs.push(d.clone());
                    FsEvent::Created
                }
            }
            FsAction::CreateFile(f) => {
                if self.fail_file_create {
                    FsEvent::IoFailed
                } else {
                    self.files.push((f.clone(), Vec::new()));
                    FsEvent::Created
                }
            }
            FsAction::RemoveFile(f) => {
                self.files.retain(|(n, _)| n != f);
                FsEvent::Removed
            }
            FsAction::RemoveDir(d) => {
                self.dirs.retain(|x| x != d);
                FsEvent::Removed
            }
            FsAction::ReadFile(p) => FsEvent::FileRead(self.file(p).cloned()),
            FsAction::WriteFile(p, b) => {
                if self.fail_file_write {
                    FsEvent::IoFailed
                } else {
                    self.files.retain(|(n, _)| n != p);
                    self.files.push((p.clone(), b.clone()));
                    FsEvent::Written
                }
            }
            FsAction::Done => unreachable!(),
        }
    }
}

fn run(lock: &mut Lock, disk: &mut Disk, first: FsAction) -> Result<(), Error> {
    let mut a = first;
    loop {
        if matches!(a, FsAction::Done) {
            return lock.finish();
        }
        let e = disk.perform(&a);
        a = lock.step(e);
    }
}

fn pid(host: &str, n: i32) -> ProcessId {
    ProcessId(host.to_string(), n, 0)
}

#[test]
fn exclusive_lock_and_contention() {
    let mut disk = Disk::new();
    let mut l1 = Lock::new(".".to_string(), "lock".to_string(), pid("h1", 1));
    let mut l2 = Lock::new(".".to_string(), "lock".to_string(), pid("h2", 2));

    // P1 acquires exclusively: the guard directory appears and the roster
    // records the sole holder.
    let a = l1.lock_exclusive();
    assert!(run(&mut l1, &mut disk, a).is_ok());
    assert!(matches!(l1.state(), State::Exclusive));
    assert!(disk.has_dir("./lock.exclusive"));
    assert_eq!(
        disk.file("./lock.roster").unwrap().as_slice(),
        "{\"exclusive\":[[\"h1\",1,0]]}".as_bytes()
    );

    // P2's exclusive attempt fails busy, and nothing on disk changed.
    let a = l2.lock_exclusive();
    let r = run(&mut l2, &mut disk, a);
    match r {
        Err(Error::LockBusy(p)) => assert_eq!(p, "./lock.exclusive"),
        other => panic!("expected busy, got {:?}", other),
    }
    assert!(matches!(l2.state(), State::Unlocked));
    assert!(disk.has_dir("./lock.exclusive"));
    assert_eq!(
        disk.file("./lock.roster").unwrap().as_slice(),
        "{\"exclusive\":[[\"h1\",1,0]]}".as_bytes()
    );

    // A shared attempt fails busy as well, at the roster.
    let a = l2.lock_shared();
    let r = run(&mut l2, &mut disk, a);
    assert!(matches!(r, Err(Error::LockBusy(_))));
    assert!(matches!(l2.state(), State::Unlocked));

    // P1 releases: guard directory and roster file are gone.
    let a = l1.release();
    assert!(run(&mut l1, &mut disk, a).is_ok());
    assert!(matches!(l1.state(), State::Unlocked));
    assert!(!disk.has_dir("./lock.exclusive"));
    assert!(disk.file("./lock.roster").is_none());
    assert!(disk.dirs.is_empty());
    assert!(disk.files.is_empty());

    // P2 retries and now succeeds.
    let a = l2.lock_exclusive();
    assert!(run(&mut l2, &mut disk, a).is_ok());
    assert!(matches!(l2.state(), State::Exclusive));
    assert_eq!(
        disk.file("./lock.roster").unwrap().as_slice(),
        "{\"exclusive\":[[\"h2\",2,0]]}".as_bytes()
    );
}

#[test]
fn shared_holders_coexist_and_block_exclusive() {
    let mut disk = Disk::new();
    let mut l1 = Lock::new(".".to_string(), "lock".to_string(), pid("h1", 1));
    let mut l2 = Lock::new(".".to_string(), "lock".to_string(), pid("h2", 2));
    let mut l3 = Lock::new(".".to_string(), "lock".to_string(), pid("h3", 3));

    let a = l1.lock_shared();
    assert!(run(&mut l1, &mut disk, a).is_ok());
    let a = l2.lock_shared();
    assert!(run(&mut l2, &mut disk, a).is_ok());
    assert!(matches!(l1.state(), State::Shared));
    assert!(matches!(l2.state(), State::Shared));
    assert_eq!(
        disk.file("./lock.roster").unwrap().as_slice(),
        "{\"shared\":[[\"h1\",1,0],[\"h2\",2,0]]}".as_bytes()
    );

    // Exclusive acquisition fails while any shared holder remains.
    let a = l3.lock_exclusive();
    let r = run(&mut l3, &mut disk, a);
    assert!(matches!(r, Err(Error::LockBusy(_))));
    assert!(!disk.has_dir("./lock.exclusive"));

    // P1 releases; P2 remains.
    let a = l1.release();
    assert!(run(&mut l1, &mut disk, a).is_ok());
    assert_eq!(
        disk.file("./lock.roster").unwrap().as_slice(),
        "{\"shared\":[[\"h2\",2,0]]}".as_bytes()
    );

    // Still busy for the writer.
    let a = l3.lock_exclusive();
    let r = run(&mut l3, &mut disk, a);
    assert!(matches!(r, Err(Error::LockBusy(_))));

    // P2 releases; the roster file is gone, and the writer succeeds.
    let a = l2.release();
    assert!(run(&mut l2, &mut disk, a).is_ok());
    assert!(disk.file("./lock.roster").is_none());
    let a = l3.lock_exclusive();
    assert!(run(&mut l3, &mut disk, a).is_ok());
    assert!(matches!(l3.state(), State::Exclusive));
}

#[test]
fn release_is_idempotent() {
    let mut disk = Disk::new();
    let mut l1 = Lock::new(".".to_string(), "lock".to_string(), pid("h1", 1));

    // Releasing an unlocked lock is a successful no-op.
    let a = l1.release();
    assert!(run(&mut l1, &mut disk, a).is_ok());
    assert!(matches!(l1.state(), State::Unlocked));
    assert!(disk.dirs.is_empty() && disk.files.is_empty());

    // Lock, release twice: both succeed.
    let a = l1.lock_shared();
    assert!(run(&mut l1, &mut disk, a).is_ok());
    let a = l1.release();
    assert!(run(&mut l1, &mut disk, a).is_ok());
    let a = l1.release();
    assert!(run(&mut l1, &mut disk, a).is_ok());
    assert!(matches!(l1.state(), State::Unlocked));
    assert!(disk.dirs.is_empty() && disk.files.is_empty());
}

#[test]
fn marker_failure_leaves_no_orphan_directory() {
    // Crash simulation at the guard machine: the marker file cannot be
    // created after the directory was; the machine demands the removal of
    // that directory before reporting failure.
    let p = pid("h1", 1);
    let (mut g, a) = ExclusiveLock::new("./lock.exclusive".to_string(), &p);
    let mut disk = Disk::new();
    let e = disk.perform(&a);
    assert!(matches!(e, FsEvent::Created));
    let a = g.step(e);
    match &a {
        FsAction::CreateFile(f) => assert_eq!(f, "./lock.exclusive/h1.1-0"),
        other => panic!("expected marker creation, got {:?}", other),
    }
    // The marker creation fails.
    let a = g.step(FsEvent::IoFailed);
    match &a {
        FsAction::RemoveDir(d) => assert_eq!(d, "./lock.exclusive"),
        other => panic!("expected rollback removal, got {:?}", other),
    }
    let e = disk.perform(&a);
    let a = g.step(e);
    assert!(matches!(a, FsAction::Done));
    assert!(!disk.has_dir("./lock.exclusive"));
    assert!(disk.dirs.is_empty());
}

#[test]
fn marker_failure_in_full_acquisition() {
    // The same crash simulation through the whole coordinator.
    let mut disk = Disk::new();
    disk.fail_file_create = true;
    let mut l1 = Lock::new(".".to_string(), "lock".to_string(), pid("h1", 1));
    let a = l1.lock_exclusive();
    let r = run(&mut l1, &mut disk, a);
    assert!(matches!(r, Err(Error::Io)));
    assert!(!disk.has_dir("./lock.exclusive"));
    assert!(disk.dirs.is_empty());
    assert!(disk.files.is_empty());
    assert!(matches!(l1.state(), State::Unlocked));
}

#[test]
fn corrupt_roster_is_never_treated_as_empty() {
    let mut disk = Disk::new();
    disk.files.push(("./lock.roster".to_string(), "not json".as_bytes().to_vec()));
    let mut l1 = Lock::new(".".to_string(), "lock".to_string(), pid("h1", 1));
    let a = l1.lock_exclusive();
    let r = run(&mut l1, &mut disk, a);
    assert!(matches!(r, Err(Error::RosterCorrupt)));
    // The failed acquisition rolled its guard back.
    assert!(!disk.has_dir("./lock.exclusive"));
    assert!(matches!(l1.state(), State::Unlocked));
}

#[test]
fn lock_names() {
    let l = Lock::new("/repo".to_string(), "lock".to_string(), pid("h", 7));
    assert_eq!(l.exclusive_name(), "/repo/lock.exclusive");
    assert_eq!(l.roster_name(), "/repo/lock.roster");
    assert_eq!(l.mutate_name(), "/repo/lock.mutate");
}

#[test]
fn stale_mutation_guard_blocks_acquisition() {
    // A mutation guard directory left behind by a crashed process blocks
    // acquisition until manually cleared.
    let mut disk = Disk::new();
    disk.dirs.push("./lock.mutate".to_string());
    let mut l1 = Lock::new(".".to_string(), "lock".to_string(), pid("h1", 1));
    let a = l1.lock_shared();
    match run(&mut l1, &mut disk, a) {
        Err(Error::LockBusy(p)) => assert_eq!(p, "./lock.mutate"),
        other => panic!("expected busy, got {:?}", other),
    }
    assert!(matches!(l1.state(), State::Unlocked));
    // An exclusive attempt is blocked the same way, and rolls back the
    // guard directory it had already created.
    let a = l1.lock_exclusive();
    assert!(matches!(run(&mut l1, &mut disk, a), Err(Error::LockBusy(_))));
    assert!(!disk.has_dir("./lock.exclusive"));
}

#[test]
fn guard_acquire_and_release_cycle() {
    let p = pid("h1", 42);
    let (mut g, a) = ExclusiveLock::new("/repo/lock.exclusive".to_string(), &p);
    let mut disk = Disk::new();
    let e = disk.perform(&a);
    let a = g.step(e);
    match &a {
        FsAction::CreateFile(f) => assert_eq!(f, "/repo/lock.exclusive/h1.42-0"),
        other => panic!("expected marker creation, got {:?}", other),
    }
    let e = disk.perform(&a);
    let a = g.step(e);
    assert!(matches!(a, FsAction::Done));
    assert!(disk.has_dir("/repo/lock.exclusive"));
    assert!(disk.file("/repo/lock.exclusive/h1.42-0").is_some());

    let a = g.release();
    match &a {
        FsAction::RemoveFile(f) => assert_eq!(f, "/repo/lock.exclusive/h1.42-0"),
        other => panic!("expected marker removal, got {:?}", other),
    }
    let e = disk.perform(&a);
    let a = g.step(e);
    match &a {
        FsAction::RemoveDir(d) => assert_eq!(d, "/repo/lock.exclusive"),
        other => panic!("expected directory removal, got {:?}", other),
    }
    let e = disk.perform(&a);
    let a = g.step(e);
    assert!(matches!(a, FsAction::Done));
    assert!(disk.dirs.is_empty() && disk.files.is_empty());
}

#[test]
fn failed_release_keeps_session_and_can_be_retried() {
    let mut disk = Disk::new();
    let mut l1 = Lock::new(".".to_string(), "lock".to_string(), pid("h1", 1));
    let mut l2 = Lock::new(".".to_string(), "lock".to_string(), pid("h2", 2));
    let a = l1.lock_shared();
    assert!(run(&mut l1, &mut disk, a).is_ok());
    let a = l2.lock_shared();
    assert!(run(&mut l2, &mut disk, a).is_ok());

    // The roster write during release fails: the session stays held and
    // the roster on disk still records both readers.
    disk.fail_file_write = true;
    let a = l1.release();
    assert!(matches!(run(&mut l1, &mut disk, a), Err(Error::Io)));
    assert!(matches!(l1.state(), State::Shared));
    assert_eq!(
        disk.file("./lock.roster").unwrap().as_slice(),
        "{\"shared\":[[\"h1\",1,0],[\"h2\",2,0]]}".as_bytes()
    );

    // Retrying once the filesystem recovers succeeds.
    disk.fail_file_write = false;
    let a = l1.release();
    assert!(run(&mut l1, &mut disk, a).is_ok());
    assert!(matches!(l1.state(), State::Unlocked));
    assert_eq!(
        disk.file("./lock.roster").unwrap().as_slice(),
        "{\"shared\":[[\"h2\",2,0]]}".as_bytes()
    );
}
