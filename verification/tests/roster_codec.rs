//! Tests for the roster state machine and its on-disk encoding.

use borp::identity::{int_to_dec, ProcessId};
use borp::roster::Roster;
use borp::Error;

fn pid(host: &str, n: i32) -> ProcessId {
    ProcessId(host.to_string(), n, 0)
}

#[test]
fn filename_form() {
    assert_eq!(pid("host", 1234).to_filename(), "host.1234-0");
    assert_eq!(ProcessId("h".to_string(), -5, 3).to_filename(), "h.-5-3");
    assert_eq!(
        ProcessId("box".to_string(), i32::MIN, 0).to_filename(),
        "box.-2147483648-0"
    );
}

#[test]
fn transitions() {
    let mut r = Roster::Empty;
    assert!(r.make_exclusive(&pid("h1", 1), "p").is_ok());
    match &r {
        Roster::Exclusive(v) => assert_eq!(v.as_slice(), &[pid("h1", 1)]),
        other => panic!("unexpected roster {:?}", other),
    }
    // A second exclusive request, or a shared one, is refused busy.
    match r.make_exclusive(&pid("h2", 2), "p") {
        Err(Error::LockBusy(p)) => assert_eq!(p, "p"),
        other => panic!("expected busy, got {:?}", other),
    }
    assert!(matches!(r.add_shared(&pid("h2", 2), "p"), Err(Error::LockBusy(_))));

    // Release empties it; releasing again is a no-op.
    r.remove_holder(&pid("h1", 1));
    assert!(matches!(r, Roster::Empty));
    r.remove_holder(&pid("h1", 1));
    assert!(matches!(r, Roster::Empty));

    // Readers accumulate in order; a duplicate is refused.
    assert!(r.add_shared(&pid("h1", 1), "p").is_ok());
    assert!(r.add_shared(&pid("h2", 2), "p").is_ok());
    assert!(matches!(r.add_shared(&pid("h1", 1), "p"), Err(Error::LockBusy(_))));
    match &r {
        Roster::Shared(v) => assert_eq!(v.as_slice(), &[pid("h1", 1), pid("h2", 2)]),
        other => panic!("unexpected roster {:?}", other),
    }
    // While readers remain, exclusive access is refused.
    assert!(matches!(r.make_exclusive(&pid("h3", 3), "p"), Err(Error::LockBusy(_))));
    r.remove_holder(&pid("h1", 1));
    match &r {
        Roster::Shared(v) => assert_eq!(v.as_slice(), &[pid("h2", 2)]),
        other => panic!("unexpected roster {:?}", other),
    }
    r.remove_holder(&pid("h2", 2));
    assert!(matches!(r, Roster::Empty));
}

#[test]
fn encoding_round_trip() {
    // Empty is the absence of the file, never written literally.
    assert!(Roster::Empty.to_bytes().is_none());
    let loaded = Roster::load(None).unwrap();
    assert!(matches!(loaded, Roster::Empty));

    let sh = Roster::Shared(vec![pid("h1", 1), pid("other", -2)]);
    let bytes = sh.to_bytes().unwrap();
    assert_eq!(
        bytes.as_slice(),
        "{\"shared\":[[\"h1\",1,0],[\"other\",-2,0]]}".as_bytes()
    );
    match Roster::load(Some(&bytes)).unwrap() {
        Roster::Shared(v) => assert_eq!(v.as_slice(), &[pid("h1", 1), pid("other", -2)]),
        other => panic!("unexpected roster {:?}", other),
    }

    let ex = Roster::Exclusive(vec![pid("box", 77)]);
    let bytes = ex.to_bytes().unwrap();
    assert_eq!(bytes.as_slice(), "{\"exclusive\":[[\"box\",77,0]]}".as_bytes());
    match Roster::load(Some(&bytes)).unwrap() {
        Roster::Exclusive(v) => assert_eq!(v.as_slice(), &[pid("box", 77)]),
        other => panic!("unexpected roster {:?}", other),
    }
}

#[test]
fn corrupt_rosters_are_errors() {
    for bad in [
        "",
        "garbage",
        "{\"shared\":[[\"h1\",1,0]]} ",
        "{\"writer\":[[\"h1\",1,0]]}",
        "{\"shared\":[[\"h1\",1]]}",
        "{\"shared\":[[\"h1\",99999999999,0]]}",
        "{\"shared\":",
    ] {
        let bytes = bad.as_bytes().to_vec();
        assert!(
            matches!(Roster::load(Some(&bytes)), Err(Error::RosterCorrupt)),
            "should be corrupt: {:?}",
            bad
        );
    }
}

#[test]
fn error_query() {
    assert!(Error::LockBusy("p".to_string()).is_busy());
    assert!(!Error::Io.is_busy());
    assert!(!Error::RosterCorrupt.is_busy());
}

#[test]
fn decimal_formatting() {
    assert_eq!(int_to_dec(0), "0");
    assert_eq!(int_to_dec(-1), "-1");
    assert_eq!(int_to_dec(1000), "1000");
    assert_eq!(int_to_dec(i32::MAX), "2147483647");
    assert_eq!(int_to_dec(i32::MIN), "-2147483648");
}
