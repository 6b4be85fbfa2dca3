use resource_scheduler::Access;
use resource_scheduler::Claim;
use resource_scheduler::Conflict;
use resource_scheduler::Frame;
use resource_scheduler::RoundError;
use resource_scheduler::Scheduler;
use resource_scheduler::System;

/// A test system over plain `i64` resources.
#[derive(Debug, PartialEq, Eq)]
enum Sys {
    /// Claims shared access to `key` and records what it observed.
    Reader { key: u64, seen: Option<i64> },
    /// Claims exclusive access to `key` and adds one to the resource.
    Incrementer { key: u64 },
    /// Claims exclusive access to `key` and stores `value` there.
    Setter { key: u64, value: i64 },
    /// Claims nothing and does nothing.
    Idle,
}

impl System<i64> for Sys {
    fn declared_claims(&self) -> Vec<Claim> {
        match self {
            Sys::Reader { key, .. } => vec![Claim::read(*key)],
            Sys::Incrementer { key } => vec![Claim::write(*key)],
            Sys::Setter { key, .. } => vec![Claim::write(*key)],
            Sys::Idle => vec![],
        }
    }

    fn run(&mut self, frame: &mut Frame<i64>) {
        match self {
            Sys::Reader { key, seen } => {
                *seen = frame.read(*key).copied();
            }
            Sys::Incrementer { key } => {
                let current = frame.read(*key).copied().unwrap();
                let result = frame.replace(*key, current + 1);
                assert!(result.is_ok());
            }
            Sys::Setter { key, value } => {
                let result = frame.replace(*key, *value);
                assert!(result.is_ok());
            }
            Sys::Idle => {}
        }
    }
}

const INT: u64 = 7;
const OTHER: u64 = 8;

#[test]
fn single_resource_round_trip() {
    let mut s: Scheduler<i64, Sys> = Scheduler::new();
    s.add_resource(INT, 7);
    s.add_system(Sys::Reader { key: INT, seen: None });
    assert_eq!(s.run(), Ok(()));
    assert_eq!(s.system(0), Some(&Sys::Reader { key: INT, seen: Some(7) }));
}

#[test]
fn overwrite_semantics() {
    let mut s: Scheduler<i64, Sys> = Scheduler::new();
    s.add_resource(INT, 5);
    s.add_resource(INT, 9);
    assert_eq!(s.resource(INT), Some(&9));
    s.add_system(Sys::Reader { key: INT, seen: None });
    assert_eq!(s.run(), Ok(()));
    assert_eq!(s.system(0), Some(&Sys::Reader { key: INT, seen: Some(9) }));
}

#[test]
fn read_read_compatibility() {
    let mut s: Scheduler<i64, Sys> = Scheduler::new();
    s.add_resource(INT, 31);
    s.add_system(Sys::Reader { key: INT, seen: None });
    s.add_system(Sys::Reader { key: INT, seen: None });
    assert_eq!(s.run(), Ok(()));
    assert_eq!(s.system(0), Some(&Sys::Reader { key: INT, seen: Some(31) }));
    assert_eq!(s.system(1), Some(&Sys::Reader { key: INT, seen: Some(31) }));
}

#[test]
fn write_then_read_conflict() {
    let mut s: Scheduler<i64, Sys> = Scheduler::new();
    s.add_resource(INT, 0);
    s.add_system(Sys::Incrementer { key: INT });
    s.add_system(Sys::Reader { key: INT, seen: None });
    assert_eq!(
        s.run(),
        Err(RoundError::Conflict(Conflict {
            key: INT,
            held: Access::Write,
            requested: Access::Read,
        }))
    );
    // The first system ran before the reader's declaration failed.
    assert_eq!(s.resource(INT), Some(&1));
    // The reader's body never executed.
    assert_eq!(s.system(1), Some(&Sys::Reader { key: INT, seen: None }));
}

#[test]
fn read_then_write_conflict() {
    let mut s: Scheduler<i64, Sys> = Scheduler::new();
    s.add_resource(INT, 4);
    s.add_system(Sys::Reader { key: INT, seen: None });
    s.add_system(Sys::Incrementer { key: INT });
    assert_eq!(
        s.run(),
        Err(RoundError::Conflict(Conflict {
            key: INT,
            held: Access::Read,
            requested: Access::Write,
        }))
    );
    // The writer never executed.
    assert_eq!(s.resource(INT), Some(&4));
}

#[test]
fn write_write_conflict() {
    let mut s: Scheduler<i64, Sys> = Scheduler::new();
    s.add_resource(INT, 0);
    s.add_system(Sys::Incrementer { key: INT });
    s.add_system(Sys::Setter { key: INT, value: 5 });
    assert_eq!(
        s.run(),
        Err(RoundError::Conflict(Conflict {
            key: INT,
            held: Access::Write,
            requested: Access::Write,
        }))
    );
}

#[test]
fn no_system_after_conflict_executes() {
    let mut s: Scheduler<i64, Sys> = Scheduler::new();
    s.add_resource(INT, 10);
    s.add_resource(OTHER, 100);
    s.add_system(Sys::Incrementer { key: INT });
    s.add_system(Sys::Incrementer { key: INT });
    s.add_system(Sys::Setter { key: OTHER, value: -1 });
    assert!(matches!(s.run(), Err(RoundError::Conflict(_))));
    // The first incrementer ran; the second conflicted; the setter that
    // follows the conflict never touched its own, unrelated resource.
    assert_eq!(s.resource(INT), Some(&11));
    assert_eq!(s.resource(OTHER), Some(&100));
}

#[test]
fn sequential_rounds_observe_increments() {
    let mut s: Scheduler<i64, Sys> = Scheduler::new();
    s.add_resource(INT, 7);
    s.add_system(Sys::Incrementer { key: INT });
    assert_eq!(s.run(), Ok(()));
    assert_eq!(s.resource(INT), Some(&8));
    assert_eq!(s.run(), Ok(()));
    assert_eq!(s.resource(INT), Some(&9));
}

#[test]
fn ledger_reset_between_rounds() {
    let mut s: Scheduler<i64, Sys> = Scheduler::new();
    s.add_resource(INT, 1);
    s.add_resource(OTHER, 2);
    s.add_system(Sys::Reader { key: INT, seen: None });
    s.add_system(Sys::Incrementer { key: OTHER });
    assert_eq!(s.run(), Ok(()));
    assert!(s.ledger_is_clear());
    assert_eq!(s.run(), Ok(()));
    assert!(s.ledger_is_clear());
    assert_eq!(s.resource(OTHER), Some(&4));
    assert_eq!(s.system(0), Some(&Sys::Reader { key: INT, seen: Some(1) }));
}

#[test]
fn failed_round_keeps_ledger() {
    let mut s: Scheduler<i64, Sys> = Scheduler::new();
    s.add_resource(INT, 0);
    s.add_system(Sys::Incrementer { key: INT });
    s.add_system(Sys::Incrementer { key: INT });
    assert!(matches!(s.run(), Err(RoundError::Conflict(_))));
    // The round never completed, so the accesses granted before the
    // conflict are still on the ledger.
    assert!(!s.ledger_is_clear());
}

#[test]
fn missing_resource_fails_round() {
    let mut s: Scheduler<i64, Sys> = Scheduler::new();
    s.add_system(Sys::Reader { key: INT, seen: None });
    assert_eq!(s.run(), Err(RoundError::MissingResource { key: INT }));
    assert_eq!(s.system(0), Some(&Sys::Reader { key: INT, seen: None }));
}

#[test]
fn empty_round_succeeds() {
    let mut s: Scheduler<i64, Sys> = Scheduler::new();
    assert_eq!(s.run(), Ok(()));
    assert!(s.ledger_is_clear());
}

#[test]
fn idle_system_needs_no_resources() {
    let mut s: Scheduler<i64, Sys> = Scheduler::new();
    s.add_system(Sys::Idle);
    s.add_system(Sys::Idle);
    assert_eq!(s.run(), Ok(()));
    assert_eq!(s.system_count(), 2);
}
