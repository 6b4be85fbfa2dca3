use resource_scheduler::Access;
use resource_scheduler::Claim;
use resource_scheduler::Conflict;
use resource_scheduler::Frame;
use resource_scheduler::RoundError;
use resource_scheduler::Scheduler;
use resource_scheduler::System;

/// Systems that probe the edges of the frame's capability checks.
#[derive(Debug, PartialEq, Eq)]
enum Probe {
    /// Claims shared access to `claimed` but tries to read `target`.
    ReadOther { claimed: u64, target: u64, seen: Option<i64> },
    /// Claims shared access to `key` and tries to overwrite it; records the
    /// value the frame handed back on refusal.
    WriteUnderRead { key: u64, handed_back: Option<i64> },
    /// Claims shared access to `key` twice and reads it twice.
    DoubleReader { key: u64, first: Option<i64>, second: Option<i64> },
    /// Claims exclusive access to `key`, reads through the exclusive grant,
    /// then stores the read value plus ten.
    ReadThenWrite { key: u64, seen: Option<i64> },
    /// Claims exclusive access to `key` twice; records whether it ever ran.
    TwoWrites { key: u64, ran: bool },
}

impl System<i64> for Probe {
    fn declared_claims(&self) -> Vec<Claim> {
        match self {
            Probe::ReadOther { claimed, .. } => vec![Claim::read(*claimed)],
            Probe::WriteUnderRead { key, .. } => vec![Claim::read(*key)],
            Probe::DoubleReader { key, .. } => vec![Claim::read(*key), Claim::read(*key)],
            Probe::ReadThenWrite { key, .. } => vec![Claim::write(*key)],
            Probe::TwoWrites { key, .. } => vec![Claim::write(*key), Claim::write(*key)],
        }
    }

    fn run(&mut self, frame: &mut Frame<i64>) {
        match self {
            Probe::ReadOther { target, seen, .. } => {
                *seen = frame.read(*target).copied();
            }
            Probe::WriteUnderRead { key, handed_back } => {
                *handed_back = match frame.replace(*key, -1) {
                    Ok(_) => None,
                    Err(offered) => Some(offered),
                };
            }
            Probe::DoubleReader { key, first, second } => {
                *first = frame.read(*key).copied();
                *second = frame.read(*key).copied();
            }
            Probe::ReadThenWrite { key, seen } => {
                *seen = frame.read(*key).copied();
                let result = frame.replace(*key, seen.unwrap() + 10);
                assert!(result.is_ok());
            }
            Probe::TwoWrites { ran, .. } => {
                *ran = true;
            }
        }
    }
}

const INT: u64 = 1;
const OTHER: u64 = 2;

#[test]
fn unclaimed_resource_is_not_readable() {
    let mut s: Scheduler<i64, Probe> = Scheduler::new();
    s.add_resource(INT, 11);
    s.add_resource(OTHER, 22);
    s.add_system(Probe::ReadOther { claimed: INT, target: OTHER, seen: None });
    assert_eq!(s.run(), Ok(()));
    // OTHER is registered, but the system never claimed it, so the frame
    // refuses the read.
    assert_eq!(
        s.system(0),
        Some(&Probe::ReadOther { claimed: INT, target: OTHER, seen: None })
    );
}

#[test]
fn write_under_shared_grant_is_refused() {
    let mut s: Scheduler<i64, Probe> = Scheduler::new();
    s.add_resource(INT, 33);
    s.add_system(Probe::WriteUnderRead { key: INT, handed_back: None });
    assert_eq!(s.run(), Ok(()));
    // The offered value came back and the store kept its entry.
    assert_eq!(
        s.system(0),
        Some(&Probe::WriteUnderRead { key: INT, handed_back: Some(-1) })
    );
    assert_eq!(s.resource(INT), Some(&33));
}

#[test]
fn repeated_shared_claims_in_one_system_are_allowed() {
    let mut s: Scheduler<i64, Probe> = Scheduler::new();
    s.add_resource(INT, 5);
    s.add_system(Probe::DoubleReader { key: INT, first: None, second: None });
    assert_eq!(s.run(), Ok(()));
    assert_eq!(
        s.system(0),
        Some(&Probe::DoubleReader { key: INT, first: Some(5), second: Some(5) })
    );
}

#[test]
fn exclusive_grant_also_reads() {
    let mut s: Scheduler<i64, Probe> = Scheduler::new();
    s.add_resource(INT, 40);
    s.add_system(Probe::ReadThenWrite { key: INT, seen: None });
    assert_eq!(s.run(), Ok(()));
    assert_eq!(s.system(0), Some(&Probe::ReadThenWrite { key: INT, seen: Some(40) }));
    assert_eq!(s.resource(INT), Some(&50));
}

#[test]
fn repeated_exclusive_claims_in_one_system_conflict() {
    let mut s: Scheduler<i64, Probe> = Scheduler::new();
    s.add_resource(INT, 0);
    s.add_system(Probe::TwoWrites { key: INT, ran: false });
    assert_eq!(
        s.run(),
        Err(RoundError::Conflict(Conflict {
            key: INT,
            held: Access::Write,
            requested: Access::Write,
        }))
    );
    // The conflicting system's own body never executed.
    assert_eq!(s.system(0), Some(&Probe::TwoWrites { key: INT, ran: false }));
}

#[test]
fn claim_constructors_carry_key_and_mode() {
    let shared = Claim::read(3);
    assert_eq!(shared.key, 3);
    assert_eq!(shared.mode, Access::Read);
    let exclusive = Claim::write(4);
    assert_eq!(exclusive.key, 4);
    assert_eq!(exclusive.mode, Access::Write);
    assert_ne!(Access::Read, Access::Write);
}

#[test]
fn default_scheduler_is_empty() {
    let mut s: Scheduler<i64, Probe> = Scheduler::default();
    assert_eq!(s.system_count(), 0);
    assert_eq!(s.system(0), None);
    assert_eq!(s.resource(INT), None);
    assert!(s.ledger_is_clear());
    assert_eq!(s.run(), Ok(()));
}
