use std::sync::mpsc::sync_channel;

use memory_map::process::ProcessInformation;
use memory_map::scanner::{
    is_pid_name, producer_step, ProcScanner, ProducerStep, SendOutcome, SnapshotSlot,
};
use memory_map::snapshot::Snapshot;
use memory_map::stat::ProcessState;

fn process(pid: usize, comm: &str) -> ProcessInformation {
    ProcessInformation {
        pid,
        comm: comm.to_string(),
        state: ProcessState::Sleeping,
        memory: None,
    }
}

fn snapshot_of(pids: &[usize]) -> Snapshot {
    let mut s = Snapshot::new();
    for &pid in pids {
        assert!(s.push(process(pid, "proc")));
    }
    s
}

#[test]
fn snapshot_refuses_duplicate_pids() {
    let mut s = Snapshot::new();
    assert!(s.push(process(1, "a")));
    assert!(s.push(process(2, "b")));
    assert!(!s.push(process(1, "c")));
    assert_eq!(s.len(), 2);
    assert!(s.contains_pid(1));
    assert!(s.contains_pid(2));
    assert!(!s.contains_pid(3));
    assert_eq!(s.get(0).comm, "a");
    assert_eq!(s.get(1).comm, "b");
}

#[test]
fn pid_names_are_decimal_entries() {
    assert!(is_pid_name("1"));
    assert!(is_pid_name("4242"));
    assert!(!is_pid_name("self"));
    assert!(!is_pid_name("thread-self"));
    assert!(!is_pid_name("cpuinfo"));
    assert!(!is_pid_name(""));
}

#[test]
fn producer_continues_on_full_slot_and_stops_on_disconnect() {
    assert_eq!(producer_step(SendOutcome::Accepted), ProducerStep::ContinueScanning);
    assert_eq!(producer_step(SendOutcome::SlotFull), ProducerStep::ContinueScanning);
    assert_eq!(producer_step(SendOutcome::Disconnected), ProducerStep::Terminate);
}

#[test]
fn slot_drops_newer_snapshot_under_backpressure() {
    let mut slot = SnapshotSlot::new();
    assert!(slot.offer(snapshot_of(&[1])));
    // the consumer has not polled: the newer snapshot is dropped
    assert!(!slot.offer(snapshot_of(&[2])));
    let got = slot.poll().unwrap();
    assert_eq!(got.len(), 1);
    assert!(got.contains_pid(1));
    // the slot is empty again
    assert!(slot.poll().is_none());
    assert!(slot.offer(snapshot_of(&[3])));
    let next = slot.poll().unwrap();
    assert!(next.contains_pid(3));
}

#[test]
fn polled_snapshots_are_strictly_fresher() {
    let mut slot = SnapshotSlot::new();
    let mut last_delivered: u64 = 0;
    for round in 0..5usize {
        slot.offer(snapshot_of(&[round]));
        slot.offer(snapshot_of(&[round + 100]));
        let got = slot.poll();
        assert!(got.is_some());
        assert!(slot.delivered > last_delivered);
        last_delivered = slot.delivered;
        // a second poll in the same round sees no data and no repeat
        assert!(slot.poll().is_none());
        assert_eq!(slot.delivered, last_delivered);
    }
    assert_eq!(slot.produced, 10);
}

#[test]
fn scanner_polls_the_channel_without_blocking() {
    let (tx, rx) = sync_channel::<Snapshot>(1);
    let scanner = ProcScanner::from_receiver(rx);
    // nothing sent yet: poll sees no data and does not block
    assert!(scanner.process_info().is_none());
    tx.try_send(snapshot_of(&[7, 8])).unwrap();
    let got = scanner.process_info().unwrap();
    assert_eq!(got.len(), 2);
    assert!(got.contains_pid(7));
    // the hand-off holds one snapshot at a time
    assert!(scanner.process_info().is_none());
    // a full slot refuses the newer snapshot without blocking
    tx.try_send(snapshot_of(&[1])).unwrap();
    assert!(tx.try_send(snapshot_of(&[2])).is_err());
    assert!(scanner.process_info().unwrap().contains_pid(1));
}

#[test]
fn dropped_scanner_disconnects_the_producer() {
    let (tx, rx) = sync_channel::<Snapshot>(1);
    let scanner = ProcScanner::from_receiver(rx);
    drop(scanner);
    let outcome = match tx.try_send(snapshot_of(&[1])) {
        Ok(()) => SendOutcome::Accepted,
        Err(std::sync::mpsc::TrySendError::Full(_)) => SendOutcome::SlotFull,
        Err(std::sync::mpsc::TrySendError::Disconnected(_)) => SendOutcome::Disconnected,
    };
    assert_eq!(producer_step(outcome), ProducerStep::Terminate);
}
