use ferrox::batch::queue::{AbortInbox, IdSet, QueueGate};

#[test]
fn queue_gate_admits_up_to_its_cap_and_frees_slots_on_release() {
    let mut gate = QueueGate::new(2);
    assert!(gate.try_reserve().is_ok());
    assert!(gate.try_reserve().is_ok());
    assert_eq!(gate.depth(), 2);
    assert_eq!(gate.try_reserve(), Err(2), "the refusal reports the depth");
    assert_eq!(gate.rejected(), 1);
    gate.release();
    assert_eq!(gate.depth(), 1);
    assert!(
        gate.try_reserve().is_ok(),
        "a released slot must be reusable"
    );
    assert_eq!(gate.depth(), 2);
}

#[test]
fn a_set_holds_each_id_once() {
    let mut s = IdSet::new();
    assert!(s.is_empty());
    s.insert(4);
    s.insert(4);
    assert!(s.contains(4));
    assert!(s.remove(4));
    assert!(!s.remove(4));
    assert!(s.is_empty());
    let mut other = IdSet::new();
    other.insert(9);
    s.extend(other);
    assert!(s.contains(9));
}

#[test]
fn an_inbox_hands_out_fresh_ids_and_drains_once() {
    let mut inbox = AbortInbox::new();
    assert_eq!(inbox.next_id(), 0);
    assert_eq!(inbox.next_id(), 1);
    inbox.enqueue(1);
    inbox.enqueue(1);
    let ids = inbox.drain();
    assert!(ids.contains(1));
    assert!(inbox.drain().is_empty());
    inbox.count_stopped(2);
    assert_eq!(inbox.aborted(), 2);
}
