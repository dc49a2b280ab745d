use network_manager::native::{
    CorrelationError, CorrelationTracker, DummyMessageIdWrite, EncodedMessage, MessageId,
    NativeProgramEvent, NativeProgramMessageIdWrite,
};

#[test]
fn fire_and_forget_never_produces_a_delivery() {
    let mut tracker = CorrelationTracker::new();
    // An emission without a write-back capability records nothing...
    assert_eq!(tracker.record_emit(false, MessageId(7)), Ok(()));
    assert!(!tracker.awaits(MessageId(7)));
    // ...so no reply can ever be delivered for its identifier.
    assert_eq!(tracker.deliver_response(MessageId(7)), Err(CorrelationError::UnknownId));
}

#[test]
fn fire_and_forget_event_leaves_ledger_unchanged() {
    let mut tracker = CorrelationTracker::new();
    let ev: NativeProgramEvent<DummyMessageIdWrite> = NativeProgramEvent::Emit {
        interface: [0u8; 32],
        message_id_write: None,
        message: EncodedMessage(vec![1, 2, 3]),
    };
    assert_eq!(tracker.process_event(ev, MessageId(9)), Ok(()));
    assert!(!tracker.awaits(MessageId(9)));
    assert_eq!(tracker.deliver_response(MessageId(9)), Err(CorrelationError::UnknownId));
}

#[test]
fn acknowledged_emission_is_answered_exactly_once() {
    let mut tracker = CorrelationTracker::new();
    let ev: NativeProgramEvent<DummyMessageIdWrite> = NativeProgramEvent::Emit {
        interface: [0u8; 32],
        message_id_write: Some(DummyMessageIdWrite),
        message: EncodedMessage(vec![4]),
    };
    assert_eq!(tracker.process_event(ev, MessageId(1)), Ok(()));
    assert!(tracker.awaits(MessageId(1)));
    assert_eq!(tracker.deliver_response(MessageId(1)), Ok(()));
    // The reply settled the identifier: a second delivery must fail.
    assert_eq!(tracker.deliver_response(MessageId(1)), Err(CorrelationError::UnknownId));
}

#[test]
fn cancelled_message_cannot_be_delivered() {
    let mut tracker = CorrelationTracker::new();
    assert_eq!(tracker.record_emit(true, MessageId(2)), Ok(()));
    let cancel: NativeProgramEvent<DummyMessageIdWrite> =
        NativeProgramEvent::CancelMessage { message_id: MessageId(2) };
    assert_eq!(tracker.process_event(cancel, MessageId(99)), Ok(()));
    assert!(!tracker.awaits(MessageId(2)));
    assert_eq!(tracker.deliver_response(MessageId(2)), Err(CorrelationError::UnknownId));
    // Cancelling a message that awaits nothing is itself an error.
    let cancel_again: NativeProgramEvent<DummyMessageIdWrite> =
        NativeProgramEvent::CancelMessage { message_id: MessageId(2) };
    assert_eq!(
        tracker.process_event(cancel_again, MessageId(99)),
        Err(CorrelationError::UnknownId)
    );
}

#[test]
fn duplicate_identifier_is_refused() {
    let mut tracker = CorrelationTracker::new();
    assert_eq!(tracker.record_emit(true, MessageId(3)), Ok(()));
    assert_eq!(tracker.record_emit(true, MessageId(3)), Err(CorrelationError::IdInUse));
    // The first recording still stands.
    assert!(tracker.awaits(MessageId(3)));
}

#[test]
fn answers_do_not_touch_the_ledger() {
    let mut tracker = CorrelationTracker::new();
    assert_eq!(tracker.record_emit(true, MessageId(5)), Ok(()));
    let answer: NativeProgramEvent<DummyMessageIdWrite> = NativeProgramEvent::Answer {
        message_id: MessageId(40),
        answer: Err(()),
    };
    assert_eq!(tracker.process_event(answer, MessageId(99)), Ok(()));
    assert!(tracker.awaits(MessageId(5)));
    assert!(!tracker.awaits(MessageId(40)));
}

#[test]
fn dummy_write_back_discards_the_identifier() {
    DummyMessageIdWrite.acknowledge(MessageId(123));
    let d = DummyMessageIdWrite::default();
    d.acknowledge(MessageId(456));
}
