use actorgen::runtime::dispatch_step;
use actorgen::runtime::fire_and_forget_send;
use actorgen::runtime::resolve_reply;
use actorgen::runtime::round_trip_send;
use actorgen::runtime::ErrorKind;
use actorgen::runtime::Mailbox;
use actorgen::runtime::RecvOutcome;
use actorgen::runtime::ReplyOutcome;
use actorgen::runtime::WorkerState;

#[test]
fn round_trip_returns_the_delivered_value() {
    let mut mb: Mailbox<u32> = Mailbox::new();
    assert_eq!(round_trip_send(&mut mb, 7, true), Ok(()));
    // The worker takes the message and its handler supplies one value; the
    // caller's wait resolves to exactly that value.
    match mb.recv() {
        RecvOutcome::Message(m) => assert_eq!(m, 7),
        _ => panic!("expected the enqueued message"),
    }
    assert_eq!(resolve_reply(ReplyOutcome::Delivered(41u32)), Ok(41));
}

#[test]
fn round_trip_wrong_tag_enqueues_nothing() {
    let mut mb: Mailbox<u32> = Mailbox::new();
    assert_eq!(round_trip_send(&mut mb, 7, false), Err(ErrorKind::InvalidMessageType));
    assert_eq!(mb.queue.len(), 0);
}

#[test]
fn fire_and_forget_succeeds_immediately_after_enqueue() {
    let mut mb: Mailbox<u32> = Mailbox::new();
    assert_eq!(fire_and_forget_send(&mut mb, 9, true), Ok(()));
    // Success is independent of whether the worker has processed anything.
    assert_eq!(mb.queue.len(), 1);
    assert_eq!(fire_and_forget_send(&mut mb, 10, false), Err(ErrorKind::InvalidMessageType));
    assert_eq!(mb.queue.len(), 1);
}

#[test]
fn closed_mailbox_semantics() {
    // Once every sending endpoint is dropped and the queue drains, the worker
    // transitions Running to Stopped.
    let mut mb: Mailbox<u32> = Mailbox::new();
    assert_eq!(fire_and_forget_send(&mut mb, 1, true), Ok(()));
    mb.drop_sender();
    let mut st = WorkerState::Running;
    let o1 = mb.recv();
    assert!(matches!(o1, RecvOutcome::Message(1)));
    st = dispatch_step(st, &o1);
    assert_eq!(st, WorkerState::Running);
    let o2 = mb.recv();
    assert!(matches!(o2, RecvOutcome::Closed));
    st = dispatch_step(st, &o2);
    assert_eq!(st, WorkerState::Stopped);
    // Stopped is terminal.
    st = dispatch_step(st, &RecvOutcome::Message(5u32));
    assert_eq!(st, WorkerState::Stopped);

    // A round-trip call through a stale handle after the worker released the
    // receiver fails with SendFailed.
    mb.drop_receiver();
    assert_eq!(round_trip_send(&mut mb, 2, true), Err(ErrorKind::SendFailed));

    // A call already in flight when the worker stops without replying
    // resolves to MailboxClosed.
    assert_eq!(resolve_reply(ReplyOutcome::<u32>::Dropped), Err(ErrorKind::MailboxClosed));
}

#[test]
fn fifo_per_producer_ordering() {
    let mut mb: Mailbox<&'static str> = Mailbox::new();
    assert_eq!(mb.send("m1"), Ok(()));
    assert_eq!(mb.send("m2"), Ok(()));
    match mb.recv() {
        RecvOutcome::Message(m) => assert_eq!(m, "m1"),
        _ => panic!("expected m1 first"),
    }
    match mb.recv() {
        RecvOutcome::Message(m) => assert_eq!(m, "m2"),
        _ => panic!("expected m2 second"),
    }
}

#[test]
fn pending_receive_keeps_the_worker_running() {
    let mut mb: Mailbox<u32> = Mailbox::new();
    let o = mb.recv();
    assert!(matches!(o, RecvOutcome::Pending));
    let st = dispatch_step(WorkerState::Running, &o);
    assert_eq!(st, WorkerState::Running);
}

#[test]
fn cloned_senders_keep_the_mailbox_open() {
    let mut mb: Mailbox<u32> = Mailbox::new();
    mb.clone_sender();
    mb.drop_sender();
    // One endpoint remains: an empty receive suspends rather than closing.
    assert!(matches!(mb.recv(), RecvOutcome::Pending));
    mb.drop_sender();
    assert!(matches!(mb.recv(), RecvOutcome::Closed));
}
