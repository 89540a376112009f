use packet_io::config::CliConfig;
use packet_io::packet::{CapturedPacket, Packet, QueuePacket, ReplayPacket, Timestamp};
use packet_io::source::{CaptureOutcome, Delivery, Dispatch, Source, SourceError};
use packet_io::verdict::Verdict;

const MARK: u32 = 0x7e57;

fn replayed(stream: u32, offset: u64) -> CapturedPacket {
    CapturedPacket::Replay(ReplayPacket::new(
        offset,
        stream,
        Timestamp::from_nanos(1_000 + offset as u128),
        vec![offset as u8],
    ))
}

fn queued(stream: u32, id: u32, mark: u32) -> CapturedPacket {
    CapturedPacket::Queue(QueuePacket::new(
        id,
        mark,
        stream,
        Timestamp::from_nanos(id as u128),
        vec![0x45, id as u8],
    ))
}

fn running(workers: usize, capacity: u32) -> Source {
    let mut source = Source::new(workers, capacity, MARK).unwrap();
    assert_eq!(source.register(true), Ok(()));
    source
}

fn expect_queued(outcome: CaptureOutcome) -> u64 {
    match outcome {
        CaptureOutcome::Queued(seq) => seq,
        other => panic!("not queued: {:?}", other),
    }
}

fn expect_delivery(dispatch: Dispatch) -> Delivery {
    match dispatch {
        Dispatch::Deliver(delivery) => delivery,
        other => panic!("not delivered: {:?}", other),
    }
}

#[test]
fn a_source_needs_a_worker() {
    assert_eq!(Source::new(0, 8, MARK).err(), Some(SourceError::NoWorkers));
    assert!(Source::new(1, 0, MARK).is_ok());
}

#[test]
fn a_source_is_sized_by_the_tuning_values() {
    let mut config = CliConfig::default();
    config.workers.count = 3;
    config.workers.queue_size = 1;
    let mut source = Source::with_config(&config, MARK).unwrap();
    source.register(true).unwrap();
    assert_eq!(expect_queued(source.capture(replayed(2, 0))), 0);
    assert!(matches!(source.capture(replayed(5, 1)), CaptureOutcome::Overflow(_)));
    assert!(matches!(source.poll(3, true), Dispatch::Wait));
    assert_eq!(expect_delivery(source.poll(2, true)).seq, 0);
    config.workers.count = 0;
    assert_eq!(Source::with_config(&config, MARK).err(), Some(SourceError::NoWorkers));
}

#[test]
fn second_registration_is_refused() {
    let mut source = Source::new(1, 8, MARK).unwrap();
    assert_eq!(source.register(true), Ok(()));
    assert_eq!(source.register(true), Err(SourceError::AlreadyRegistered));
    assert_eq!(expect_queued(source.capture(replayed(1, 0))), 0);
}

#[test]
fn nothing_is_taken_before_registration() {
    let mut source = Source::new(1, 8, MARK).unwrap();
    assert!(matches!(source.capture(replayed(1, 0)), CaptureOutcome::Halted(_)));
    assert!(matches!(source.poll(0, true), Dispatch::Halt));
    assert!(!source.report_failure(0));
}

#[test]
fn packets_of_one_stream_are_delivered_in_capture_order() {
    let mut source = running(2, 8);
    let mut numbers = Vec::new();
    for offset in 0..6u64 {
        let stream = if offset % 2 == 0 { 4 } else { 7 };
        numbers.push(expect_queued(source.capture(replayed(stream, offset))));
    }
    assert_eq!(numbers, vec![0, 1, 2, 3, 4, 5]);

    let mut seen_of_seven = Vec::new();
    for _ in 0..3 {
        let delivery = expect_delivery(source.poll(1, true));
        assert_eq!(delivery.packet.stream_id(), 7);
        seen_of_seven.push((delivery.seq, delivery.packet.data().to_vec()));
        assert!(source.complete(1, true));
    }
    assert_eq!(seen_of_seven, vec![(1, vec![1]), (3, vec![3]), (5, vec![5])]);

    let mut seen_of_four = Vec::new();
    for _ in 0..3 {
        let delivery = expect_delivery(source.poll(0, true));
        assert_eq!(delivery.packet.stream_id(), 4);
        seen_of_four.push(delivery.seq);
        assert!(source.complete(0, true));
    }
    assert_eq!(seen_of_four, vec![0, 2, 4]);
    assert!(matches!(source.poll(0, true), Dispatch::Wait));
}

#[test]
fn a_worker_has_one_invocation_at_a_time() {
    let mut source = running(1, 8);
    source.capture(replayed(1, 0));
    source.capture(replayed(1, 1));
    let first = expect_delivery(source.poll(0, true));
    assert_eq!(first.seq, 0);
    assert!(matches!(source.poll(0, true), Dispatch::Wait));
    assert!(source.complete(0, true));
    assert_eq!(expect_delivery(source.poll(0, true)).seq, 1);
}

#[test]
fn no_invocation_after_the_callback_declines() {
    let mut source = running(2, 8);
    source.capture(replayed(0, 0));
    source.capture(replayed(1, 1));
    source.capture(replayed(0, 2));
    let _first = expect_delivery(source.poll(0, true));
    assert!(!source.complete(0, false));
    assert!(matches!(source.poll(0, true), Dispatch::Halt));
    assert!(matches!(source.poll(1, true), Dispatch::Halt));
    assert!(!source.report_failure(1));
    assert!(matches!(source.capture(replayed(0, 3)), CaptureOutcome::Halted(_)));
    assert_eq!(source.register(true), Err(SourceError::AlreadyRegistered));
    assert!(matches!(source.poll(1, true), Dispatch::Halt));
}

#[test]
fn completion_of_an_idle_worker_changes_nothing() {
    let mut source = running(1, 8);
    source.capture(replayed(0, 0));
    assert!(source.complete(0, false));
    assert!(source.complete(5, false));
    assert_eq!(expect_delivery(source.poll(0, true)).seq, 0);
}

#[test]
fn delivery_ends_when_the_liveness_signal_is_down() {
    let mut source = running(2, 8);
    source.capture(replayed(0, 0));
    source.capture(replayed(1, 1));
    let in_flight = expect_delivery(source.poll(1, true));
    assert!(matches!(source.poll(0, false), Dispatch::Halt));
    assert!(matches!(source.poll(0, true), Dispatch::Halt));
    assert!(matches!(source.capture(replayed(0, 2)), CaptureOutcome::Halted(_)));
    // The invocation that was under way returns, and its verdict still counts.
    assert!(!source.complete(1, true));
    let ruling = source.set_verdict(in_flight, Verdict::Accept, Vec::new()).unwrap();
    assert!(ruling.pass);
    assert!(matches!(source.poll(1, true), Dispatch::Halt));
}

#[test]
fn registration_with_the_signal_down_never_delivers() {
    let mut source = Source::new(1, 8, MARK).unwrap();
    assert_eq!(source.register(false), Ok(()));
    assert!(matches!(source.capture(replayed(0, 0)), CaptureOutcome::Halted(_)));
    assert!(matches!(source.poll(0, true), Dispatch::Halt));
}

#[test]
fn a_stream_verdict_ends_delivery_of_the_stream() {
    let mut source = running(1, 8);
    source.capture(replayed(9, 0));
    source.capture(replayed(9, 1));
    source.capture(replayed(3, 2));
    let first = expect_delivery(source.poll(0, true));
    let ruling = source.set_verdict(first, Verdict::DropStream, vec![1, 2, 3]).unwrap();
    assert!(!ruling.pass);
    assert_eq!(ruling.replacement, None);
    assert_eq!(ruling.packet.stream_id(), 9);
    assert!(source.complete(0, true));
    // The packet of the stream that waited is discarded without the callback.
    match source.poll(0, true) {
        Dispatch::Finalize(packet, pass) => {
            assert_eq!(packet.stream_id(), 9);
            assert_eq!(packet.data(), &[1u8][..]);
            assert!(!pass);
        }
        other => panic!("not finalized: {:?}", other),
    }
    // Another stream is still delivered.
    let other = expect_delivery(source.poll(0, true));
    assert_eq!(other.packet.stream_id(), 3);
    assert_eq!(other.seq, 2);
    // What is captured of the stream from now on never waits.
    match source.capture(replayed(9, 3)) {
        CaptureOutcome::Settled(packet, pass) => {
            assert_eq!(packet.stream_id(), 9);
            assert!(!pass);
        }
        other => panic!("not settled: {:?}", other),
    }
}

#[test]
fn an_accepted_stream_passes_without_the_callback() {
    let mut source = running(4, 8);
    source.capture(replayed(6, 0));
    let first = expect_delivery(source.poll(2, true));
    let ruling = source.set_verdict(first, Verdict::AcceptStream, Vec::new()).unwrap();
    assert!(ruling.pass);
    assert!(matches!(source.capture(replayed(6, 1)), CaptureOutcome::Settled(_, true)));
    assert!(matches!(source.poll(2, true), Dispatch::Wait));
}

#[test]
fn a_packet_verdict_leaves_the_stream_under_inspection() {
    let mut source = running(1, 8);
    source.capture(replayed(9, 0));
    source.capture(replayed(9, 1));
    let first = expect_delivery(source.poll(0, true));
    let ruling = source.set_verdict(first, Verdict::Drop, Vec::new()).unwrap();
    assert!(!ruling.pass);
    assert!(source.complete(0, true));
    assert_eq!(expect_delivery(source.poll(0, true)).seq, 1);
}

#[test]
fn the_replacement_counts_only_with_accept_modify() {
    let mut source = running(1, 8);
    source.capture(replayed(1, 0));
    source.capture(replayed(1, 1));
    let first = expect_delivery(source.poll(0, true));
    let ruling = source.set_verdict(first, Verdict::AcceptModify, vec![9, 9]).unwrap();
    assert!(ruling.pass);
    assert_eq!(ruling.replacement, Some(vec![9, 9]));
    assert_eq!(ruling.packet.data(), &[0u8][..]);
    source.complete(0, true);
    let second = expect_delivery(source.poll(0, true));
    let ruling = source.set_verdict(second, Verdict::Accept, vec![9, 9]).unwrap();
    assert!(ruling.pass);
    assert_eq!(ruling.replacement, None);
}

#[test]
fn a_packet_takes_one_verdict() {
    let mut source = running(1, 8);
    source.capture(replayed(1, 0));
    let first = expect_delivery(source.poll(0, true));
    let copy = Delivery { seq: first.seq, packet: replayed(1, 0) };
    assert!(source.set_verdict(first, Verdict::Accept, Vec::new()).is_ok());
    assert_eq!(
        source.set_verdict(copy, Verdict::Drop, Vec::new()).err(),
        Some(SourceError::UnknownPacket)
    );
}

#[test]
fn a_foreign_packet_is_refused() {
    let mut source = running(1, 8);
    source.capture(replayed(1, 0));
    let _first = expect_delivery(source.poll(0, true));
    let never_delivered = Delivery { seq: 17, packet: replayed(1, 0) };
    assert_eq!(
        source.set_verdict(never_delivered, Verdict::Accept, Vec::new()).err(),
        Some(SourceError::UnknownPacket)
    );
    let wrong_stream = Delivery { seq: 0, packet: replayed(2, 0) };
    assert_eq!(
        source.set_verdict(wrong_stream, Verdict::Accept, Vec::new()).err(),
        Some(SourceError::UnknownPacket)
    );
}

#[test]
fn protected_traffic_never_reaches_the_callback() {
    let mut source = running(1, 8);
    let dial = source.protected_conn("198.51.100.7:53").unwrap();
    assert_eq!(dial.address, "198.51.100.7:53");
    assert_eq!(dial.mark, MARK);
    match source.capture(queued(5, 1, dial.mark)) {
        CaptureOutcome::Bypass(packet) => assert_eq!(packet.mark(), Some(MARK)),
        other => panic!("not bypassed: {:?}", other),
    }
    assert!(matches!(source.poll(0, true), Dispatch::Wait));
    // The same stream without the mark is intercepted as usual.
    assert_eq!(expect_queued(source.capture(queued(5, 2, 0))), 0);
    let delivery = expect_delivery(source.poll(0, true));
    assert_eq!(delivery.packet.as_queue().unwrap().id(), 2);
}

#[test]
fn a_full_queue_hands_the_packet_back() {
    let mut source = running(2, 2);
    assert_eq!(expect_queued(source.capture(replayed(0, 0))), 0);
    assert_eq!(expect_queued(source.capture(replayed(2, 1))), 1);
    match source.capture(replayed(4, 2)) {
        CaptureOutcome::Overflow(packet) => assert_eq!(packet.stream_id(), 4),
        other => panic!("not overflowed: {:?}", other),
    }
    // The other worker's queue has room, and the numbers go on without a gap.
    assert_eq!(expect_queued(source.capture(replayed(1, 3))), 2);
    expect_delivery(source.poll(0, true));
    assert_eq!(expect_queued(source.capture(replayed(4, 4))), 3);
}

#[test]
fn a_failure_is_reported_while_the_source_delivers() {
    let mut source = running(1, 8);
    assert!(source.report_failure(0));
    // The invocation with the error is under way: the worker has no other.
    assert!(!source.report_failure(0));
    source.capture(replayed(0, 0));
    assert!(matches!(source.poll(0, true), Dispatch::Wait));
    assert!(!source.report_failure(3));
    // By convention the consumer answers an error with "stop".
    assert!(!source.complete(0, false));
    assert!(!source.report_failure(0));
    assert!(matches!(source.poll(0, true), Dispatch::Halt));
}

#[test]
fn cancel_invokes_the_hook_once() {
    let mut source = running(1, 8);
    assert_eq!(source.set_cancel_func(), Ok(()));
    source.capture(replayed(0, 0));
    assert!(source.cancel());
    assert!(!source.cancel());
    assert!(matches!(source.poll(0, true), Dispatch::Halt));
    assert!(matches!(source.capture(replayed(0, 1)), CaptureOutcome::Halted(_)));
}

#[test]
fn cancel_without_a_hook_invokes_nothing() {
    let mut source = running(1, 8);
    assert!(!source.cancel());
    assert!(matches!(source.poll(0, true), Dispatch::Halt));
    assert_eq!(source.set_cancel_func(), Ok(()));
    assert!(source.cancel());
}

#[test]
fn close_hands_out_what_waited_and_is_idempotent() {
    let mut source = running(2, 8);
    source.capture(replayed(0, 0));
    source.capture(replayed(1, 1));
    source.capture(replayed(2, 2));
    let pending = expect_delivery(source.poll(1, true));
    let left = source.close();
    assert_eq!(left.len(), 2);
    assert_eq!(left[0].iter().map(|d| d.seq).collect::<Vec<u64>>(), vec![0, 2]);
    assert!(left[1].is_empty());
    assert!(source.close().is_empty());
    assert!(source.close().is_empty());
    assert_eq!(source.register(true), Err(SourceError::Closed));
    assert_eq!(source.set_cancel_func(), Err(SourceError::Closed));
    assert_eq!(source.protected_conn("192.0.2.1:80").err(), Some(SourceError::Closed));
    assert_eq!(
        source.set_verdict(pending, Verdict::Accept, Vec::new()).err(),
        Some(SourceError::Closed)
    );
    assert!(!source.cancel());
    assert!(matches!(source.poll(0, true), Dispatch::Halt));
    assert!(matches!(source.capture(replayed(0, 3)), CaptureOutcome::Halted(_)));
}

#[test]
fn close_before_registration_is_safe() {
    let mut source = Source::new(3, 8, MARK).unwrap();
    assert!(source.set_cancel_func().is_ok());
    let left = source.close();
    assert_eq!(left.len(), 3);
    assert!(left.iter().all(|queue| queue.is_empty()));
    assert_eq!(source.register(true), Err(SourceError::Closed));
}
