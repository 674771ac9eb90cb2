use serial_tester::engine::{Action, Event, Mismatch, Outcome, Phase, Report, RunError, Session};
use serial_tester::payload::generate_payload;

fn sample_payload(n: usize) -> Vec<u8> {
    (0..n).map(|i| (i * 7 + 3) as u8).collect()
}

/// Opens the device and sends the payload, checking the actions on the way.
fn started(payload: &[u8]) -> Session {
    let mut s = Session::new(payload.to_vec());
    match s.on_event(Event::Opened) {
        Action::Send(bytes) => assert_eq!(bytes, payload.to_vec()),
        _ => panic!("expected the payload to be sent"),
    }
    match s.on_event(Event::Sent) {
        Action::Await(found) => assert!(found.is_empty()),
        _ => panic!("expected to wait for the echo"),
    }
    assert_eq!(s.phase(), Phase::Receiving);
    s
}

fn feed(s: &mut Session, chunk: &[u8]) -> Vec<Mismatch> {
    match s.on_event(Event::Chunk(chunk.to_vec())) {
        Action::Await(found) => found,
        _ => panic!("expected to keep waiting"),
    }
}

fn finish(s: &mut Session, event: Event) -> Report {
    match s.on_event(event) {
        Action::Finish(r) => r,
        _ => panic!("expected the run to end"),
    }
}

#[test]
fn exact_echo_in_one_chunk_completes_clean() {
    let payload = generate_payload(256);
    let mut s = started(&payload);
    assert!(feed(&mut s, &payload).is_empty());
    let r = finish(&mut s, Event::EndOfStream);
    assert_eq!(
        r,
        Report { bytes_compared: 256, mismatch_count: 0, payload_len: 256, outcome: Outcome::Completed }
    );
    assert_eq!(r.error_milli_percent(), 0);
}

#[test]
fn flipped_bit_is_reported_at_its_position() {
    let payload = sample_payload(256);
    let mut echo = payload.clone();
    echo[10] ^= 1;
    let mut s = started(&payload);
    let found = feed(&mut s, &echo);
    assert_eq!(found, vec![Mismatch { position: 10, received: payload[10] ^ 1, expected: payload[10] }]);
    let r = finish(&mut s, Event::EndOfStream);
    assert_eq!(r.mismatch_count, 1);
    assert_eq!(r.bytes_compared, 256);
    // 100 * 1 / 256 = 0.390625 percent
    assert_eq!(r.error_milli_percent(), 391);
}

#[test]
fn silent_transport_times_out_with_nothing_compared() {
    let payload = generate_payload(20000);
    let mut s = started(&payload);
    let r = finish(&mut s, Event::DeadlineElapsed);
    assert_eq!(
        r,
        Report { bytes_compared: 0, mismatch_count: 0, payload_len: 20000, outcome: Outcome::TimedOut }
    );
    assert_eq!(r.error_milli_percent(), 0);
}

#[test]
fn device_open_failure_ends_the_run_before_any_send() {
    let mut s = Session::new(sample_payload(32));
    let r = finish(&mut s, Event::OpenFailed);
    assert_eq!(r.outcome, Outcome::Failed(RunError::DeviceOpen));
    assert_eq!(r.bytes_compared, 0);
    assert_eq!(s.phase(), Phase::Done(Outcome::Failed(RunError::DeviceOpen)));
    // The run is over: later events neither send nor compare.
    assert_eq!(finish(&mut s, Event::Opened), r);
    assert_eq!(finish(&mut s, Event::Chunk(vec![1, 2, 3])), r);
}

#[test]
fn echo_split_into_chunks_matches_as_a_whole() {
    let payload = sample_payload(100);
    let mut s = started(&payload);
    assert!(feed(&mut s, &payload[..1]).is_empty());
    assert!(feed(&mut s, &payload[1..37]).is_empty());
    assert!(feed(&mut s, &[]).is_empty());
    assert!(feed(&mut s, &payload[37..60]).is_empty());
    let r = finish(&mut s, Event::DeadlineElapsed);
    assert_eq!(r.bytes_compared, 60);
    assert_eq!(r.mismatch_count, 0);
    assert_eq!(r.outcome, Outcome::TimedOut);
}

#[test]
fn surplus_bytes_are_not_compared() {
    let payload = sample_payload(8);
    let mut s = started(&payload);
    let mut echo = payload.clone();
    echo.extend_from_slice(&[0xff; 5]);
    assert!(feed(&mut s, &echo[..6]).is_empty());
    assert!(feed(&mut s, &echo[6..]).is_empty());
    assert!(feed(&mut s, &[0xaa; 40]).is_empty());
    let r = finish(&mut s, Event::EndOfStream);
    assert_eq!(r.bytes_compared, 8);
    assert_eq!(r.mismatch_count, 0);
}

#[test]
fn every_byte_wrong_is_still_a_completed_run() {
    let payload = vec![0u8; 4];
    let mut s = started(&payload);
    let found = feed(&mut s, &[1, 2]);
    assert_eq!(found.len(), 2);
    let found = feed(&mut s, &[3, 4, 5]);
    assert_eq!(
        found,
        vec![
            Mismatch { position: 2, received: 3, expected: 0 },
            Mismatch { position: 3, received: 4, expected: 0 },
        ]
    );
    let r = finish(&mut s, Event::EndOfStream);
    assert_eq!(r.mismatch_count, 4);
    assert_eq!(r.bytes_compared, 4);
    assert_eq!(r.outcome, Outcome::Completed);
    assert_eq!(r.error_milli_percent(), 100000);
}

#[test]
fn write_failure_aborts_the_run() {
    let mut s = Session::new(sample_payload(16));
    assert!(matches!(s.on_event(Event::Opened), Action::Send(_)));
    let r = finish(&mut s, Event::SendFailed);
    assert_eq!(r.outcome, Outcome::Failed(RunError::TransportWrite));
    assert_eq!(r.bytes_compared, 0);
}

#[test]
fn read_failure_keeps_the_partial_statistics() {
    let payload = sample_payload(16);
    let mut s = started(&payload);
    let found = feed(&mut s, &[payload[0], payload[1] ^ 0x80, payload[2]]);
    assert_eq!(found.len(), 1);
    let r = finish(&mut s, Event::ReadFailed);
    assert_eq!(
        r,
        Report {
            bytes_compared: 3,
            mismatch_count: 1,
            payload_len: 16,
            outcome: Outcome::Failed(RunError::TransportRead),
        }
    );
}

#[test]
fn events_out_of_phase_are_ignored() {
    let payload = sample_payload(4);
    let mut s = Session::new(payload.clone());
    assert!(matches!(s.on_event(Event::Chunk(vec![9])), Action::Await(f) if f.is_empty()));
    assert!(matches!(s.on_event(Event::DeadlineElapsed), Action::Await(f) if f.is_empty()));
    assert_eq!(s.phase(), Phase::Idle);
    assert!(matches!(s.on_event(Event::Opened), Action::Send(_)));
    assert!(matches!(s.on_event(Event::Chunk(vec![9])), Action::Await(f) if f.is_empty()));
    assert_eq!(s.phase(), Phase::Sending);
    assert!(matches!(s.on_event(Event::Sent), Action::Await(_)));
    assert!(matches!(s.on_event(Event::Opened), Action::Await(f) if f.is_empty()));
    let r = finish(&mut s, Event::EndOfStream);
    assert_eq!(r.bytes_compared, 0);
}

#[test]
fn empty_payload_compares_nothing_and_divides_by_nothing() {
    let payload = generate_payload(0);
    assert!(payload.is_empty());
    let mut s = started(&payload);
    assert!(feed(&mut s, &[1, 2, 3]).is_empty());
    let r = finish(&mut s, Event::DeadlineElapsed);
    assert_eq!(r.bytes_compared, 0);
    assert_eq!(r.mismatch_count, 0);
    assert_eq!(r.error_milli_percent(), 0);
}

#[test]
fn error_percentage_rounds_to_thousandths() {
    let r = |m: usize, n: usize| Report {
        bytes_compared: n,
        mismatch_count: m,
        payload_len: n,
        outcome: Outcome::TimedOut,
    };
    assert_eq!(r(1, 3).error_milli_percent(), 33333);
    assert_eq!(r(2, 3).error_milli_percent(), 66667);
    assert_eq!(r(7, 20000).error_milli_percent(), 35);
    assert_eq!(r(0, 0).error_milli_percent(), 0);
}

#[test]
fn report_so_far_reflects_consumed_bytes() {
    let payload = sample_payload(10);
    let mut s = started(&payload);
    feed(&mut s, &[payload[0], payload[1], 0]);
    let r = s.report(Outcome::TimedOut);
    assert_eq!(r.bytes_compared, 3);
    assert_eq!(r.mismatch_count, if payload[2] == 0 { 0 } else { 1 });
    assert_eq!(s.payload(), &payload);
}

#[test]
fn consume_aligns_chunks_by_cumulative_position() {
    let mut s = Session::new(vec![10, 20, 30]);
    assert_eq!(s.consume(&vec![10, 21]), vec![Mismatch { position: 1, received: 21, expected: 20 }]);
    assert_eq!(s.consume(&vec![31, 40, 50]), vec![Mismatch { position: 2, received: 31, expected: 30 }]);
    let r = s.report(Outcome::Completed);
    assert_eq!(r.bytes_compared, 3);
    assert_eq!(r.mismatch_count, 2);
}
