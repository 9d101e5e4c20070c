use mping::packet::DecodeError;
use mping::packet::DecodedReply;
use mping::probe::{send_due, LoopAction, Prober, RecvEvent, PROGRAM_ID, TX_INTERVAL};
use mping::tracker::{rtt_between, EchoReport, Response, SignedMillis};
use mping::{EchoRequestPacket, ResponseHandler};

fn reply_buffer(seq: u16, sent_ms: u128) -> Vec<u8> {
    let mut buf = vec![0x45u8; 20];
    let mut icmp = vec![0u8; 24];
    EchoRequestPacket::new(PROGRAM_ID, seq).serialize(&mut icmp, sent_ms);
    icmp[0] = 0;
    buf.extend(icmp);
    buf
}

fn loss_pct(report: &EchoReport) -> f64 {
    100f64 * (report.packets_on_wire as f64 / report.total_sent as f64)
}

#[test]
fn immediate_reply_has_zero_rtt() {
    let mut h = ResponseHandler::new();
    h.insert_response();
    let before = h.packets_on_wire();
    h.insert_response();
    let now: u128 = 1_700_000_000_000;
    let reply = DecodedReply::Echo { icmp_type: 0, code: 0, sequence: 1, timestamp: now };
    let r = h.on_reply(reply, now);
    assert_eq!(
        r,
        Response::Echo(EchoReport {
            rtt: SignedMillis { negative: false, magnitude: 0 },
            sequence: 1,
            packets_on_wire: 1,
            total_sent: 2,
        })
    );
    assert_eq!(h.packets_on_wire(), before);
}

#[test]
fn unanswered_probes_are_all_lost() {
    let mut h = ResponseHandler::new();
    for n in 1..=5u64 {
        h.insert_response();
        assert_eq!(h.packets_on_wire(), n);
        assert_eq!(h.total_sent(), n);
        assert_eq!(100f64 * (h.packets_on_wire() as f64 / h.total_sent() as f64), 100.0);
    }
}

#[test]
fn loss_counts_outstanding_fraction() {
    let mut h = ResponseHandler::new();
    for _ in 0..4 {
        h.insert_response();
    }
    let buf = reply_buffer(3, 1000);
    let r = h.handle_response(&buf, buf.len(), 1042).unwrap();
    match r {
        Response::Echo(rep) => {
            assert_eq!(rep.rtt, SignedMillis { negative: false, magnitude: 42 });
            assert_eq!(rep.sequence, 3);
            assert_eq!(loss_pct(&rep), 75.0);
        }
        Response::TtlExceeded => panic!("expected an echo reply"),
    }
}

#[test]
fn negative_rtt_is_reported_unclamped() {
    assert_eq!(rtt_between(100, 130), SignedMillis { negative: true, magnitude: 30 });
    assert_eq!(rtt_between(130, 100), SignedMillis { negative: false, magnitude: 30 });
    assert_eq!(rtt_between(0, u128::MAX), SignedMillis { negative: true, magnitude: u128::MAX });
}

#[test]
fn ttl_exceeded_resolves_probe() {
    let mut h = ResponseHandler::new();
    h.insert_response();
    h.insert_response();
    let mut buf = vec![0u8; 56];
    buf[20] = 11;
    assert_eq!(h.handle_response(&buf, 56, 5), Ok(Response::TtlExceeded));
    assert_eq!(h.packets_on_wire(), 1);
    assert_eq!(h.total_sent(), 2);
}

#[test]
fn reply_with_nothing_outstanding_keeps_zero() {
    let mut h = ResponseHandler::new();
    let buf = reply_buffer(9, 500);
    assert_eq!(
        h.handle_response(&buf, buf.len(), 510),
        Ok(Response::Echo(EchoReport {
            rtt: SignedMillis { negative: false, magnitude: 10 },
            sequence: 9,
            packets_on_wire: 0,
            total_sent: 0,
        }))
    );
    assert_eq!(h.packets_on_wire(), 0);
    let mut ttl = vec![0u8; 32];
    ttl[20] = 11;
    assert_eq!(h.handle_response(&ttl, 32, 510), Ok(Response::TtlExceeded));
    assert_eq!(h.packets_on_wire(), 0);
    assert_eq!(h.total_sent(), 0);
}

#[test]
fn immediate_reply_with_short_length_reads_whole_timestamp() {
    let now: u128 = 0x0102_0304_0506_0708_090A_0B0C_0D0E_0F10;
    let mut h = ResponseHandler::new();
    h.insert_response();
    let buf = reply_buffer(4, now);
    assert_eq!(buf.len(), 44);
    match h.handle_response(&buf, 32, now).unwrap() {
        Response::Echo(rep) => {
            assert_eq!(rep.rtt, SignedMillis { negative: false, magnitude: 0 });
            assert_eq!(rep.sequence, 4);
        }
        Response::TtlExceeded => panic!("expected an echo reply"),
    }
    assert_eq!(h.packets_on_wire(), 0);
}

#[test]
fn future_timestamp_gives_negative_rtt() {
    let mut h = ResponseHandler::new();
    h.insert_response();
    let sent: u128 = 1 << 100;
    let buf = reply_buffer(2, sent);
    match h.handle_response(&buf, 32, 1000).unwrap() {
        Response::Echo(rep) => {
            assert_eq!(rep.rtt, SignedMillis { negative: true, magnitude: sent - 1000 });
        }
        Response::TtlExceeded => panic!("expected an echo reply"),
    }
}

#[test]
fn short_reply_is_discarded() {
    let mut h = ResponseHandler::new();
    h.insert_response();
    let buf = vec![0u8; 128];
    assert_eq!(h.handle_response(&buf, 20, 5), Err(DecodeError::IncompleteHeader));
    assert_eq!(h.packets_on_wire(), 1);
}

#[test]
fn send_waits_a_full_interval() {
    let i = TX_INTERVAL as u128;
    assert!(send_due(i, 0));
    assert!(!send_due(i - 1, 0));
    assert!(send_due(5000 + i, 5000));
    assert!(!send_due(4000, 5000));
}

#[test]
fn poll_send_sends_once_per_interval() {
    let mut p = Prober::new(PROGRAM_ID);
    let mut buf = [0u8; 24];
    assert!(!p.poll_send(&mut buf, 100));
    assert_eq!(buf, [0u8; 24]);
    assert!(p.poll_send(&mut buf, 10_000));
    assert_eq!(&buf[4..8], &[0xFA, 0x9E, 0x00, 0x00]);
    assert_eq!(p.counter, 1);
    assert_eq!(p.last_tx_ms, 10_000);
    assert_eq!(p.handler.total_sent(), 1);
    // Far past the interval still gives a single probe.
    assert!(p.poll_send(&mut buf, 50_000));
    assert!(!p.poll_send(&mut buf, 50_100));
    assert_eq!(&buf[6..8], &[0x00, 0x01]);
    assert_eq!(p.counter, 2);
    assert_eq!(p.handler.packets_on_wire(), 2);
}

#[test]
fn sequence_number_wraps() {
    let mut p = Prober::new(1);
    p.counter = 0xFFFF;
    let mut buf = [0u8; 24];
    assert!(p.poll_send(&mut buf, 1_000));
    assert_eq!(&buf[6..8], &[0xFF, 0xFF]);
    assert_eq!(p.counter, 0);
}

#[test]
fn receive_outcomes_drive_the_loop() {
    let mut p = Prober::new(PROGRAM_ID);
    let mut out = [0u8; 24];
    assert!(p.poll_send(&mut out, 1_000));
    let empty: [u8; 0] = [];
    assert_eq!(p.on_receive(RecvEvent::TimedOut, &empty, 1_100), LoopAction::Continue);
    let short = [0u8; 10];
    assert_eq!(
        p.on_receive(RecvEvent::Received(10), &short, 1_100),
        LoopAction::Malformed(DecodeError::IncompleteHeader)
    );
    let buf = reply_buffer(0, 1_000);
    assert_eq!(
        p.on_receive(RecvEvent::Received(buf.len()), &buf, 1_007),
        LoopAction::Report(Response::Echo(EchoReport {
            rtt: SignedMillis { negative: false, magnitude: 7 },
            sequence: 0,
            packets_on_wire: 0,
            total_sent: 1,
        }))
    );
    assert_eq!(p.on_receive(RecvEvent::Failed, &empty, 1_200), LoopAction::Stop);
    assert_eq!(p.handler.packets_on_wire(), 0);
}
