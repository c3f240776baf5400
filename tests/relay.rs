use wirestorm::checksum::compute_checksum;
use wirestorm::frame::FrameError;
use wirestorm::registry::ConnectionRegistry;
use wirestorm::session::{ProducerAction, ProducerSession, ReadEvent};

fn run_frame(s: &mut ProducerSession, frame: &[u8]) -> ProducerAction {
    assert_eq!(s.pending_read(), 8);
    let a = s.step(ReadEvent::Filled(frame[..8].to_vec()));
    assert_eq!(a, ProducerAction::ReadPayload(frame.len() - 8));
    assert_eq!(s.pending_read(), frame.len() - 8);
    s.step(ReadEvent::Filled(frame[8..].to_vec()))
}

#[test]
fn session_forwards_hello_frame() {
    let mut f = vec![0xCC, 0x00, 0x00, 0x05, 0x00, 0x00, 0x00, 0x00];
    f.extend_from_slice(b"hello");
    let mut s = ProducerSession::new();
    assert_eq!(run_frame(&mut s, &f), ProducerAction::Broadcast(f.clone()));
    assert!(!s.is_terminal());
    assert_eq!(s.step(ReadEvent::Ended(0)), ProducerAction::Finish);
    assert!(s.is_terminal());
}

#[test]
fn session_forwards_then_stops_on_bad_checksum() {
    let mut f = vec![0xCC, 0x40, 0x00, 0x04, 0xCC, 0xCC, 0x00, 0x00];
    f.extend_from_slice(b"test");
    let c = compute_checksum(&f);
    f[4] = (c >> 8) as u8;
    f[5] = c as u8;
    let mut s = ProducerSession::new();
    assert_eq!(run_frame(&mut s, &f), ProducerAction::Broadcast(f.clone()));
    let mut bad = f.clone();
    bad[4] ^= 0x80;
    assert_eq!(
        run_frame(&mut s, &bad),
        ProducerAction::Abort(FrameError::ChecksumViolation)
    );
    assert!(s.is_terminal());
}

#[test]
fn session_zero_length_frame() {
    let f = vec![0xCC, 0x00, 0x00, 0x00, 0x00, 0x00, 0x00, 0x00];
    let mut s = ProducerSession::new();
    assert_eq!(run_frame(&mut s, &f), ProducerAction::Broadcast(f.clone()));
}

#[test]
fn session_keeps_frame_order() {
    let a = vec![0xCC, 0x00, 0x00, 0x01, 0x00, 0x00, 0x00, 0x00, 1];
    let b = vec![0xCC, 0x00, 0x00, 0x02, 0x00, 0x00, 0x00, 0x00, 2, 2];
    let mut s = ProducerSession::new();
    let mut out = Vec::new();
    for f in [&a, &b] {
        if let ProducerAction::Broadcast(m) = run_frame(&mut s, f) {
            out.push(m);
        }
    }
    assert_eq!(out, vec![a, b]);
}

#[test]
fn session_bad_magic_aborts() {
    let mut s = ProducerSession::new();
    let a = s.step(ReadEvent::Filled(vec![0x00; 8]));
    assert_eq!(a, ProducerAction::Abort(FrameError::ProtocolViolation));
    assert!(s.is_terminal());
}

#[test]
fn session_stream_end_inside_frame_is_io_failure() {
    let mut s = ProducerSession::new();
    assert_eq!(
        s.step(ReadEvent::Ended(3)),
        ProducerAction::Abort(FrameError::IoFailure)
    );
    let mut s = ProducerSession::new();
    let h = vec![0xCC, 0x00, 0x00, 0x04, 0x00, 0x00, 0x00, 0x00];
    assert_eq!(s.step(ReadEvent::Filled(h)), ProducerAction::ReadPayload(4));
    assert_eq!(
        s.step(ReadEvent::Ended(2)),
        ProducerAction::Abort(FrameError::IoFailure)
    );
    let mut s = ProducerSession::new();
    assert_eq!(
        s.step(ReadEvent::Failed),
        ProducerAction::Abort(FrameError::IoFailure)
    );
}

#[test]
fn one_failed_write_evicts_only_that_sink() {
    let mut r = ConnectionRegistry::new();
    for id in 1..=4u64 {
        r.add(id);
    }
    assert_eq!(r.broadcast_targets(), vec![1, 2, 3, 4]);
    r.evict_failed(&[true, true, false, true]);
    assert_eq!(r.len(), 3);
    assert!(!r.contains(3));
    assert_eq!(r.broadcast_targets(), vec![1, 2, 4]);
}

#[test]
fn consumer_added_after_broadcast_gets_only_later_messages() {
    let mut r = ConnectionRegistry::new();
    r.add(10);
    let targets = r.broadcast_targets();
    assert_eq!(targets, vec![10]);
    r.evict_failed(&[true]);
    r.add(11);
    assert_eq!(r.broadcast_targets(), vec![10, 11]);
}

#[test]
fn add_and_remove_are_idempotent() {
    let mut r = ConnectionRegistry::new();
    r.add(5);
    r.add(5);
    assert_eq!(r.len(), 1);
    r.add(6);
    r.remove(5);
    r.remove(5);
    r.remove(42);
    assert_eq!(r.broadcast_targets(), vec![6]);
    r.evict_failed(&[false]);
    assert_eq!(r.len(), 0);
    r.remove(6);
    assert_eq!(r.len(), 0);
}
