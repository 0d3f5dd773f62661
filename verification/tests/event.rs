use rserver::request::Request;
use rserver::response::response::Response;
use rserver::router::{Method, Router};
use rserver::response::{ContentType, Status};
use rserver::transport::event::{
    after_handshake, after_read, after_tls_write, after_write, apply_update, dispatch, drain_survivors,
    loop_control, queue_response, read_step, remove_marked, tls_dispatch, write_step, ConnUpdate,
    Dispatch, HandshakeNext, HandshakeOutcome, Interest, IoOutcome, LoopControl, PollEntry,
    ReadNext, Readiness, TlsDispatch, WriteNext, WriteState,
};

fn ready(readable: bool, writable: bool, failed: bool) -> Readiness {
    Readiness {
        active: readable || writable || failed,
        readable,
        writable,
        failed,
    }
}

#[test]
fn dispatch_prefers_errors_then_writes_then_reads() {
    assert_eq!(dispatch(ready(false, false, false), false), Dispatch::Skip);
    assert_eq!(dispatch(ready(true, true, true), false), Dispatch::Close);
    assert_eq!(dispatch(ready(true, true, false), false), Dispatch::Write);
    assert_eq!(dispatch(ready(true, false, false), false), Dispatch::Read);
    assert_eq!(dispatch(ready(true, false, false), true), Dispatch::Skip);
    assert_eq!(dispatch(ready(false, true, false), true), Dispatch::Write);
    let other = Readiness { active: true, readable: false, writable: false, failed: false };
    assert_eq!(dispatch(other, false), Dispatch::Skip);
}

#[test]
fn tls_dispatch_serves_both_turns() {
    assert_eq!(tls_dispatch(ready(false, false, false)), TlsDispatch::Skip);
    assert_eq!(tls_dispatch(ready(true, true, true)), TlsDispatch::Close);
    assert_eq!(
        tls_dispatch(ready(true, true, false)),
        TlsDispatch::Serve { write: true, read: true }
    );
    let other = Readiness { active: true, readable: false, writable: false, failed: false };
    assert_eq!(
        tls_dispatch(other),
        TlsDispatch::Serve { write: false, read: false }
    );
}

#[test]
fn write_turn_drains_the_buffer() {
    let mut buf = b"hello world".to_vec();
    assert_eq!(write_step(&mut buf, Some(IoOutcome::Transferred(6))), WriteNext::Again);
    assert_eq!(buf, b"world".to_vec());
    assert_eq!(
        write_step(&mut buf, Some(IoOutcome::WouldBlock)),
        WriteNext::Finished(WriteState::Continue)
    );
    assert_eq!(buf, b"world".to_vec());
    assert_eq!(write_step(&mut buf, Some(IoOutcome::Transferred(5))), WriteNext::Again);
    assert!(buf.is_empty());
    assert_eq!(write_step(&mut buf, None), WriteNext::Finished(WriteState::Done));
}

#[test]
fn write_turn_ends_on_zero_or_error() {
    let mut buf = b"abc".to_vec();
    assert_eq!(
        write_step(&mut buf, Some(IoOutcome::Transferred(0))),
        WriteNext::Finished(WriteState::Close)
    );
    assert_eq!(buf, b"abc".to_vec());
    assert_eq!(write_step(&mut buf, Some(IoOutcome::Failed)), WriteNext::Failed);
    assert_eq!(buf, b"abc".to_vec());
}

#[test]
fn read_turn_gathers_bytes() {
    let mut buf = b"GET".to_vec();
    let chunk = [b' ', b'/', b' ', 0, 0];
    assert_eq!(read_step(&mut buf, &chunk, IoOutcome::Transferred(3)), ReadNext::Again);
    assert_eq!(buf, b"GET / ".to_vec());
    assert_eq!(read_step(&mut buf, &chunk, IoOutcome::WouldBlock), ReadNext::Parse);
    assert_eq!(read_step(&mut buf, &chunk, IoOutcome::Transferred(0)), ReadNext::Closed);
    assert_eq!(read_step(&mut buf, &chunk, IoOutcome::Failed), ReadNext::Failed);
    assert_eq!(buf, b"GET / ".to_vec());
}

#[test]
fn responses_with_empty_bodies_are_not_queued() {
    let mut read_buf = b"GET / HTTP/1.1\r\n\r\n".to_vec();
    let mut write_buf = Vec::new();
    let empty = Response::new(Status::OK, "", ContentType::TEXT);
    assert!(!queue_response(&mut read_buf, &mut write_buf, &empty));
    assert!(write_buf.is_empty());
    assert_eq!(read_buf, b"GET / HTTP/1.1\r\n\r\n".to_vec());

    let hello = Response::new(Status::OK, "hi", ContentType::TEXT);
    assert!(queue_response(&mut read_buf, &mut write_buf, &hello));
    assert!(read_buf.is_empty());
    let text = String::from_utf8(write_buf).unwrap();
    assert!(text.starts_with("HTTP/1.1 200 OK\r\n"));
    assert!(text.ends_with("\r\n\r\nhi"));
}

#[test]
fn updates_after_turns() {
    assert_eq!(after_write(Some(WriteState::Done), false), ConnUpdate::Watch(Interest::Read));
    assert_eq!(after_write(Some(WriteState::Done), true), ConnUpdate::Close);
    assert_eq!(after_write(Some(WriteState::Continue), false), ConnUpdate::Keep);
    assert_eq!(after_write(Some(WriteState::Close), false), ConnUpdate::Close);
    assert_eq!(after_write(None, false), ConnUpdate::Close);

    assert_eq!(after_tls_write(Some(WriteState::Done)), ConnUpdate::Watch(Interest::Read));
    assert_eq!(after_tls_write(Some(WriteState::Continue)), ConnUpdate::Watch(Interest::Write));
    assert_eq!(after_tls_write(Some(WriteState::Close)), ConnUpdate::Close);
    assert_eq!(after_tls_write(None), ConnUpdate::Close);

    assert_eq!(after_read(Some(true), true), ConnUpdate::Watch(Interest::Write));
    assert_eq!(after_read(Some(true), false), ConnUpdate::Keep);
    assert_eq!(after_read(Some(false), true), ConnUpdate::Close);
    assert_eq!(after_read(None, false), ConnUpdate::Close);

    assert_eq!(after_handshake(HandshakeOutcome::Completed), HandshakeNext::Proceed);
    assert_eq!(after_handshake(HandshakeOutcome::WouldBlock), HandshakeNext::Wait);
    assert_eq!(after_handshake(HandshakeOutcome::Failed), HandshakeNext::Close);
}

#[test]
fn loop_head_decisions() {
    assert_eq!(loop_control(false, false, 3, false), LoopControl::Poll);
    assert_eq!(loop_control(false, true, 3, false), LoopControl::BeginDrain);
    assert_eq!(loop_control(true, true, 3, false), LoopControl::Poll);
    assert_eq!(loop_control(true, true, 0, false), LoopControl::Stop);
    assert_eq!(loop_control(true, false, 2, true), LoopControl::Stop);
}

#[test]
fn marked_entries_are_removed_in_order() {
    let mut entries: Vec<PollEntry> = (0..6)
        .map(|fd| PollEntry { fd, interest: Interest::Read })
        .collect();
    remove_marked(&mut entries, &[1, 2, 5]);
    let fds: Vec<i32> = entries.iter().map(|e| e.fd).collect();
    assert_eq!(fds, vec![0, 3, 4]);

    remove_marked(&mut entries, &[]);
    assert_eq!(entries.len(), 3);
}

#[test]
fn updates_apply_to_entries() {
    let mut entry = PollEntry { fd: 7, interest: Interest::Read };
    assert!(!apply_update(&mut entry, ConnUpdate::Watch(Interest::Write)));
    assert_eq!(entry.interest, Interest::Write);
    assert!(!apply_update(&mut entry, ConnUpdate::Keep));
    assert_eq!(entry.interest, Interest::Write);
    assert!(apply_update(&mut entry, ConnUpdate::Close));
    assert_eq!(entry.fd, 7);
}

#[test]
fn parsed_request_is_routed_and_queued() {
    let mut router = Router::new();
    router.add_route(Method::GET, "/", |_req: &Request, res: &mut Response| {
        res.body("Hello, World!");
    });

    let mut read_buf = b"GET / HTTP/1.1\r\nHost: 127.0.0.1\r\nConnection: close\r\n\r\n".to_vec();
    let mut write_buf = Vec::new();
    let reply = {
        let mut request = Request::parse(&read_buf).expect("a whole request");
        router.route(&mut request).expect("a route for GET /")
    };
    assert!(queue_response(&mut read_buf, &mut write_buf, &reply));
    assert!(read_buf.is_empty());
    let text = String::from_utf8(write_buf).unwrap();
    assert!(text.contains("HTTP/1.1"));
    assert!(text.contains("200 OK"));
    assert!(text.contains("Hello, World!"));

    let other = b"GET /nonexistent HTTP/1.1\r\nHost: 127.0.0.1\r\n\r\n".to_vec();
    let mut request = Request::parse(&other).expect("a whole request");
    assert!(router.route(&mut request).is_none());
}

#[test]
fn drain_flushes_pending_replies_then_stops() {
    // A shutdown request starts the drain once.
    assert_eq!(loop_control(false, true, 2, false), LoopControl::BeginDrain);
    // While replies are pending, the loop keeps polling.
    assert_eq!(loop_control(true, true, 1, false), LoopControl::Poll);
    // A flushed reply closes its connection while draining.
    let mut buf = b"HTTP/1.1 200 OK\r\n\r\n".to_vec();
    let n = buf.len();
    assert_eq!(write_step(&mut buf, Some(IoOutcome::Transferred(n))), WriteNext::Again);
    assert_eq!(write_step(&mut buf, None), WriteNext::Finished(WriteState::Done));
    assert_eq!(after_write(Some(WriteState::Done), true), ConnUpdate::Close);
    // Reads are ignored while draining.
    assert_eq!(dispatch(ready(true, false, false), true), Dispatch::Skip);
    // With nothing left, or past the deadline, the loop stops.
    assert_eq!(loop_control(true, true, 0, false), LoopControl::Stop);
    assert_eq!(loop_control(true, true, 3, true), LoopControl::Stop);
}

#[test]
fn drain_keeps_the_wake_entry_and_pending_replies() {
    let entries = vec![
        PollEntry { fd: 3, interest: Interest::Read },
        PollEntry { fd: 7, interest: Interest::Read },
        PollEntry { fd: 8, interest: Interest::Write },
        PollEntry { fd: 9, interest: Interest::ReadWrite },
    ];
    let pending = vec![(7, false), (8, true), (9, true)];
    let kept = drain_survivors(&entries, 3, &pending);
    assert_eq!(
        kept,
        vec![
            PollEntry { fd: 3, interest: Interest::Read },
            PollEntry { fd: 8, interest: Interest::Write },
            PollEntry { fd: 9, interest: Interest::ReadWrite },
        ]
    );
    assert_eq!(drain_survivors(&entries, 3, &[]), vec![PollEntry { fd: 3, interest: Interest::Read }]);
}

#[test]
fn write_steps_send_the_buffer_in_order() {
    let mut buf = b"hello world".to_vec();
    assert_eq!(write_step(&mut buf, Some(IoOutcome::Transferred(3))), WriteNext::Again);
    assert_eq!(write_step(&mut buf, Some(IoOutcome::Transferred(4))), WriteNext::Again);
    assert_eq!(buf, b"orld".to_vec());
    assert_eq!(write_step(&mut buf, Some(IoOutcome::WouldBlock)), WriteNext::Finished(WriteState::Continue));
    assert_eq!(buf, b"orld".to_vec());
}
