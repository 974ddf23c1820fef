use http_message::buffer::fill_buffer;
use http_message::cli::{Cli, DEFAULT_PORT};
use http_message::decode::DecodeError;
use http_message::headers::{HTTPHeader, HTTPHeaders};
use http_message::listener::{
    Listener, ListenerAction, ListenerError, ListenerEvent, ListenerState,
};
use http_message::request::HTTPRequest;
use http_message::worker::{
    Action, ConnectionError, ConnectionWorker, DecodeStatus, Event, WorkerState,
};

const REPLY: &[u8] = b"HTTP/1.1 200 OK\n\n<h1>Hello traveller</h1>";

/// A socket that is not ready a given number of times before it gives its
/// data, and likewise before it takes what is written.
struct SimulatedSocket {
    read_blocks: usize,
    write_blocks: usize,
    data: Vec<u8>,
    accepts: usize,
    written: Vec<u8>,
    reads: usize,
    writes: usize,
}

impl SimulatedSocket {
    fn with(data: &[u8]) -> SimulatedSocket {
        SimulatedSocket {
            read_blocks: 0,
            write_blocks: 0,
            data: Vec::from(data),
            accepts: usize::MAX,
            written: Vec::new(),
            reads: 0,
            writes: 0,
        }
    }
}

struct Outcome {
    decoded: Vec<Result<HTTPRequest, DecodeError>>,
    steps: usize,
}

fn drive(worker: &mut ConnectionWorker, socket: &mut SimulatedSocket) -> Outcome {
    let mut outcome = Outcome {
        decoded: Vec::new(),
        steps: 0,
    };
    loop {
        outcome.steps += 1;
        assert!(outcome.steps < 100_000);
        match worker.action() {
            Action::WaitReadable | Action::WaitWritable => worker.step(Event::Ready),
            Action::TryRead => {
                if socket.read_blocks > 0 {
                    socket.read_blocks -= 1;
                    worker.step(Event::WouldBlock);
                } else {
                    socket.reads += 1;
                    worker.step(Event::Read {
                        count: socket.data.len(),
                        buffer: fill_buffer(&socket.data),
                    });
                }
            }
            Action::Decode => {
                let message = worker.decode().expect("the worker asked for it");
                outcome.decoded.push(message);
            }
            Action::TryWrite => {
                if socket.write_blocks > 0 {
                    socket.write_blocks -= 1;
                    worker.step(Event::WouldBlock);
                } else {
                    socket.writes += 1;
                    let payload = ConnectionWorker::reply();
                    let count = payload.len().min(socket.accepts);
                    socket.written.extend_from_slice(&payload[..count]);
                    worker.step(Event::Written { count });
                }
            }
            Action::Close => break,
        }
    }
    outcome
}

fn request_bytes() -> Vec<u8> {
    Vec::from(&b"GET / HTTP/1.1\nContent-Type: application/json\nContent-Length: 3\n\nEND"[..])
}

fn expected_headers() -> HTTPHeaders {
    HTTPHeaders(vec![
        HTTPHeader {
            name: String::from("Content-Type"),
            value: String::from("application/json"),
        },
        HTTPHeader {
            name: String::from("Content-Length"),
            value: String::from("3"),
        },
    ])
}

#[test]
fn the_reply_is_the_literal() {
    assert_eq!(ConnectionWorker::reply(), REPLY);
    assert_eq!(
        ConnectionWorker::reply(),
        "HTTP/1.1 200 OK\n\n<h1>Hello traveller</h1>".as_bytes()
    );
    assert_eq!(ConnectionWorker::reply().len(), 41);
}

#[test]
fn scenario_reply() {
    for data in [request_bytes(), Vec::from(&b"x"[..]), vec![b'\n'; 4096]] {
        let mut worker = ConnectionWorker::new();
        let mut socket = SimulatedSocket::with(&data);
        let outcome = drive(&mut worker, &mut socket);
        assert_eq!(outcome.decoded.len(), 1);
        assert!(outcome.decoded[0].is_ok());
        assert_eq!(socket.written, REPLY);
        assert_eq!(socket.writes, 1);
        assert_eq!(worker.state(), WorkerState::Closed);
        assert_eq!(worker.error(), None);
        assert_eq!(worker.decode_status(), DecodeStatus::Decoded);
    }
}

#[test]
fn a_new_worker_waits_to_read() {
    let worker = ConnectionWorker::new();
    assert_eq!(worker.state(), WorkerState::AwaitReadable);
    assert_eq!(worker.action(), Action::WaitReadable);
    assert_eq!(worker.bytes_read(), 0);
    assert_eq!(*worker.buffer(), [0u8; 4096]);
    assert_eq!(worker.decode_status(), DecodeStatus::NotAttempted);
    assert_eq!(worker.error(), None);
}

#[test]
fn the_states_follow_one_another() {
    let mut worker = ConnectionWorker::new();
    worker.step(Event::Ready);
    assert_eq!(worker.state(), WorkerState::Reading);
    assert_eq!(worker.action(), Action::TryRead);
    let data = request_bytes();
    worker.step(Event::Read {
        count: data.len(),
        buffer: fill_buffer(&data),
    });
    assert_eq!(worker.state(), WorkerState::Decoding);
    assert_eq!(worker.action(), Action::Decode);
    assert_eq!(worker.bytes_read(), data.len());
    assert_eq!(*worker.buffer(), fill_buffer(&data));
    let message = worker.decode().expect("a buffer to decode").expect("text");
    assert_eq!(message.headers, expected_headers());
    assert_eq!(message.url.url, "");
    assert_eq!(message.body.body, fill_buffer(&data));
    assert_eq!(worker.state(), WorkerState::AwaitWritable);
    assert_eq!(worker.action(), Action::WaitWritable);
    assert_eq!(worker.decode_status(), DecodeStatus::Decoded);
    worker.step(Event::Ready);
    assert_eq!(worker.state(), WorkerState::Writing);
    assert_eq!(worker.action(), Action::TryWrite);
    worker.step(Event::Written { count: 41 });
    assert_eq!(worker.state(), WorkerState::Closed);
    assert_eq!(worker.action(), Action::Close);
    assert_eq!(worker.error(), None);
}

#[test]
fn a_read_of_no_bytes_closes_without_decoding() {
    let mut worker = ConnectionWorker::new();
    worker.step(Event::Ready);
    worker.step(Event::Read {
        count: 0,
        buffer: fill_buffer(&request_bytes()),
    });
    assert_eq!(worker.state(), WorkerState::Closed);
    assert_eq!(worker.action(), Action::Close);
    assert_eq!(worker.error(), None);
    assert_eq!(worker.decode_status(), DecodeStatus::NotAttempted);
    assert_eq!(worker.bytes_read(), 0);
    assert_eq!(worker.decode(), None);
    assert_eq!(worker.decode_status(), DecodeStatus::NotAttempted);
    assert_eq!(worker.state(), WorkerState::Closed);

    let mut worker = ConnectionWorker::new();
    let mut socket = SimulatedSocket::with(b"");
    socket.read_blocks = 3;
    let outcome = drive(&mut worker, &mut socket);
    assert_eq!(outcome.decoded.len(), 0);
    assert_eq!(socket.written, b"");
    assert_eq!(socket.writes, 0);
    assert_eq!(worker.state(), WorkerState::Closed);
    assert_eq!(worker.error(), None);
}

#[test]
fn a_socket_that_blocks_is_tried_again() {
    for blocks in [0usize, 1, 2, 7, 1000] {
        let mut worker = ConnectionWorker::new();
        let mut socket = SimulatedSocket::with(&request_bytes());
        socket.read_blocks = blocks;
        let outcome = drive(&mut worker, &mut socket);
        assert_eq!(socket.reads, 1);
        assert_eq!(outcome.decoded.len(), 1);
        let message = outcome.decoded[0].as_ref().expect("text");
        assert_eq!(message.headers, expected_headers());
        assert_eq!(message.body.body, fill_buffer(&request_bytes()));
        assert_eq!(worker.error(), None);
        assert_eq!(socket.written, REPLY);
        assert_eq!(outcome.steps, 2 * blocks + 6);
    }
}

#[test]
fn blocked_rounds_leave_the_worker_as_it_was() {
    let mut worker = ConnectionWorker::new();
    for _ in 0..50 {
        worker.step(Event::Ready);
        assert_eq!(worker.state(), WorkerState::Reading);
        worker.step(Event::WouldBlock);
        assert_eq!(worker.state(), WorkerState::AwaitReadable);
        assert_eq!(worker.error(), None);
        assert_eq!(worker.bytes_read(), 0);
        assert_eq!(worker.decode_status(), DecodeStatus::NotAttempted);
    }
}

#[test]
fn a_write_that_blocks_is_tried_again() {
    let mut worker = ConnectionWorker::new();
    let mut socket = SimulatedSocket::with(&request_bytes());
    socket.write_blocks = 5;
    let outcome = drive(&mut worker, &mut socket);
    assert_eq!(outcome.decoded.len(), 1);
    assert_eq!(socket.writes, 1);
    assert_eq!(socket.written, REPLY);
    assert_eq!(worker.error(), None);
    assert_eq!(outcome.steps, 6 + 2 * 5);
}

#[test]
fn a_partial_write_is_not_completed() {
    for accepts in [0usize, 1, 10] {
        let mut worker = ConnectionWorker::new();
        let mut socket = SimulatedSocket::with(&request_bytes());
        socket.accepts = accepts;
        drive(&mut worker, &mut socket);
        assert_eq!(socket.writes, 1);
        assert_eq!(socket.written, &REPLY[..accepts]);
        assert_eq!(worker.state(), WorkerState::Closed);
        assert_eq!(worker.error(), None);
    }
}

#[test]
fn a_buffer_that_is_not_text_is_answered_all_the_same() {
    let mut worker = ConnectionWorker::new();
    let mut socket = SimulatedSocket::with(&[b'G', b'E', b'T', 0xFF, b'\n']);
    let outcome = drive(&mut worker, &mut socket);
    assert_eq!(outcome.decoded, vec![Err(DecodeError::InvalidUtf8)]);
    assert_eq!(worker.decode_status(), DecodeStatus::Rejected);
    assert_eq!(socket.written, REPLY);
    assert_eq!(worker.state(), WorkerState::Closed);
    assert_eq!(worker.error(), None);
}

#[test]
fn what_was_not_read_is_cleared_before_decoding() {
    let mut dirty = [b'Z'; 4096];
    dirty[..12].copy_from_slice(b"start\nA: 1\n\n");
    dirty[20] = 0xFF;
    let mut worker = ConnectionWorker::new();
    worker.step(Event::Ready);
    worker.step(Event::Read {
        count: 12,
        buffer: dirty,
    });
    assert_eq!(worker.bytes_read(), 12);
    assert_eq!(*worker.buffer(), fill_buffer(b"start\nA: 1\n\n"));
    let message = worker.decode().expect("a buffer").expect("text");
    assert_eq!(message.headers.0.len(), 1);
    assert_eq!(message.body.body, fill_buffer(b"start\nA: 1\n\n"));
}

#[test]
fn the_worker_decodes_the_bytes_that_were_read_only() {
    let mut worker = ConnectionWorker::new();
    worker.step(Event::Ready);
    worker.step(Event::Read {
        count: 6,
        buffer: fill_buffer(b"S\nA: b"),
    });
    let message = worker.decode().expect("a buffer").expect("text");
    assert_eq!(message.headers.0.len(), 1);
    assert_eq!(message.headers.0[0].name, "A");
    assert_eq!(message.headers.0[0].value, "b");
    assert_eq!(message.body.body, fill_buffer(b"S\nA: b"));

    // a zero that was read is content; the padding after it is not
    let mut worker = ConnectionWorker::new();
    worker.step(Event::Ready);
    worker.step(Event::Read {
        count: 7,
        buffer: fill_buffer(b"S\nA: b"),
    });
    let message = worker.decode().expect("a buffer").expect("text");
    assert_eq!(message.headers.0[0].value, "b\0");
}

#[test]
fn a_count_beyond_the_buffer_is_taken_as_the_whole_buffer() {
    let full = [b'a'; 4096];
    let mut worker = ConnectionWorker::new();
    worker.step(Event::Ready);
    worker.step(Event::Read {
        count: 5000,
        buffer: full,
    });
    assert_eq!(worker.state(), WorkerState::Decoding);
    assert_eq!(worker.bytes_read(), 4096);
    assert_eq!(*worker.buffer(), full);
}

#[test]
fn errors_close_the_connection() {
    let mut worker = ConnectionWorker::new();
    worker.step(Event::Failed);
    assert_eq!(worker.state(), WorkerState::Closed);
    assert_eq!(worker.error(), Some(ConnectionError::Read));

    let mut worker = ConnectionWorker::new();
    worker.step(Event::Ready);
    worker.step(Event::Failed);
    assert_eq!(worker.state(), WorkerState::Closed);
    assert_eq!(worker.error(), Some(ConnectionError::Read));
    assert_eq!(worker.decode(), None);

    let mut worker = ConnectionWorker::new();
    worker.step(Event::Ready);
    worker.step(Event::Read {
        count: 1,
        buffer: fill_buffer(b"x"),
    });
    assert!(worker.decode().is_some());
    worker.step(Event::Failed);
    assert_eq!(worker.state(), WorkerState::Closed);
    assert_eq!(worker.error(), Some(ConnectionError::Write));

    let mut worker = ConnectionWorker::new();
    worker.step(Event::Ready);
    worker.step(Event::Read {
        count: 1,
        buffer: fill_buffer(b"x"),
    });
    assert!(worker.decode().is_some());
    worker.step(Event::Ready);
    worker.step(Event::Failed);
    assert_eq!(worker.state(), WorkerState::Closed);
    assert_eq!(worker.error(), Some(ConnectionError::Write));
    assert_eq!(worker.decode_status(), DecodeStatus::Decoded);
}

#[test]
fn events_that_answer_no_action_are_ignored() {
    let buffer = fill_buffer(b"x");
    let all = [
        Event::Ready,
        Event::WouldBlock,
        Event::Read { count: 1, buffer },
        Event::Read { count: 0, buffer },
        Event::Written { count: 1 },
        Event::Failed,
    ];
    // waiting to read: only readiness and failure count
    for event in [all[1], all[2], all[3], all[4]] {
        let mut worker = ConnectionWorker::new();
        worker.step(event);
        assert_eq!(worker.state(), WorkerState::AwaitReadable);
        assert_eq!(worker.error(), None);
    }
    // reading: readiness and a write do not count
    for event in [all[0], all[4]] {
        let mut worker = ConnectionWorker::new();
        worker.step(Event::Ready);
        worker.step(event);
        assert_eq!(worker.state(), WorkerState::Reading);
    }
    // with a buffer to decode, and once closed: nothing counts
    for event in all {
        let mut worker = ConnectionWorker::new();
        worker.step(Event::Ready);
        worker.step(Event::Read { count: 1, buffer });
        worker.step(event);
        assert_eq!(worker.state(), WorkerState::Decoding);
        assert_eq!(worker.error(), None);
        let mut closed = ConnectionWorker::new();
        closed.step(Event::Failed);
        closed.step(event);
        assert_eq!(closed.state(), WorkerState::Closed);
        assert_eq!(closed.error(), Some(ConnectionError::Read));
    }
    // writing: readiness and a read do not count
    for event in [all[0], all[2], all[3]] {
        let mut worker = ConnectionWorker::new();
        worker.step(Event::Ready);
        worker.step(Event::Read { count: 1, buffer });
        assert!(worker.decode().is_some());
        worker.step(Event::Ready);
        worker.step(event);
        assert_eq!(worker.state(), WorkerState::Writing);
    }
}

#[test]
fn decoding_is_done_once() {
    let mut worker = ConnectionWorker::new();
    assert_eq!(worker.decode(), None);
    worker.step(Event::Ready);
    assert_eq!(worker.decode(), None);
    assert_eq!(worker.state(), WorkerState::Reading);
    worker.step(Event::Read {
        count: 3,
        buffer: fill_buffer(b"a\nb"),
    });
    assert!(worker.decode().is_some());
    assert_eq!(worker.decode(), None);
    assert_eq!(worker.state(), WorkerState::AwaitWritable);
}

#[test]
fn a_listener_without_a_limit_accepts_on() {
    let mut listener = Listener::new(None);
    assert_eq!(listener.state(), ListenerState::Unbound);
    assert_eq!(listener.action(), ListenerAction::Bind);
    listener.step(ListenerEvent::Bound);
    for _ in 0..1000 {
        assert_eq!(listener.state(), ListenerState::Accepting);
        assert_eq!(listener.action(), ListenerAction::Accept);
        listener.step(ListenerEvent::Accepted);
        assert_eq!(listener.state(), ListenerState::Dispatching);
        assert_eq!(listener.action(), ListenerAction::Dispatch);
        listener.step(ListenerEvent::Dispatched);
    }
    assert_eq!(listener.state(), ListenerState::Accepting);
    assert_eq!(listener.remaining(), None);
    assert_eq!(listener.error(), None);
}

#[test]
fn a_listener_with_a_limit_stops_after_it() {
    for limit in [1u64, 2, 5] {
        let mut listener = Listener::new(Some(limit));
        listener.step(ListenerEvent::Bound);
        let mut served = 0;
        while listener.action() == ListenerAction::Accept {
            listener.step(ListenerEvent::Accepted);
            assert_eq!(listener.action(), ListenerAction::Dispatch);
            listener.step(ListenerEvent::Dispatched);
            served += 1;
            assert_eq!(listener.remaining(), Some(limit - served));
        }
        assert_eq!(served, limit);
        assert_eq!(listener.state(), ListenerState::Stopped);
        assert_eq!(listener.action(), ListenerAction::Stop);
        assert_eq!(listener.error(), None);
    }
    let mut none = Listener::new(Some(0));
    assert_eq!(none.action(), ListenerAction::Bind);
    none.step(ListenerEvent::Bound);
    assert_eq!(none.state(), ListenerState::Stopped);
    assert_eq!(none.error(), None);
}

#[test]
fn listener_errors_end_serving() {
    let mut listener = Listener::new(None);
    listener.step(ListenerEvent::BindFailed);
    assert_eq!(listener.state(), ListenerState::Stopped);
    assert_eq!(listener.error(), Some(ListenerError::Bind));
    listener.step(ListenerEvent::Bound);
    listener.step(ListenerEvent::Accepted);
    assert_eq!(listener.state(), ListenerState::Stopped);
    assert_eq!(listener.error(), Some(ListenerError::Bind));

    let mut listener = Listener::new(Some(3));
    listener.step(ListenerEvent::Bound);
    listener.step(ListenerEvent::Accepted);
    listener.step(ListenerEvent::Dispatched);
    listener.step(ListenerEvent::AcceptFailed);
    assert_eq!(listener.state(), ListenerState::Stopped);
    assert_eq!(listener.error(), Some(ListenerError::Accept));
    assert_eq!(listener.remaining(), Some(2));
}

#[test]
fn listener_events_that_answer_no_action_are_ignored() {
    let mut listener = Listener::new(Some(2));
    for event in [
        ListenerEvent::Accepted,
        ListenerEvent::AcceptFailed,
        ListenerEvent::Dispatched,
    ] {
        listener.step(event);
        assert_eq!(listener.state(), ListenerState::Unbound);
    }
    listener.step(ListenerEvent::Bound);
    for event in [
        ListenerEvent::Bound,
        ListenerEvent::BindFailed,
        ListenerEvent::Dispatched,
    ] {
        listener.step(event);
        assert_eq!(listener.state(), ListenerState::Accepting);
        assert_eq!(listener.remaining(), Some(2));
    }
    listener.step(ListenerEvent::Accepted);
    for event in [
        ListenerEvent::Bound,
        ListenerEvent::BindFailed,
        ListenerEvent::Accepted,
        ListenerEvent::AcceptFailed,
    ] {
        listener.step(event);
        assert_eq!(listener.state(), ListenerState::Dispatching);
        assert_eq!(listener.error(), None);
    }
}

#[test]
fn the_address_is_the_port_on_the_local_host() {
    assert_eq!(DEFAULT_PORT, 7272);
    assert_eq!(Cli::default(), Cli { port: 7272 });
    assert_eq!(Cli::default().bind_address(), "127.0.0.1:7272");
    assert_eq!(Cli { port: 0 }.bind_address(), "127.0.0.1:0");
    assert_eq!(Cli { port: 9 }.bind_address(), "127.0.0.1:9");
    assert_eq!(Cli { port: 10 }.bind_address(), "127.0.0.1:10");
    assert_eq!(Cli { port: 8081 }.bind_address(), "127.0.0.1:8081");
    assert_eq!(Cli { port: 65535 }.bind_address(), "127.0.0.1:65535");
    assert_eq!(
        Cli { port: u32::MAX }.bind_address(),
        "127.0.0.1:4294967295"
    );
    for port in [1u32, 12, 123, 1234, 12345, 100000, 1000000007] {
        assert_eq!(
            Cli { port }.bind_address(),
            format!("127.0.0.1:{port}")
        );
    }
}
