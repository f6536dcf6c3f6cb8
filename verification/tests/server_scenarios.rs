//! End-to-end scenarios driven through the state machine, with the
//! kernel replaced by hand-fed completion records.

use http_server_iouring_rev::conn::ConnState;
use http_server_iouring_rev::ops::{Completion, OpDesc, Token};
use http_server_iouring_rev::pool::BufferPool;
use http_server_iouring_rev::ring::RingProxy;
use http_server_iouring_rev::server::{CoreError, ServerCore, StepOutcome};

const LISTENER_FD: i32 = 3;

fn setup() -> (ServerCore, RingProxy) {
    let core = ServerCore::new(LISTENER_FD, 5, 4096, 512);
    let proxy = RingProxy::new(32, 16);
    (core, proxy)
}

fn advance(core: &mut ServerCore, proxy: &mut RingProxy, token: Token, result: i32) -> StepOutcome {
    core.handle_completion(proxy, Completion { token, result })
        .expect("the state machine refused a well-formed completion")
}

/// Deliver an accept completion for a fresh socket and return the new
/// connection's token.
fn open_connection(core: &mut ServerCore, proxy: &mut RingProxy, fd: i32) -> Token {
    core.conns.spawn_slots(1, proxy);
    let accept_token = core.accept_token;
    match advance(core, proxy, accept_token, fd) {
        StepOutcome::Accepted { token, fd: got } => {
            assert_eq!(got, fd);
            token
        },
        other => panic!("expected an admitted connection, got {:?}", other),
    }
}

/// Deliver the readiness completion and return the receive buffer handle.
fn make_receiving(core: &mut ServerCore, proxy: &mut RingProxy, token: Token) -> usize {
    let outcome = advance(core, proxy, token, 1);
    assert_eq!(outcome, StepOutcome::Proceed);
    match core.table.resolve(token) {
        Some(ConnState::Receiving { buffer_handle, .. }) => buffer_handle,
        other => panic!("expected a receiving connection, got {:?}", other),
    }
}

/// Drive a connection from admission to `Sending` for the given request
/// bytes, with `body` installed as the fixed resource the request
/// resolves to. Returns the token and the response buffer handle.
fn run_to_sending(
    core: &mut ServerCore,
    proxy: &mut RingProxy,
    fd: i32,
    request: &[u8],
    status: usize,
    resource: usize,
    body: &[u8],
) -> (Token, usize) {
    core.fixed[resource] = body.to_vec();
    let token = open_connection(core, proxy, fd);
    let h = make_receiving(core, proxy, token);
    core.pool.write(h, request.to_vec());
    let outcome = advance(core, proxy, token, request.len() as i32);
    assert_eq!(outcome, StepOutcome::Proceed);
    match core.table.resolve(token) {
        Some(ConnState::ReadingResource { status: got_status, resource_handle, .. }) => {
            assert_eq!(got_status, status);
            assert_eq!(resource_handle, resource);
        },
        other => panic!("expected a resource read, got {:?}", other),
    }
    let outcome = advance(core, proxy, token, body.len() as i32);
    assert_eq!(outcome, StepOutcome::Proceed);
    match core.table.resolve(token) {
        Some(ConnState::Sending { buffer_handle, offset, total_len, .. }) => {
            assert_eq!(offset, 0);
            let response = core.pool.read(buffer_handle).clone();
            assert_eq!(total_len, response.len());
            (token, buffer_handle)
        },
        other => panic!("expected a send in progress, got {:?}", other),
    }
}

#[test]
fn hello_path_wire_bytes() {
    let (mut core, mut proxy) = setup();
    let body = b"<h1>hello</h1>";
    let (token, h) = run_to_sending(
        &mut core,
        &mut proxy,
        10,
        b"GET / HTTP/1.1\r\n\r\n",
        200,
        1,
        body,
    );
    let response = core.pool.read(h).clone();
    let mut expected = format!("HTTP/1.1 200 OK\r\nContent-Length: {}\r\n\r\n", body.len())
        .into_bytes();
    expected.extend_from_slice(body);
    assert_eq!(response, expected);
    // The staged send covers the whole response from the start.
    let last = *proxy.sq.last().expect("a send should be staged");
    assert_eq!(
        last,
        OpDesc::Send { fd: 10, buf: h, offset: 0, len: expected.len(), token }
    );
}

#[test]
fn not_found_path_wire_bytes() {
    let (mut core, mut proxy) = setup();
    let body = b"<h1>404</h1>";
    let (_token, h) = run_to_sending(
        &mut core,
        &mut proxy,
        10,
        b"GET /x HTTP/1.1\r\n\r\n",
        404,
        0,
        body,
    );
    let response = core.pool.read(h).clone();
    let mut expected = format!("HTTP/1.1 404 NOT FOUND\r\nContent-Length: {}\r\n\r\n", body.len())
        .into_bytes();
    expected.extend_from_slice(body);
    assert_eq!(response, expected);
}

#[test]
fn graceful_close_reclaims_everything_once() {
    let (mut core, mut proxy) = setup();
    let token = open_connection(&mut core, &mut proxy, 10);
    let h = make_receiving(&mut core, &mut proxy, token);
    // Zero-length receive: the peer closed.
    let outcome = advance(&mut core, &mut proxy, token, 0);
    assert_eq!(outcome, StepOutcome::CloseSocket { fd: 10 });
    assert_eq!(core.table.resolve(token), None);
    // The buffer handle went back to the free list exactly once.
    assert_eq!(core.pool.free, vec![h]);
}

#[test]
fn short_write_converges() {
    let (mut core, mut proxy) = setup();
    // Body chosen so the response length is divisible by three.
    let body = b"<h1>abc</h1>";
    let (token, h) = run_to_sending(
        &mut core,
        &mut proxy,
        10,
        b"GET / HTTP/1.1\r\n\r\n",
        200,
        1,
        body,
    );
    let total = match core.table.resolve(token) {
        Some(ConnState::Sending { total_len, .. }) => total_len,
        other => panic!("expected a send in progress, got {:?}", other),
    };
    assert_eq!(total % 3, 0);
    let w = total / 3;

    let mut completions = 0usize;
    let mut last_offset = 0usize;
    loop {
        match core.table.resolve(token) {
            Some(ConnState::Sending { offset, .. }) => {
                assert!(offset == last_offset);
            },
            _ => break,
        }
        let outcome = advance(&mut core, &mut proxy, token, w as i32);
        assert_eq!(outcome, StepOutcome::Proceed);
        completions += 1;
        last_offset += w;
        assert!(completions <= 3);
    }
    assert_eq!(completions, 3);
    assert_eq!(core.table.resolve(token), Some(ConnState::AwaitingReadable { socket: 10 }));
    // The response buffer was released when the send completed.
    assert!(core.pool.free.contains(&h));
    // The connection persists: a new readiness watch was staged for it.
    let last = *proxy.sq.last().expect("a watch should be staged");
    assert_eq!(last, OpDesc::PollAdd { fd: 10, token });
}

#[test]
fn partial_send_advances_offset_and_restages_remainder() {
    let (mut core, mut proxy) = setup();
    let body = b"<h1>hello</h1>";
    let (token, h) = run_to_sending(
        &mut core,
        &mut proxy,
        10,
        b"GET / HTTP/1.1\r\n\r\n",
        200,
        1,
        body,
    );
    let total = match core.table.resolve(token) {
        Some(ConnState::Sending { total_len, .. }) => total_len,
        other => panic!("expected a send in progress, got {:?}", other),
    };
    let outcome = advance(&mut core, &mut proxy, token, 7);
    assert_eq!(outcome, StepOutcome::Proceed);
    assert_eq!(
        core.table.resolve(token),
        Some(ConnState::Sending { socket: 10, buffer_handle: h, offset: 7, total_len: total })
    );
    let last = *proxy.sq.last().expect("the remainder should be staged");
    assert_eq!(
        last,
        OpDesc::Send { fd: 10, buf: h, offset: 7, len: total - 7, token }
    );
}

#[test]
fn buffer_handles_exclusive_across_connections() {
    let (mut core, mut proxy) = setup();
    core.fixed[1] = b"<h1>hello</h1>".to_vec();
    let t1 = open_connection(&mut core, &mut proxy, 10);
    let t2 = open_connection(&mut core, &mut proxy, 11);
    // Interleave the two connections' progress.
    let h1 = make_receiving(&mut core, &mut proxy, t1);
    let h2 = make_receiving(&mut core, &mut proxy, t2);
    assert_ne!(h1, h2);
    core.pool.write(h1, b"GET / HTTP/1.1\r\n\r\n".to_vec());
    core.pool.write(h2, b"GET / HTTP/1.1\r\n\r\n".to_vec());
    advance(&mut core, &mut proxy, t2, 18);
    advance(&mut core, &mut proxy, t1, 18);
    advance(&mut core, &mut proxy, t1, 14);
    advance(&mut core, &mut proxy, t2, 14);
    let s1 = match core.table.resolve(t1) {
        Some(ConnState::Sending { buffer_handle, .. }) => buffer_handle,
        other => panic!("expected a send in progress, got {:?}", other),
    };
    let s2 = match core.table.resolve(t2) {
        Some(ConnState::Sending { buffer_handle, .. }) => buffer_handle,
        other => panic!("expected a send in progress, got {:?}", other),
    };
    assert_ne!(s1, s2);
    // No two staged operations reference the same buffer handle either.
    let mut handles: Vec<usize> = Vec::new();
    for op in &proxy.sq {
        match op {
            OpDesc::Recv { buf, .. } | OpDesc::Send { buf, .. } => handles.push(*buf),
            _ => {},
        }
    }
    let mut deduped = handles.clone();
    deduped.sort();
    deduped.dedup();
    // Each handle appears once per operation generation; the two live
    // sends reference the two distinct handles.
    assert!(deduped.contains(&s1) && deduped.contains(&s2));
}

#[test]
fn stale_token_is_refused() {
    let (mut core, mut proxy) = setup();
    let bogus = Token { idx: 99, gen: 0 };
    let r = core.handle_completion(&mut proxy, Completion { token: bogus, result: 1 });
    assert_eq!(r, Err(CoreError::StaleToken));
}

#[test]
fn accept_underflow_is_refused() {
    let (mut core, mut proxy) = setup();
    let accept_token = core.accept_token;
    let r = core.handle_completion(&mut proxy, Completion { token: accept_token, result: 9 });
    assert_eq!(r, Err(CoreError::AcceptUnderflow));
}

#[test]
fn oversized_read_completion_is_refused() {
    let (mut core, mut proxy) = setup();
    core.fixed[1] = b"<h1>hello</h1>".to_vec();
    let token = open_connection(&mut core, &mut proxy, 10);
    let h = make_receiving(&mut core, &mut proxy, token);
    core.pool.write(h, b"GET / HTTP/1.1\r\n\r\n".to_vec());
    advance(&mut core, &mut proxy, token, 18);
    let too_big = core.fixed[1].len() as i32 + 1;
    let r = core.handle_completion(&mut proxy, Completion { token, result: too_big });
    assert_eq!(r, Err(CoreError::BadCompletion));
}

#[test]
fn oversized_send_completion_is_refused() {
    let (mut core, mut proxy) = setup();
    let body = b"<h1>hello</h1>";
    let (token, _h) = run_to_sending(
        &mut core,
        &mut proxy,
        10,
        b"GET / HTTP/1.1\r\n\r\n",
        200,
        1,
        body,
    );
    let total = match core.table.resolve(token) {
        Some(ConnState::Sending { total_len, .. }) => total_len,
        other => panic!("expected a send in progress, got {:?}", other),
    };
    let r = core.handle_completion(
        &mut proxy,
        Completion { token, result: total as i32 + 1 },
    );
    assert_eq!(r, Err(CoreError::BadCompletion));
}

#[test]
fn failed_receive_tears_the_connection_down() {
    let (mut core, mut proxy) = setup();
    let token = open_connection(&mut core, &mut proxy, 10);
    let h = make_receiving(&mut core, &mut proxy, token);
    let outcome = advance(&mut core, &mut proxy, token, -104);
    assert_eq!(outcome, StepOutcome::CloseSocket { fd: 10 });
    assert_eq!(core.table.resolve(token), None);
    assert_eq!(core.pool.free, vec![h]);
}

#[test]
fn failed_accept_returns_the_slot() {
    let (mut core, mut proxy) = setup();
    core.conns.spawn_slots(1, &mut proxy);
    assert_eq!(core.conns.count, 1);
    let accept_token = core.accept_token;
    let outcome = advance(&mut core, &mut proxy, accept_token, -11);
    assert_eq!(outcome, StepOutcome::Proceed);
    assert_eq!(core.conns.count, 0);
}

#[test]
fn reused_slot_invalidates_the_old_token() {
    let (mut core, mut proxy) = setup();
    let t1 = open_connection(&mut core, &mut proxy, 10);
    let h = make_receiving(&mut core, &mut proxy, t1);
    let _ = h;
    let outcome = advance(&mut core, &mut proxy, t1, 0);
    assert_eq!(outcome, StepOutcome::CloseSocket { fd: 10 });
    // The next admission reuses the slot under a fresh generation.
    let t2 = open_connection(&mut core, &mut proxy, 11);
    assert_eq!(t2.idx, t1.idx);
    assert_ne!(t2.gen, t1.gen);
    assert_eq!(core.table.resolve(t1), None);
    let r = core.handle_completion(&mut proxy, Completion { token: t1, result: 1 });
    assert_eq!(r, Err(CoreError::StaleToken));
}

#[test]
fn pool_stores_and_reuses_buffers() {
    let mut pool = BufferPool::new(64, 4);
    let h0 = pool.acquire();
    pool.write(h0, b"abc".to_vec());
    assert_eq!(pool.read(h0).as_slice(), b"abc");
    let h1 = pool.acquire();
    assert_ne!(h0, h1);
    pool.release(h0);
    // The most recently reclaimed handle is handed out again.
    let h2 = pool.acquire();
    assert_eq!(h2, h0);
    // Its bytes are still addressable and replaceable.
    pool.write(h2, b"xyz".to_vec());
    assert_eq!(pool.read(h2).as_slice(), b"xyz");
}
