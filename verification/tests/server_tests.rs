use std::collections::HashSet;
use signal_http::chat::{ChatRequest, ChatServer};
use signal_http::chat_http::ChatHttpServer;
use signal_http::script::{ScriptRead, ScriptWrite, ScriptedStream};
use signal_http::server::HttpServer;
use signal_http::tokens::calc_next_token;

fn handler() -> ChatHttpServer {
    let mut chat_server = ChatServer::new();
    chat_server.issue(ChatRequest::StoreContactList { id: 1, list: vec![2] });
    chat_server.issue(ChatRequest::StoreContactList { id: 2, list: vec![1] });
    ChatHttpServer::new(chat_server)
}

#[test]
fn one_response_per_connection() {
    let mut server: HttpServer<ScriptedStream, ChatHttpServer> = HttpServer::new(handler());
    let stream = ScriptedStream::new(
        vec![ScriptRead::Chunk(b"GET /nope HTTP/1.1\r\n\r\n".to_vec())],
        vec![
            ScriptWrite::Accept(3),
            ScriptWrite::WouldBlock,
            ScriptWrite::Accept(100000),
        ],
    );
    server.connection_accepted(1, stream);
    assert!(server.is_connection_active(1));

    // The request parses; the flush stalls after three bytes, so the
    // connection stays, now in Writing mode.
    server.connection_readable(1);
    assert!(server.is_connection_active(1));

    // A readable signal in Writing mode is a no-op.
    server.connection_readable(1);
    assert!(server.is_connection_active(1));

    // The next writable event flushes the rest: the connection is released.
    server.connection_writable(1);
    assert!(!server.is_connection_active(1));

    // Further signals for the released identifier are no-ops.
    server.connection_readable(1);
    server.connection_writable(1);
    assert!(!server.is_connection_active(1));
}

#[test]
fn edge_triggered_drain() {
    let mut server: HttpServer<ScriptedStream, ChatHttpServer> = HttpServer::new(handler());
    // The request arrives in three chunks before the stream would block; a
    // single readable event must consume them all, so the response is already
    // flushed when the event returns.
    let stream = ScriptedStream::new(
        vec![
            ScriptRead::Chunk(b"GET /nope".to_vec()),
            ScriptRead::Chunk(b" HTTP/1.1\r\n".to_vec()),
            ScriptRead::Chunk(b"\r\n".to_vec()),
            ScriptRead::WouldBlock,
        ],
        vec![ScriptWrite::Accept(100000)],
    );
    server.connection_accepted(7, stream);
    server.connection_readable(7);
    assert!(!server.is_connection_active(7));
}

#[test]
fn malformed_input_gets_a_400_then_close() {
    let mut server: HttpServer<ScriptedStream, ChatHttpServer> = HttpServer::new(handler());
    // The peer closes after sending garbage: a fixed 400 is written and the
    // connection released.
    let stream = ScriptedStream::new(
        vec![ScriptRead::Chunk(b"nonsense".to_vec()), ScriptRead::Closed],
        vec![ScriptWrite::Accept(100000)],
    );
    server.connection_accepted(2, stream);
    server.connection_readable(2);
    assert!(!server.is_connection_active(2));
}

#[test]
fn io_failure_drops_the_connection_silently() {
    let mut server: HttpServer<ScriptedStream, ChatHttpServer> = HttpServer::new(handler());
    let stream = ScriptedStream::new(vec![ScriptRead::Failed], vec![ScriptWrite::Accept(100000)]);
    server.connection_accepted(3, stream);
    server.connection_readable(3);
    assert!(!server.is_connection_active(3));
}

#[test]
fn incomplete_request_waits_for_more_events() {
    let mut server: HttpServer<ScriptedStream, ChatHttpServer> = HttpServer::new(handler());
    let stream = ScriptedStream::new(
        vec![ScriptRead::Chunk(b"GET /nope HT".to_vec()), ScriptRead::WouldBlock],
        vec![ScriptWrite::Accept(100000)],
    );
    server.connection_accepted(4, stream);
    server.connection_readable(4);
    // Nothing complete yet: the connection stays, awaiting more data.
    assert!(server.is_connection_active(4));
}

#[test]
fn allocator_never_hands_out_a_live_identifier() {
    let mut used: HashSet<usize> = HashSet::new();
    let mut last: usize = 0;
    let mut issued: Vec<usize> = Vec::new();
    for _ in 0..100 {
        let t = calc_next_token(&used, last).unwrap();
        assert!(!used.contains(&t));
        used.insert(t);
        issued.push(t);
        last = t;
    }
    for i in 0..issued.len() {
        for j in 0..i {
            assert_ne!(issued[i], issued[j]);
        }
    }
    // Releasing an identifier makes it available again: probing from just
    // below it finds it first.
    used.remove(&5);
    assert_eq!(calc_next_token(&used, 4), Some(5));
}

#[test]
fn allocator_wraps_from_the_top_of_the_space() {
    let used: HashSet<usize> = HashSet::new();
    assert_eq!(calc_next_token(&used, usize::MAX - 2), Some(2));

    let mut used: HashSet<usize> = HashSet::new();
    used.insert(2);
    used.insert(3);
    assert_eq!(calc_next_token(&used, usize::MAX - 2), Some(4));

    // Just below the top, no wrap is needed yet.
    assert_eq!(calc_next_token(&used, usize::MAX - 3), Some(usize::MAX - 2));
}

#[test]
fn zero_stays_reserved() {
    let used: HashSet<usize> = HashSet::new();
    assert_eq!(calc_next_token(&used, 0), Some(1));
}
