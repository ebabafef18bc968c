use vstd::prelude::*;
use vstd::slice::slice_subrange;
use std::collections::HashMap;
use crate::bytes::str_bytes;
use crate::http::{
    parse, parse_spec, serialize_spec, BodyContent, HttpRequest, HttpResponse, ParseOutcome,
    ParseResult,
};

verus! {

broadcast use vstd::std_specs::hash::group_hash_axioms;

/// Data is read from and written to a connection's stream in chunks of up to
/// this many bytes; the buffer grows by this much whenever it is full.
pub const CHUNK_SIZE: usize = 8192;

/// What one non-blocking read attempt concluded.
pub enum ReadOutcome {
    /// This many bytes were placed into the buffer at the given offset.
    Data(usize),
    /// The peer closed its write side: no more data will ever arrive.
    Closed,
    /// Nothing is available right now; wait for the next readiness event.
    WouldBlock,
    /// The transport failed; it can no longer be trusted.
    Failed,
}

/// What one non-blocking write attempt concluded.
pub enum WriteOutcome {
    /// This many bytes of the given slice were sent.
    Wrote(usize),
    /// The peer is gone: a write moved no bytes.
    Closed,
    /// The stream cannot take more right now; wait for the next event.
    WouldBlock,
    /// The transport failed; it can no longer be trusted.
    Failed,
}

/// A non-blocking byte stream under edge-triggered readiness: every attempt
/// returns at once with data, would-block, end of stream, or an error.
///
/// `pending` bounds how many times in a row the stream can hand data over
/// before reporting would-block; it is what makes a drain loop finite.
pub trait Stream: Sized {
    /// Upper bound on the number of data-bearing reads still available before
    /// the stream reports would-block, closed or an error.  The default of
    /// zero suits a stream that verified code never reads; a stream it reads
    /// says how its own state bounds the drain.
    open spec fn pending(&self) -> nat {
        0
    }

    /// Attempt one read into `buf` at offset `from`, without blocking.
    fn read_into(&mut self, buf: &mut Vec<u8>, from: usize) -> (r: ReadOutcome)
        requires
            from <= old(buf)@.len(),
        ensures
            final(buf)@.len() == old(buf)@.len(),
            final(buf)@.subrange(0, from as int) == old(buf)@.subrange(0, from as int),
            match r {
                ReadOutcome::Data(n) => 1 <= n && from + n <= final(buf)@.len()
                    && final(self).pending() < old(self).pending(),
                _ => final(buf)@ == old(buf)@,
            },
    ;

    /// Attempt to write a prefix of `buf`, without blocking.
    fn write_from(&mut self, buf: &[u8]) -> (r: WriteOutcome)
        ensures
            r matches WriteOutcome::Wrote(n) ==> 1 <= n <= buf@.len(),
    ;
}

/// The application-level request handler: turns one fully parsed request into
/// the response to send.  Supplied by the caller of the server; it must not
/// block.
pub trait Handler: Sized {
    /// Produce the response for one request.
    fn handle(&mut self, request: HttpRequest) -> HttpResponse;
}

/// The two lifecycle phases of a connection, each owning the buffer for a
/// different purpose.
#[derive(Copy, Clone, Debug, PartialEq, Eq, Structural)]
pub enum ConnectionMode {
    Reading,
    Writing,
}

/// One managed connection: the shared read/write buffer, the cursor (bytes
/// received in Reading mode, bytes sent in Writing mode), the mode, and the
/// stream itself.
pub struct Connection<S> {
    pub buffer: Vec<u8>,
    pub buffer_idx: usize,
    pub mode: ConnectionMode,
    pub stream: S,
}

impl<S> Connection<S> {
    /// The cursor never passes the end of the buffer.
    pub open spec fn wf(&self) -> bool {
        self.buffer_idx <= self.buffer@.len()
    }

    /// The bytes received so far, in Reading mode.
    pub open spec fn received(&self) -> Seq<u8> {
        self.buffer@.subrange(0, self.buffer_idx as int)
    }
}

/// The wire bytes of the fixed response to a request that can never parse:
/// a bare 400 with an empty body.
pub open spec fn bad_request_bytes() -> Seq<u8> {
    vstd::utf8::encode_utf8("HTTP/1.1"@) + seq![32u8] + crate::bytes::dec_bytes(400) + seq![32u8]
        + vstd::utf8::encode_utf8("Bad Request"@) + crate::http::crlf()
        + crate::http::content_length_line(0) + crate::http::close_line() + crate::http::crlf()
}

/// Every connection other than `token` is exactly as it was: present in the
/// new registry state exactly when it was present, and unchanged.
pub open spec fn untouched_except<S>(
    pre: Map<usize, Connection<S>>,
    post: Map<usize, Connection<S>>,
    token: usize,
) -> bool {
    &&& forall|t: usize| t != token ==> #[trigger] post.contains_key(t) == pre.contains_key(t)
    &&& forall|t: usize| t != token && pre.contains_key(t) ==> #[trigger] post[t] == pre[t]
}

/// The connection registry: drives buffered reads, parsing, handling and
/// buffered writes for one connection identifier at a time.  Every connection
/// is closed after exactly one response has been written.
pub struct HttpServer<S, H> {
    pub connections: HashMap<usize, Connection<S>>,
    pub handler: H,
}

impl<S: Stream, H: Handler> HttpServer<S, H> {
    /// Every managed connection is well formed.
    pub open spec fn wf(&self) -> bool {
        forall|t: usize| #[trigger]
            self.connections@.contains_key(t) ==> self.connections@[t].wf()
    }

    /// One response per connection: a connection kept in Writing mode still
    /// has bytes left to send; one that flushed fully has been removed.
    pub open spec fn writing_unflushed(&self) -> bool {
        forall|t: usize| #[trigger]
            self.connections@.contains_key(t) && self.connections@[t].mode is Writing
                ==> self.connections@[t].buffer_idx < self.connections@[t].buffer@.len()
    }

    /// A fresh registry around the supplied handler: no connections yet.
    pub fn new(handler: H) -> (r: Self)
        ensures
            r.connections@ == Map::<usize, Connection<S>>::empty(),
            r.handler == handler,
            r.wf(),
            r.writing_unflushed(),
    {
        Self { connections: HashMap::new(), handler }
    }

    /// A newly accepted connection is managed from now on, starting in
    /// Reading mode with an empty buffer.
    pub fn connection_accepted(&mut self, token: usize, stream: S)
        requires
            old(self).wf(),
            old(self).writing_unflushed(),
        ensures
            final(self).wf(),
            final(self).writing_unflushed(),
            final(self).handler == old(self).handler,
            final(self).connections@.contains_key(token),
            final(self).connections@[token].buffer@ == Seq::<u8>::empty(),
            final(self).connections@[token].buffer_idx == 0,
            final(self).connections@[token].mode is Reading,
            final(self).connections@[token].stream == stream,
            final(self).connections@.dom() == old(self).connections@.dom().insert(token),
            untouched_except(old(self).connections@, final(self).connections@, token),
    {
        let cx = Connection {
            buffer: Vec::new(),
            buffer_idx: 0,
            mode: ConnectionMode::Reading,
            stream,
        };
        self.connections.insert(token, cx);
    }

    /// Whether the identifier still names a managed connection.
    pub fn is_connection_active(&self, token: usize) -> (r: bool)
        ensures
            r == self.connections@.contains_key(token),
    {
        self.connections.contains_key(&token)
    }

    /// Drain the stream: repeatedly fill unused buffer capacity, growing the
    /// buffer by a chunk whenever it is full, until the stream reports
    /// would-block (`Ok(false)`), end of stream (`Ok(true)`), or an error
    /// (`Err`).  A buffer that can no longer grow is reported as an error.
    fn perform_reads(cx: &mut Connection<S>) -> (r: Result<bool, ()>)
        requires
            old(cx).wf(),
        ensures
            final(cx).wf(),
            final(cx).mode == old(cx).mode,
            final(cx).buffer_idx >= old(cx).buffer_idx,
            final(cx).buffer@.subrange(0, old(cx).buffer_idx as int) == old(cx).received(),
    {
        loop
            invariant
                cx.wf(),
                cx.mode == old(cx).mode,
                cx.buffer_idx >= old(cx).buffer_idx,
                cx.buffer@.subrange(0, old(cx).buffer_idx as int) == old(cx).received(),
            decreases cx.stream.pending(),
        {
            if cx.buffer.len() - cx.buffer_idx == 0 {
                if cx.buffer.len() > usize::MAX - CHUNK_SIZE {
                    return Err(());
                }
                let ghost before = cx.buffer@;
                let new_len = cx.buffer.len() + CHUNK_SIZE;
                cx.buffer.resize(new_len, 0);
                assert(cx.buffer@.subrange(0, old(cx).buffer_idx as int) =~= before.subrange(
                    0,
                    old(cx).buffer_idx as int,
                ));
            }
            let ghost before = cx.buffer@;
            let outcome = cx.stream.read_into(&mut cx.buffer, cx.buffer_idx);
            assert(cx.buffer@.subrange(0, old(cx).buffer_idx as int) =~= before.subrange(
                0,
                old(cx).buffer_idx as int,
            ));
            match outcome {
                ReadOutcome::Data(n) => {
                    cx.buffer_idx = cx.buffer_idx + n;
                },
                ReadOutcome::Closed => {
                    return Ok(true);
                },
                ReadOutcome::WouldBlock => {
                    return Ok(false);
                },
                ReadOutcome::Failed => {
                    return Err(());
                },
            }
        }
    }

    /// Send from the cursor towards the end of the buffer until everything is
    /// out, the stream reports would-block, the peer is gone, or an error
    /// occurs.  Returns whether the connection is finished with (fully sent,
    /// peer gone, or failed); `false` means more writable events are awaited.
    fn perform_writes(cx: &mut Connection<S>) -> (r: bool)
        requires
            old(cx).wf(),
        ensures
            final(cx).wf(),
            final(cx).mode == old(cx).mode,
            final(cx).buffer == old(cx).buffer,
            final(cx).buffer_idx >= old(cx).buffer_idx,
            !r ==> final(cx).buffer_idx < final(cx).buffer@.len(),
    {
        while cx.buffer_idx < cx.buffer.len()
            invariant
                cx.wf(),
                cx.mode == old(cx).mode,
                cx.buffer == old(cx).buffer,
                cx.buffer_idx >= old(cx).buffer_idx,
            ensures
                cx.wf(),
                cx.mode == old(cx).mode,
                cx.buffer == old(cx).buffer,
                cx.buffer_idx >= old(cx).buffer_idx,
                cx.buffer_idx >= cx.buffer@.len(),
            decreases cx.buffer@.len() - cx.buffer_idx,
        {
            let tail = slice_subrange(cx.buffer.as_slice(), cx.buffer_idx, cx.buffer.len());
            match cx.stream.write_from(tail) {
                WriteOutcome::Wrote(n) => {
                    cx.buffer_idx = cx.buffer_idx + n;
                },
                WriteOutcome::Closed => {
                    return true;
                },
                WriteOutcome::WouldBlock => {
                    return false;
                },
                WriteOutcome::Failed => {
                    return true;
                },
            }
        }
        true
    }

    /// Parse the bytes received so far; the input counts as closed when the
    /// connection has already been switched to Writing by an end of stream.
    /// On a complete request, invoke the handler and repurpose the buffer for
    /// the serialized response; on a malformed one, for the fixed 400
    /// response; otherwise leave the connection as it is.
    fn try_parse_request(handler: &mut H, cx: &mut Connection<S>)
        requires
            old(cx).wf(),
        ensures
            final(cx).wf(),
            match parse_spec(old(cx).received(), old(cx).mode is Writing) {
                ParseResult::Incomplete => *final(cx) == *old(cx),
                ParseResult::Complete(_) => final(cx).mode is Writing && final(cx).buffer_idx == 0
                    && (exists|resp: HttpResponse| final(cx).buffer@ == serialize_spec(&resp)),
                ParseResult::Malformed => final(cx).mode is Writing && final(cx).buffer_idx == 0
                    && final(cx).buffer@ == bad_request_bytes(),
            },
    {
        let received = slice_subrange(cx.buffer.as_slice(), 0, cx.buffer_idx);
        let done = cx.mode == ConnectionMode::Writing;
        match parse(received, done) {
            ParseOutcome::Complete(request) => {
                let response = handler.handle(request);
                let out = response.unparse();
                cx.buffer = out;
                cx.buffer_idx = 0;
                cx.mode = ConnectionMode::Writing;
                assert(exists|resp: HttpResponse| cx.buffer@ == serialize_spec(&resp)) by {
                    assert(cx.buffer@ == serialize_spec(&response));
                }
            },
            ParseOutcome::Incomplete => {
            },
            ParseOutcome::Malformed => {
                let vb = str_bytes("HTTP/1.1");
                let version = crate::bytes::copy_range(vb, 0, vb.len());
                assert(version@ =~= vstd::utf8::encode_utf8("HTTP/1.1"@));
                let response = HttpResponse::new(version, 400, &[], BodyContent::Str(""));
                let out = response.unparse();
                cx.buffer = out;
                cx.buffer_idx = 0;
                cx.mode = ConnectionMode::Writing;
                proof {
                    reveal_strlit("");
                    assert(crate::http::header_block(Seq::<(&str, &str)>::empty())
                        =~= Seq::<u8>::empty());
                    assert(cx.buffer@ =~= bad_request_bytes());
                }
            },
        }
    }

    /// Data can now be read from the connection.  Acts only in Reading mode:
    /// drains the stream, parses, and on a resolved request switches to
    /// Writing and flushes what it can at once, releasing the connection when
    /// the response went out fully, the peer is gone, or the transport
    /// failed.
    pub fn connection_readable(&mut self, token: usize)
        requires
            old(self).wf(),
            old(self).writing_unflushed(),
        ensures
            final(self).wf(),
            final(self).writing_unflushed(),
            // a signal for an unknown identifier is a no-op
            !old(self).connections@.contains_key(token) ==> final(self).connections@ == old(self).connections@ && final(self).handler == old(self).handler,
            // no other connection is touched, and none appears
            untouched_except(old(self).connections@, final(self).connections@, token),
            final(self).connections@.contains_key(token) ==> old(self).connections@.contains_key(token),
            // a readable signal for a connection already in Writing mode is a no-op
            old(self).connections@.contains_key(token) && old(self).connections@[token].mode is Writing ==> final(self).connections@ == old(self).connections@ && final(self).handler == old(self).handler,
            // a connection kept in Reading mode has no resolved request yet
            (old(self).connections@.contains_key(token) && final(self).connections@.contains_key(token) && final(self).connections@[token].mode is Reading) ==> parse_spec(final(self).connections@[token].received(), false) is Incomplete,
            // one switched to Writing carries a serialized response: the
            // handler's for a parsed request, or the fixed 400
            (old(self).connections@.contains_key(token) && old(self).connections@[token].mode is Reading && final(self).connections@.contains_key(token) && final(self).connections@[token].mode is Writing) ==> ((exists|resp: HttpResponse| final(self).connections@[token].buffer@ == serialize_spec(&resp)) || final(self).connections@[token].buffer@ == bad_request_bytes()),
    {
        let cx = match self.connections.remove(&token) {
            None => {
                proof {
                    assert(self.connections@ =~= old(self).connections@);
                }
                return ;
            },
            Some(c) => c,
        };
        if !(cx.mode == ConnectionMode::Reading) {
            self.connections.insert(token, cx);
            proof {
                assert(self.connections@ =~= old(self).connections@);
            }
            return ;
        }
        let mut cx = cx;
        match Self::perform_reads(&mut cx) {
            Err(()) => {
                // I/O failure: the transport is no longer trustworthy; the
                // connection is dropped with no response attempted.
            },
            Ok(done) => {
                if done {
                    cx.mode = ConnectionMode::Writing;
                }
                Self::try_parse_request(&mut self.handler, &mut cx);
                if cx.mode == ConnectionMode::Writing {
                    if Self::perform_writes(&mut cx) {
                        // released: response fully written, peer gone, or error
                    } else {
                        self.connections.insert(token, cx);
                    }
                } else {
                    self.connections.insert(token, cx);
                }
            },
        }
    }

    /// Data can now be written to the connection.  Acts only in Writing mode:
    /// flushes from the cursor onwards and releases the connection once the
    /// response went out fully, the peer is gone, or the transport failed.
    pub fn connection_writable(&mut self, token: usize)
        requires
            old(self).wf(),
            old(self).writing_unflushed(),
        ensures
            final(self).wf(),
            final(self).writing_unflushed(),
            final(self).handler == old(self).handler,
            // a signal for an unknown identifier is a no-op
            !old(self).connections@.contains_key(token) ==> final(self).connections@ == old(self).connections@,
            // no other connection is touched, and none appears
            untouched_except(old(self).connections@, final(self).connections@, token),
            final(self).connections@.contains_key(token) ==> old(self).connections@.contains_key(token),
            // a writable signal for a connection still in Reading mode is a no-op
            old(self).connections@.contains_key(token) && old(self).connections@[token].mode is Reading ==> final(self).connections@ == old(self).connections@,
            // flushing only advances the cursor; the response bytes stand
            (old(self).connections@.contains_key(token) && final(self).connections@.contains_key(token)) ==> final(self).connections@[token].buffer == old(self).connections@[token].buffer && final(self).connections@[token].mode == old(self).connections@[token].mode && final(self).connections@[token].buffer_idx >= old(self).connections@[token].buffer_idx,
    {
        let cx = match self.connections.remove(&token) {
            None => {
                proof {
                    assert(self.connections@ =~= old(self).connections@);
                }
                return ;
            },
            Some(c) => c,
        };
        if cx.mode == ConnectionMode::Writing {
            let mut cx = cx;
            if Self::perform_writes(&mut cx) {
                // released: response fully written, peer gone, or error
            } else {
                self.connections.insert(token, cx);
            }
        } else {
            self.connections.insert(token, cx);
            proof {
                assert(self.connections@ =~= old(self).connections@);
            }
        }
    }
}

} // verus!
