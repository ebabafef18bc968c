use vstd::prelude::*;
use crate::server::{ReadOutcome, Stream, WriteOutcome};

verus! {

/// One scripted answer to a read attempt.
pub enum ScriptRead {
    /// Hand over these bytes (as many as fit).
    Chunk(Vec<u8>),
    /// Report end of stream.
    Closed,
    /// Report that nothing is available right now.
    WouldBlock,
    /// Report a transport failure.
    Failed,
}

/// One scripted answer to a write attempt.
pub enum ScriptWrite {
    /// Take up to this many bytes.
    Accept(usize),
    /// Report that the peer is gone.
    Closed,
    /// Report that nothing can be taken right now.
    WouldBlock,
    /// Report a transport failure.
    Failed,
}

/// A stream driven by a fixed script: each read or write attempt consumes the
/// next scripted answer, and an exhausted script answers would-block.  It
/// stands in for a socket so that each component can be driven with a
/// constructed state in isolation; everything written to it is kept.
pub struct ScriptedStream {
    pub reads: Vec<ScriptRead>,
    pub read_pos: usize,
    pub writes: Vec<ScriptWrite>,
    pub write_pos: usize,
    pub written: Vec<u8>,
}

impl ScriptedStream {
    /// A stream that will answer read and write attempts from the given
    /// scripts.
    pub fn new(reads: Vec<ScriptRead>, writes: Vec<ScriptWrite>) -> (r: Self)
        ensures
            r.reads == reads,
            r.read_pos == 0,
            r.writes == writes,
            r.write_pos == 0,
            r.written@ == Seq::<u8>::empty(),
    {
        Self { reads, read_pos: 0, writes, write_pos: 0, written: Vec::new() }
    }
}

impl Stream for ScriptedStream {
    /// Reads still scripted; each attempt consumes one script entry.
    open spec fn pending(&self) -> nat {
        if self.read_pos <= self.reads@.len() {
            (self.reads@.len() - self.read_pos) as nat
        } else {
            0
        }
    }

    fn read_into(&mut self, buf: &mut Vec<u8>, from: usize) -> (r: ReadOutcome) {
        if self.read_pos >= self.reads.len() {
            return ReadOutcome::WouldBlock;
        }
        let idx = self.read_pos;
        self.read_pos = idx + 1;
        match &self.reads[idx] {
            ScriptRead::Chunk(c) => {
                let space = buf.len() - from;
                let n = if c.len() < space {
                    c.len()
                } else {
                    space
                };
                if n == 0 {
                    return ReadOutcome::WouldBlock;
                }
                let ghost before = buf@;
                let buf_len = buf.len();
                let mut j: usize = 0;
                while j < n
                    invariant
                        j <= n,
                        n <= c@.len(),
                        from + n <= buf_len,
                        buf_len == buf@.len(),
                        buf@.len() == before.len(),
                        forall|k: int| 0 <= k < buf@.len() && !(from <= k < from + j)
                            ==> buf@[k] == before[k],
                    decreases n - j,
                {
                    let b = c[j];
                    buf[from + j] = b;
                    j = j + 1;
                }
                assert(buf@.subrange(0, from as int) =~= before.subrange(0, from as int));
                ReadOutcome::Data(n)
            },
            ScriptRead::Closed => ReadOutcome::Closed,
            ScriptRead::WouldBlock => ReadOutcome::WouldBlock,
            ScriptRead::Failed => ReadOutcome::Failed,
        }
    }

    fn write_from(&mut self, buf: &[u8]) -> (r: WriteOutcome) {
        if self.write_pos >= self.writes.len() {
            return WriteOutcome::WouldBlock;
        }
        let idx = self.write_pos;
        self.write_pos = idx + 1;
        let take: usize = match &self.writes[idx] {
            ScriptWrite::Accept(k) => {
                if *k < buf.len() {
                    *k
                } else {
                    buf.len()
                }
            },
            ScriptWrite::Closed => {
                return WriteOutcome::Closed;
            },
            ScriptWrite::WouldBlock => {
                return WriteOutcome::WouldBlock;
            },
            ScriptWrite::Failed => {
                return WriteOutcome::Failed;
            },
        };
        if take == 0 {
            return WriteOutcome::WouldBlock;
        }
        let mut j: usize = 0;
        while j < take
            invariant
                j <= take,
                take <= buf@.len(),
            decreases take - j,
        {
            self.written.push(buf[j]);
            j = j + 1;
        }
        WriteOutcome::Wrote(take)
    }
}

} // verus!
