use vstd::prelude::*;
use crate::request::RequestData;
use crate::response::{need_close_by_request, spec_need_close};

verus! {

/// One queued block of outbound bytes, with a cursor over what has already
/// been written to the socket.
struct WriteBlock {
    data: Vec<u8>,
    written: usize,
}

/// What is left of a block.
spec fn block_rest(b: WriteBlock) -> Seq<u8> {
    b.data@.skip(b.written as int)
}

/// The pending bytes of a run of blocks, in order.
spec fn blocks_bytes(bs: Seq<WriteBlock>) -> Seq<u8>
    decreases bs.len(),
{
    if bs.len() == 0 {
        Seq::empty()
    } else {
        block_rest(bs[0]) + blocks_bytes(bs.drop_first())
    }
}

proof fn lemma_blocks_bytes_push(bs: Seq<WriteBlock>, b: WriteBlock)
    ensures
        blocks_bytes(bs.push(b)) == blocks_bytes(bs) + block_rest(b),
    decreases bs.len(),
{
    if bs.len() == 0 {
        assert(bs.push(b).drop_first() =~= Seq::<WriteBlock>::empty());
        assert(bs.push(b)[0] == b);
        assert(blocks_bytes(Seq::<WriteBlock>::empty()) =~= Seq::<u8>::empty());
        assert(blocks_bytes(bs) =~= Seq::<u8>::empty());
        assert(blocks_bytes(bs.push(b)) =~= blocks_bytes(bs) + block_rest(b));
    } else {
        assert(bs.push(b).drop_first() =~= bs.drop_first().push(b));
        lemma_blocks_bytes_push(bs.drop_first(), b);
        assert(bs.push(b)[0] == bs[0]);
        assert(blocks_bytes(bs.push(b)) =~= blocks_bytes(bs) + block_rest(b));
    }
}

/// The ordered FIFO of outbound byte blocks of one session. Every byte
/// submitted is accounted for exactly once: `sent` holds what has been
/// handed to the socket, `pending` what still waits, and their
/// concatenation is always `submitted`, the blocks in submission order —
/// this is the ordering that HTTP pipelining needs, and it survives
/// partial writes.
pub struct WriteQueue {
    blocks: Vec<WriteBlock>,
    /// Bytes already handed to the socket, in order.
    sent: Ghost<Seq<u8>>,
    /// Bytes ever submitted, in submission order.
    submitted: Ghost<Seq<u8>>,
}

impl WriteQueue {
    /// Bytes already handed to the socket, in order.
    pub closed spec fn sent(self) -> Seq<u8> {
        self.sent@
    }

    /// Bytes ever submitted, in submission order.
    pub closed spec fn submitted(self) -> Seq<u8> {
        self.submitted@
    }

    /// Bytes submitted and not yet handed to the socket, in order.
    pub closed spec fn pending(self) -> Seq<u8> {
        blocks_bytes(self.blocks@)
    }

    /// What is left of the block at the front of the queue.
    pub closed spec fn front_len(self) -> int {
        if self.blocks@.len() == 0 {
            0
        } else {
            block_rest(self.blocks@[0]).len() as int
        }
    }

    /// The accounting invariant: every block's cursor is inside its data,
    /// no drained block lingers, and the submitted bytes are exactly the
    /// sent bytes followed by the pending bytes.
    pub closed spec fn wf(self) -> bool {
        &&& forall|i: int|
            0 <= i < self.blocks@.len() ==> (#[trigger] self.blocks@[i]).written < self.blocks@[i].data@.len()
        &&& self.submitted@ == self.sent@ + blocks_bytes(self.blocks@)
    }

    /// An empty queue.
    pub fn new() -> (r: WriteQueue)
        ensures
            r.wf(),
            r.sent() == Seq::<u8>::empty(),
            r.submitted() == Seq::<u8>::empty(),
            r.pending() == Seq::<u8>::empty(),
    {
        let q = WriteQueue {
            blocks: Vec::new(),
            sent: Ghost(Seq::empty()),
            submitted: Ghost(Seq::empty()),
        };
        proof {
            assert(blocks_bytes(q.blocks@) =~= Seq::<u8>::empty());
            assert(q.submitted@ =~= q.sent@ + blocks_bytes(q.blocks@));
        }
        q
    }

    /// True when nothing is pending.
    pub fn is_empty(&self) -> (r: bool)
        requires
            self.wf(),
        ensures
            r == (self.pending().len() == 0),
    {
        let r = self.blocks.len() == 0;
        proof {
            if self.blocks@.len() > 0 {
                assert(self.pending() == block_rest(self.blocks@[0]) + blocks_bytes(
                    self.blocks@.drop_first(),
                ));
                assert(block_rest(self.blocks@[0]).len() > 0);
            } else {
                assert(blocks_bytes(self.blocks@) =~= Seq::<u8>::empty());
            }
        }
        r
    }

    /// Appends a block behind everything already waiting, preserving
    /// submission order.
    pub fn submit(&mut self, data: Vec<u8>)
        requires
            old(self).wf(),
        ensures
            final(self).wf(),
            final(self).pending() == old(self).pending() + data@,
            final(self).sent() == old(self).sent(),
            final(self).submitted() == old(self).submitted() + data@,
    {
        proof {
            self.submitted@ = self.submitted@ + data@;
        }
        if data.len() == 0 {
            proof {
                assert(self.pending() + data@ =~= self.pending());
                assert(self.submitted@ =~= self.sent@ + blocks_bytes(self.blocks@));
            }
            return;
        }
        let block = WriteBlock { data, written: 0 };
        proof {
            lemma_blocks_bytes_push(self.blocks@, block);
            assert(block_rest(block) =~= block.data@);
        }
        self.blocks.push(block);
        proof {
            assert(self.submitted@ =~= self.sent@ + blocks_bytes(self.blocks@));
        }
    }

    /// The bytes to write next: the remainder of the front block.
    pub fn next_chunk(&self) -> (r: &[u8])
        requires
            self.wf(),
            self.pending().len() > 0,
        ensures
            r@.len() == self.front_len(),
            r@ == self.pending().take(r@.len() as int),
            r@.len() > 0,
    {
        proof {
            if self.blocks@.len() == 0 {
                assert(blocks_bytes(self.blocks@) =~= Seq::<u8>::empty());
            }
        }
        let b = &self.blocks[0];
        let len = b.data.len();
        let r = vstd::slice::slice_subrange(b.data.as_slice(), b.written, len);
        proof {
            assert(r@ =~= block_rest(self.blocks@[0]));
            assert(self.pending() == block_rest(self.blocks@[0]) + blocks_bytes(
                self.blocks@.drop_first(),
            ));
            assert(r@ =~= self.pending().take(r@.len() as int));
        }
        r
    }

    /// Records that the socket took `n` bytes of the front block; a
    /// partial write leaves the rest at the front, so no byte is skipped
    /// or reordered.
    pub fn advance(&mut self, n: usize)
        requires
            old(self).wf(),
            n <= old(self).front_len(),
        ensures
            final(self).wf(),
            final(self).pending() == old(self).pending().skip(n as int),
            final(self).sent() == old(self).sent() + old(self).pending().take(n as int),
            final(self).submitted() == old(self).submitted(),
    {
        proof {
            if self.blocks@.len() == 0 {
                assert(blocks_bytes(self.blocks@) =~= Seq::<u8>::empty());
            }
        }
        if self.blocks.len() == 0 || n == 0 {
            proof {
                self.sent@ = self.sent@ + self.pending().take(n as int);
                assert(self.pending().take(0) =~= Seq::<u8>::empty());
                assert(self.pending().skip(0) =~= self.pending());
                assert(self.sent@ =~= old(self).sent());
                assert(self.submitted@ =~= self.sent@ + blocks_bytes(self.blocks@));
            }
            return;
        }
        let ghost old_blocks = self.blocks@;
        let ghost old_rest = block_rest(old_blocks[0]);
        let written = self.blocks[0].written;
        let data_len = self.blocks[0].data.len();
        self.blocks[0].written = written + n;
        proof {
            self.sent@ = self.sent@ + old(self).pending().take(n as int);
            assert(self.blocks@[0].data@ == old_blocks[0].data@);
            assert(block_rest(self.blocks@[0]) =~= old_rest.skip(n as int));
            assert(self.blocks@.drop_first() =~= old_blocks.drop_first());
            assert(blocks_bytes(old_blocks) == old_rest + blocks_bytes(old_blocks.drop_first()));
            assert(old(self).pending().take(n as int) =~= old_rest.take(n as int));
            assert(blocks_bytes(self.blocks@) == block_rest(self.blocks@[0]) + blocks_bytes(
                self.blocks@.drop_first(),
            ));
            assert(blocks_bytes(self.blocks@) =~= old(self).pending().skip(n as int));
        }
        if written + n >= data_len {
            let ghost before_remove = self.blocks@;
            self.blocks.remove(0);
            proof {
                assert(block_rest(before_remove[0]).len() == 0);
                assert(block_rest(before_remove[0]) =~= Seq::<u8>::empty());
                assert(self.blocks@ =~= before_remove.drop_first());
                assert(blocks_bytes(before_remove) =~= blocks_bytes(self.blocks@));
            }
        }
        proof {
            assert(self.submitted@ =~= self.sent@ + blocks_bytes(self.blocks@));
        }
    }
}

/// What one non-blocking socket write attempt came to.
pub enum SocketWrite {
    /// The socket took this many bytes.
    Wrote(usize),
    /// The socket took nothing for now.
    WouldBlock,
    /// The peer reset the connection.
    Reset,
}

/// The writing side and close policy of one connection: the write queue
/// and the two close flags. The socket itself lives outside; its owner
/// reports every write attempt's outcome here and asks this state what to
/// do next.
pub struct Session {
    queue: WriteQueue,
    close_requested: bool,
    close_after_drain: bool,
}

impl Session {
    /// The queue invariant.
    pub closed spec fn wf(self) -> bool {
        self.queue.wf()
    }

    /// Bytes already handed to the socket, in order.
    pub closed spec fn sent(self) -> Seq<u8> {
        self.queue.sent()
    }

    /// Bytes submitted and not yet handed to the socket.
    pub closed spec fn pending(self) -> Seq<u8> {
        self.queue.pending()
    }

    /// Bytes ever submitted, in submission order.
    pub closed spec fn submitted(self) -> Seq<u8> {
        self.queue.submitted()
    }

    /// What is left of the block at the front of the queue.
    pub closed spec fn front_len(self) -> int {
        self.queue.front_len()
    }

    /// The close-requested flag.
    pub closed spec fn spec_close_requested(self) -> bool {
        self.close_requested
    }

    /// The close-after-drain flag.
    pub closed spec fn spec_close_after_drain(self) -> bool {
        self.close_after_drain
    }

    /// A fresh session with nothing queued and no close pending.
    pub fn new() -> (r: Session)
        ensures
            r.wf(),
            r.sent() == Seq::<u8>::empty(),
            r.submitted() == Seq::<u8>::empty(),
            !r.spec_close_requested(),
            !r.spec_close_after_drain(),
    {
        Session { queue: WriteQueue::new(), close_requested: false, close_after_drain: false }
    }

    /// Queues bytes for the client. Blocks go out strictly in submission
    /// order.
    pub fn send(&mut self, data: Vec<u8>)
        requires
            old(self).wf(),
        ensures
            final(self).wf(),
            final(self).pending() == old(self).pending() + data@,
            final(self).sent() == old(self).sent(),
            final(self).submitted() == old(self).submitted() + data@,
            final(self).spec_close_requested() == old(self).spec_close_requested(),
            final(self).spec_close_after_drain() == old(self).spec_close_after_drain(),
    {
        self.queue.submit(data);
    }

    /// True when there are bytes waiting for the socket.
    pub fn wants_write(&self) -> (r: bool)
        requires
            self.wf(),
        ensures
            r == (self.pending().len() > 0),
    {
        !self.queue.is_empty()
    }

    /// The bytes to hand to the socket next.
    pub fn next_chunk(&self) -> (r: &[u8])
        requires
            self.wf(),
            self.pending().len() > 0,
        ensures
            r@ == self.pending().take(r@.len() as int),
            0 < r@.len() <= self.pending().len(),
    {
        self.queue.next_chunk()
    }

    /// Records the outcome of one socket write attempt on the next chunk.
    /// A partial write keeps the remainder at the front of the queue; a
    /// reset asks for the session to be closed; draining the queue honors
    /// a pending close-after-drain.
    pub fn on_write_result(&mut self, outcome: SocketWrite)
        requires
            old(self).wf(),
            outcome matches SocketWrite::Wrote(n) ==> n <= old(self).front_len(),
        ensures
            final(self).wf(),
            final(self).submitted() == old(self).submitted(),
            final(self).spec_close_after_drain() == old(self).spec_close_after_drain(),
            match outcome {
                SocketWrite::Wrote(n) => {
                    &&& final(self).pending() == old(self).pending().skip(n as int)
                    &&& final(self).sent() == old(self).sent() + old(self).pending().take(n as int)
                    &&& final(self).spec_close_requested() == (old(self).spec_close_requested() || (
                    final(self).pending().len() == 0 && old(self).spec_close_after_drain()))
                }
                SocketWrite::WouldBlock => *final(self) == *old(self),
                SocketWrite::Reset => {
                    &&& final(self).pending() == old(self).pending()
                    &&& final(self).sent() == old(self).sent()
                    &&& final(self).spec_close_requested()
                }
            },
    {
        match outcome {
            SocketWrite::Wrote(n) => {
                self.queue.advance(n);
                if self.queue.is_empty() && self.close_after_drain {
                    self.close_requested = true;
                }
            }
            SocketWrite::WouldBlock => {}
            SocketWrite::Reset => {
                self.close_requested = true;
            }
        }
    }

    /// Asks for the session to be closed once all buffered writes have
    /// drained.
    pub fn close_after_send(&mut self)
        requires
            old(self).wf(),
        ensures
            final(self).wf(),
            final(self).spec_close_after_drain(),
            final(self).spec_close_requested() == old(self).spec_close_requested(),
            final(self).pending() == old(self).pending(),
            final(self).sent() == old(self).sent(),
            final(self).submitted() == old(self).submitted(),
    {
        self.close_after_drain = true;
    }

    /// Asks for the session to be closed at the next poll round.
    pub fn close(&mut self)
        requires
            old(self).wf(),
        ensures
            final(self).wf(),
            final(self).spec_close_requested(),
            final(self).spec_close_after_drain() == old(self).spec_close_after_drain(),
            final(self).pending() == old(self).pending(),
            final(self).sent() == old(self).sent(),
            final(self).submitted() == old(self).submitted(),
    {
        self.close_requested = true;
    }

    /// True when the session should be torn down.
    pub fn need_close(&self) -> (r: bool)
        ensures
            r == self.spec_close_requested(),
    {
        self.close_requested
    }

    /// Applies the keep-alive policy after a response: `Connection: close`
    /// closes after drain, `Connection: keep-alive` keeps the connection,
    /// and without a `Connection` header HTTP/1.0 closes while HTTP/1.1
    /// stays open.
    pub fn after_response(&mut self, request: &RequestData)
        requires
            old(self).wf(),
        ensures
            final(self).wf(),
            final(self).spec_close_after_drain() == (old(self).spec_close_after_drain()
                || spec_need_close(*request)),
            final(self).spec_close_requested() == old(self).spec_close_requested(),
            final(self).pending() == old(self).pending(),
            final(self).sent() == old(self).sent(),
            final(self).submitted() == old(self).submitted(),
    {
        if need_close_by_request(request) {
            self.close_after_drain = true;
        }
    }
}

/// Delivers the body of one request to the application in order: each
/// incoming chunk is cut at the declared content length, the cut-off
/// surplus belongs to the next pipelined request, and the terminal call
/// comes exactly when the delivered bytes total the declared length.
pub struct BodyReader {
    content_len: usize,
    already_read: usize,
    /// The bytes handed to the application so far, in order.
    delivered: Ghost<Seq<u8>>,
}

impl BodyReader {
    /// The declared content length.
    pub closed spec fn spec_content_len(self) -> int {
        self.content_len as int
    }

    /// The bytes handed to the application so far, in order; their total
    /// length never passes the declared content length.
    pub closed spec fn delivered(self) -> Seq<u8> {
        self.delivered@
    }

    /// The accounting invariant: what was delivered is counted exactly
    /// and stays within the declared length.
    pub closed spec fn wf(self) -> bool {
        &&& self.already_read <= self.content_len
        &&& self.delivered@.len() == self.already_read
    }

    /// A reader for a body of the declared length.
    pub fn new(content_len: usize) -> (r: BodyReader)
        ensures
            r.wf(),
            r.spec_content_len() == content_len,
            r.delivered() == Seq::<u8>::empty(),
    {
        BodyReader { content_len, already_read: 0, delivered: Ghost(Seq::empty()) }
    }

    /// Feeds one chunk read from the socket. Returns the body bytes to
    /// hand to the application, the surplus past the declared length, and
    /// whether the body is now complete; for a zero-length body the first
    /// call completes at once with empty bytes.
    pub fn feed(&mut self, data: &[u8]) -> (r: (Vec<u8>, Vec<u8>, bool))
        requires
            old(self).wf(),
        ensures
            final(self).wf(),
            final(self).spec_content_len() == old(self).spec_content_len(),
            ({
                let mid = if data@.len() <= old(self).spec_content_len() - old(
                    self,
                ).delivered().len() {
                    data@.len() as int
                } else {
                    old(self).spec_content_len() - old(self).delivered().len()
                };
                &&& r.0@ == data@.take(mid)
                &&& r.1@ == data@.skip(mid)
                &&& final(self).delivered() == old(self).delivered() + data@.take(mid)
                &&& r.2 == (final(self).delivered().len() == final(self).spec_content_len())
            }),
    {
        let remaining = self.content_len - self.already_read;
        let mid = if data.len() < remaining {
            data.len()
        } else {
            remaining
        };
        let chunk = vstd::slice::slice_to_vec(vstd::slice::slice_subrange(data, 0, mid));
        let data_len = data.len();
        let surplus = vstd::slice::slice_to_vec(vstd::slice::slice_subrange(data, mid, data_len));
        self.already_read = self.already_read + mid;
        proof {
            self.delivered@ = self.delivered@ + data@.take(mid as int);
            assert(chunk@ =~= data@.take(mid as int));
            assert(surplus@ =~= data@.skip(mid as int));
        }
        let complete = self.already_read >= self.content_len;
        (chunk, surplus, complete)
    }
}

} // verus!
