use vstd::prelude::*;

verus! {

/// Capacity of a pipe in bytes.
pub const PIPE_SIZE: usize = 4096;

/// A bounded byte FIFO; writes into a closed pipe are refused.
pub struct PipeBuffer {
    buffer: [u8; PIPE_SIZE],
    head: usize,
    tail: usize,
    count: usize,
    closed: bool,
}

/// How many bytes of a write of `len` bytes fit after `queued` bytes.
pub open spec fn pipe_accepts(queued: nat, len: nat) -> nat {
    if len <= PIPE_SIZE - queued {
        len
    } else {
        (PIPE_SIZE - queued) as nat
    }
}

/// How many bytes a read into `len` bytes takes out of `queued` bytes.
pub open spec fn pipe_yields(queued: nat, len: nat) -> nat {
    if len <= queued {
        len
    } else {
        queued
    }
}

/// Bytes go out in the order they came in: after writing `d` behind `s`, reading everything
/// that was accepted yields `s` followed by the accepted prefix of `d`.
pub proof fn lemma_pipe_fifo(s: Seq<u8>, d: Seq<u8>, buf_len: nat)
    requires
        s.len() <= PIPE_SIZE,
        buf_len >= s.len() + pipe_accepts(s.len(), d.len()),
    ensures
        ({
            let after_write = s + d.take(pipe_accepts(s.len(), d.len()) as int);
            let n = pipe_yields(after_write.len(), buf_len);
            &&& n == after_write.len()
            &&& after_write.take(n as int) == s + d.take(pipe_accepts(s.len(), d.len()) as int)
            &&& after_write.skip(n as int) == Seq::<u8>::empty()
        }),
{
    let after_write = s + d.take(pipe_accepts(s.len(), d.len()) as int);
    assert(after_write.take(after_write.len() as int) =~= after_write);
    assert(after_write.skip(after_write.len() as int) =~= Seq::<u8>::empty());
}

impl PipeBuffer {
    pub closed spec fn wf(&self) -> bool {
        &&& self.count <= PIPE_SIZE
        &&& self.tail < PIPE_SIZE
        &&& self.head == (self.tail + self.count) % (PIPE_SIZE as int)
    }

    /// The queued bytes, oldest first.
    pub closed spec fn view(&self) -> Seq<u8> {
        Seq::new(self.count as nat, |k: int| self.buffer@[(self.tail + k) % (PIPE_SIZE as int)])
    }

    pub closed spec fn spec_closed(&self) -> bool {
        self.closed
    }

    proof fn lemma_view_len(&self)
        ensures
            self@.len() == self.count,
    {
    }

    /// The ring slot the oldest queued byte is in.
    pub closed spec fn read_pos(&self) -> int {
        self.tail as int
    }

    /// The ring slot the next written byte goes to.
    pub closed spec fn write_pos(&self) -> int {
        self.head as int
    }

    /// What a well-formed buffer keeps: at most `PIPE_SIZE` bytes queued, the read slot in
    /// the ring, and the write slot as many slots after it (around the ring) as are queued.
    pub proof fn lemma_wf(&self)
        requires
            self.wf(),
        ensures
            self@.len() <= PIPE_SIZE,
            0 <= self.read_pos() < PIPE_SIZE,
            0 <= self.write_pos() < PIPE_SIZE,
            self.write_pos() == (self.read_pos() + self@.len()) % (PIPE_SIZE as int),
    {
    }

    /// An empty, open pipe.
    pub fn new() -> (p: PipeBuffer)
        ensures
            p.wf(),
            p@ == Seq::<u8>::empty(),
            !p.spec_closed(),
            p.read_pos() == 0,
            p.write_pos() == 0,
    {
        let p = PipeBuffer { buffer: [0; PIPE_SIZE], head: 0, tail: 0, count: 0, closed: false };
        proof {
            assert(p@ =~= Seq::<u8>::empty());
        }
        p
    }

    /// Appends as much of `data` as fits and returns how many bytes were taken; a closed pipe
    /// takes nothing.
    pub fn write(&mut self, data: &[u8]) -> (written: usize)
        requires
            old(self).wf(),
        ensures
            final(self).wf(),
            final(self).spec_closed() == old(self).spec_closed(),
            final(self).read_pos() == old(self).read_pos(),
            old(self).spec_closed() ==> written == 0 && *final(self) == *old(self),
            !old(self).spec_closed() ==> {
                &&& written == pipe_accepts(old(self)@.len(), data@.len())
                &&& final(self)@ == old(self)@ + data@.take(written as int)
            },
    {
        if self.closed {
            return 0;
        }
        let ghost s = self@;
        let mut written: usize = 0;
        while written < data.len()
            invariant
                self.wf(),
                !self.closed,
                self.tail == old(self).tail,
                self.count <= PIPE_SIZE,
                written <= data@.len(),
                written <= PIPE_SIZE - s.len(),
                self.count == s.len() + written,
                self@ == s + data@.take(written as int),
                s.len() <= PIPE_SIZE,
            ensures
                self.wf(),
                !self.closed,
                self.tail == old(self).tail,
                written == pipe_accepts(s.len(), data@.len()),
                self@ == s + data@.take(written as int),
            decreases data@.len() - written,
        {
            if self.count == PIPE_SIZE {
                break;
            }
            let byte = data[written];
            let ghost b0 = self.buffer@;
            let ghost v0 = self@;
            let ghost old_head = self.head;
            self.buffer[self.head] = byte;
            self.head = (self.head + 1) % PIPE_SIZE;
            self.count += 1;
            written += 1;
            proof {
                assert forall|k: int| 0 <= k < self.count - 1 implies #[trigger] self.buffer@[(
                self.tail + k) % (PIPE_SIZE as int)] == b0[(self.tail + k) % (PIPE_SIZE as int)] by {
                    lemma_slots_distinct(self.tail as int, k, self.count - 1, PIPE_SIZE as int);
                }
                assert((self.tail + (self.count - 1)) % (PIPE_SIZE as int) == old_head);
                assert(self.buffer@[(self.tail + (self.count - 1)) % (PIPE_SIZE as int)] == byte);
                assert(data@.take(written as int) =~= data@.take(written - 1).push(byte));
                assert forall|k: int| 0 <= k < self.count implies #[trigger] self@[k] == (s
                    + data@.take(written as int))[k] by {
                    if k < self.count - 1 {
                        assert(self@[k] == v0[k]);
                    }
                }
                assert(self@ =~= s + data@.take(written as int));
            }
        }
        written
    }

    /// Moves up to `data.len()` queued bytes, oldest first, into the front of `data` and returns
    /// how many were moved; the rest of `data` is left as it was.
    pub fn read(&mut self, data: &mut [u8]) -> (read: usize)
        requires
            old(self).wf(),
        ensures
            final(self).wf(),
            final(self).spec_closed() == old(self).spec_closed(),
            read == pipe_yields(old(self)@.len(), old(data)@.len()),
            final(data)@.len() == old(data)@.len(),
            final(data)@.take(read as int) == old(self)@.take(read as int),
            final(data)@.skip(read as int) == old(data)@.skip(read as int),
            final(self)@ == old(self)@.skip(read as int),
            final(self).write_pos() == old(self).write_pos(),
    {
        let ghost s = self@;
        let ghost d0 = data@;
        let mut read: usize = 0;
        while read < data.len()
            invariant
                self.wf(),
                self.closed == old(self).closed,
                self.head == old(self).head,
                s.len() <= PIPE_SIZE,
                read <= d0.len(),
                read <= s.len(),
                data@.len() == d0.len(),
                self.count == s.len() - read,
                self@ == s.skip(read as int),
                data@.take(read as int) == s.take(read as int),
                data@.skip(read as int) == d0.skip(read as int),
            ensures
                self.wf(),
                self.closed == old(self).closed,
                self.head == old(self).head,
                read == pipe_yields(s.len(), d0.len()),
                data@.len() == d0.len(),
                self@ == s.skip(read as int),
                data@.take(read as int) == s.take(read as int),
                data@.skip(read as int) == d0.skip(read as int),
            decreases d0.len() - read,
        {
            if self.count == 0 {
                break;
            }
            let byte = self.buffer[self.tail];
            proof {
                assert((self.tail + 0) % (PIPE_SIZE as int) == self.tail);
                assert(self@[0] == self.buffer@[(self.tail + 0) % (PIPE_SIZE as int)]);
                assert(s.skip(read as int)[0] == s[read as int]);
                assert(byte == s[read as int]);
            }
            let ghost dd = data@;
            let ghost v0 = self@;
            let ghost t0 = self.tail;
            data[read] = byte;
            self.tail = (self.tail + 1) % PIPE_SIZE;
            self.count -= 1;
            read += 1;
            proof {
                assert(data@.take(read as int) =~= s.take(read as int));
                assert forall|i: int| 0 <= i < data@.len() - read implies data@.skip(read as int)[i]
                    == d0.skip(read as int)[i] by {
                    assert(dd.skip(read - 1)[i + 1] == d0.skip(read - 1)[i + 1]);
                }
                assert(data@.skip(read as int) =~= d0.skip(read as int));
                assert forall|k: int| 0 <= k < self.count implies #[trigger] self@[k] == v0[k
                    + 1] by {
                    lemma_advance(t0 as int, k, PIPE_SIZE as int);
                }
                assert(self@ =~= s.skip(read as int));
            }
        }
        read
    }
}

/// One end of a pipe; the buffer it reads and writes.
pub struct Pipe {
    inner: PipeBuffer,
}

impl Pipe {
    pub closed spec fn wf(&self) -> bool {
        self.inner.wf()
    }

    /// The queued bytes, oldest first.
    pub closed spec fn view(&self) -> Seq<u8> {
        self.inner@
    }

    pub closed spec fn spec_closed(&self) -> bool {
        self.inner.closed
    }

    /// The ring slot the oldest queued byte is in.
    pub closed spec fn read_pos(&self) -> int {
        self.inner.read_pos()
    }

    /// The ring slot the next written byte goes to.
    pub closed spec fn write_pos(&self) -> int {
        self.inner.write_pos()
    }

    /// A well-formed pipe holds at most `PIPE_SIZE` bytes, and its write slot is as many
    /// slots after its read slot (around the ring) as are queued.
    pub proof fn lemma_wf(&self)
        requires
            self.wf(),
        ensures
            self@.len() <= PIPE_SIZE,
            0 <= self.read_pos() < PIPE_SIZE,
            0 <= self.write_pos() < PIPE_SIZE,
            self.write_pos() == (self.read_pos() + self@.len()) % (PIPE_SIZE as int),
    {
        self.inner.lemma_wf();
    }

    /// An empty, open pipe.
    pub fn new() -> (p: Pipe)
        ensures
            p.wf(),
            p@ == Seq::<u8>::empty(),
            !p.spec_closed(),
            p.read_pos() == 0,
            p.write_pos() == 0,
    {
        Pipe { inner: PipeBuffer::new() }
    }

    /// Reads as `PipeBuffer::read` does.
    pub fn read(&mut self, buf: &mut [u8]) -> (read: usize)
        requires
            old(self).wf(),
        ensures
            final(self).wf(),
            final(self).spec_closed() == old(self).spec_closed(),
            read == pipe_yields(old(self)@.len(), old(buf)@.len()),
            final(buf)@.len() == old(buf)@.len(),
            final(buf)@.take(read as int) == old(self)@.take(read as int),
            final(buf)@.skip(read as int) == old(buf)@.skip(read as int),
            final(self)@ == old(self)@.skip(read as int),
            final(self)@.len() == old(self)@.len() - read,
            final(self).write_pos() == old(self).write_pos(),
    {
        self.inner.read(buf)
    }

    /// Writes as `PipeBuffer::write` does.
    pub fn write(&mut self, buf: &[u8]) -> (written: usize)
        requires
            old(self).wf(),
        ensures
            final(self).wf(),
            final(self).spec_closed() == old(self).spec_closed(),
            final(self).read_pos() == old(self).read_pos(),
            old(self).spec_closed() ==> written == 0 && *final(self) == *old(self),
            !old(self).spec_closed() ==> {
                &&& written == pipe_accepts(old(self)@.len(), buf@.len())
                &&& written <= PIPE_SIZE - old(self)@.len()
                &&& final(self)@ == old(self)@ + buf@.take(written as int)
                &&& final(self)@.len() == old(self)@.len() + written
            },
    {
        proof {
            self.inner.lemma_wf();
        }
        self.inner.write(buf)
    }

    /// Marks the pipe closed; queued bytes can still be read.
    pub fn close(&mut self)
        requires
            old(self).wf(),
        ensures
            final(self).wf(),
            final(self).spec_closed(),
            final(self)@ == old(self)@,
            final(self).read_pos() == old(self).read_pos(),
            final(self).write_pos() == old(self).write_pos(),
    {
        self.inner.closed = true;
    }

    /// How many bytes are queued.
    pub fn available(&self) -> (n: usize)
        requires
            self.wf(),
        ensures
            n == self@.len(),
            n <= PIPE_SIZE,
    {
        self.inner.count
    }

    pub fn is_closed(&self) -> (b: bool)
        ensures
            b == self.spec_closed(),
    {
        self.inner.closed
    }
}

/// A closed pipe stays closed: a write takes nothing and leaves it as it is, a read still
/// hands out what was queued, oldest first, and keeps it closed.
pub proof fn lemma_closed_pipe(p: Pipe, after_write: Pipe, written: usize, data: Seq<u8>, after_read: Pipe, read: usize, got: Seq<u8>, room: nat)
    requires
        p.wf(),
        p.spec_closed(),
        written == 0 && after_write == p,
        after_read.spec_closed() == p.spec_closed(),
        read == pipe_yields(p@.len(), room),
        got.take(read as int) == p@.take(read as int),
        after_read@ == p@.skip(read as int),
    ensures
        after_write.spec_closed(),
        after_write@ == p@,
        after_read.spec_closed(),
        read == (if room <= p@.len() { room } else { p@.len() }),
        got.take(read as int) == p@.take(read as int),
{
}

/// From an empty pipe, what is queued is what the writes took, less what the reads gave,
/// and never more than `PIPE_SIZE` bytes: each write takes at most the room left, each read
/// at most what is queued.
pub proof fn lemma_pipe_accounting(queued: nat, len: nat)
    requires
        queued <= PIPE_SIZE,
    ensures
        queued + pipe_accepts(queued, len) <= PIPE_SIZE,
        pipe_yields(queued, len) <= queued,
        queued - pipe_yields(queued, len) <= PIPE_SIZE,
{
}

/// Advancing a ring index by one and then by `k` is advancing it by `k + 1`.
pub proof fn lemma_advance(t: int, k: int, n: int)
    requires
        0 <= t,
        0 <= k,
        n > 0,
    ensures
        ((t + 1) % n + k) % n == (t + (k + 1)) % n,
{
    vstd::arithmetic::div_mod::lemma_add_mod_noop_right(k, t + 1, n);
    assert((k + (t + 1)) == (t + (k + 1)));
}

/// Distinct offsets below the capacity from one start land in distinct slots.
pub proof fn lemma_slots_distinct(t: int, a: int, b: int, n: int)
    requires
        0 <= a < n,
        0 <= b < n,
        a != b,
        n > 0,
        0 <= t,
    ensures
        (t + a) % n != (t + b) % n,
{
    assert((t + a) % n != (t + b) % n) by (nonlinear_arith)
        requires
            0 <= a < n,
            0 <= b < n,
            a != b,
            n > 0,
            0 <= t,
    ;
}

/// What a run of calls moves through a pipe: the counts the writes (`true`) returned, less
/// the counts the reads (`false`) returned.
pub open spec fn net_flow(calls: Seq<(bool, nat)>) -> int
    decreases calls.len(),
{
    if calls.len() == 0 {
        0
    } else {
        let c = calls.last();
        net_flow(calls.drop_last()) + if c.0 { c.1 as int } else { -(c.1 as int) }
    }
}

/// Whether `queued` are the lengths of a pipe's queue before and after each of `calls`, as
/// `Pipe::write` and `Pipe::read` state them: a write adds what it returned, a read takes
/// what it returned.
pub open spec fn follows_calls(queued: Seq<int>, calls: Seq<(bool, nat)>) -> bool {
    &&& queued.len() == calls.len() + 1
    &&& forall|k: int|
        0 <= k < calls.len() ==> queued[k + 1] == queued[k] + if (#[trigger] calls[k]).0 {
            calls[k].1 as int
        } else {
            -(calls[k].1 as int)
        }
}

/// From a new pipe, what `available` reports after any run of reads and writes is the sum
/// of what the writes returned less the sum of what the reads returned.
pub proof fn lemma_pipe_flow(queued: Seq<int>, calls: Seq<(bool, nat)>)
    requires
        follows_calls(queued, calls),
        queued[0] == 0,
    ensures
        queued.last() == net_flow(calls),
    decreases calls.len(),
{
    if calls.len() > 0 {
        let n = calls.len() - 1;
        let q2 = queued.drop_last();
        let c2 = calls.drop_last();
        assert forall|k: int| 0 <= k < c2.len() implies q2[k + 1] == q2[k] + if (#[trigger] c2[k]).0 {
            c2[k].1 as int
        } else {
            -(c2[k].1 as int)
        } by {
            assert(calls[k] == c2[k]);
        }
        lemma_pipe_flow(q2, c2);
        assert(calls[n as int] == calls.last());
    }
}

} // verus!
