//! Pipes: a 4 KiB ring buffer shared by a read end and a write end.
use vstd::prelude::*;
use crate::task::TaskhandleStatus;
use crate::fs::FileRef;
use crate::mm::memory_set::{PhysBuffer, addrs_from, byte_frame, bytes_at, bytes_written, read_bytes_at, write_bytes_at};
use crate::mm::page_table::PhysMemory;

verus! {

/// Capacity of a pipe's ring buffer: one page.
pub const PIPE_RINGBUFFER_SIZE: usize = 4096;

/// Whether the ring buffer is empty, full, or neither.
#[derive(Copy, Clone, PartialEq, Eq, Structural)]
pub enum RingBufferStatus {
    EMPTY,
    NORMAL,
    FULL,
}

/// The bytes in flight between a pipe's two ends.
///
/// Bytes are read at `head` and written at `tail`; when the two meet the
/// status tells an empty buffer from a full one.
pub struct PipeRingBuffer {
    pub arr: [u8; PIPE_RINGBUFFER_SIZE],
    pub head: usize,
    pub tail: usize,
    pub reader_alive: bool,
    pub writer_alive: bool,
    pub status: RingBufferStatus,
}

/// One end of a pipe. The ring buffer it shares with the other end is
/// named by `buffer`, its number in the kernel's table of pipe buffers.
#[derive(Copy, Clone, PartialEq, Eq, Structural)]
pub struct Pipe {
    pub readable: bool,
    pub writable: bool,
    pub buffer: usize,
}

impl Pipe {
    /// The read end of the pipe whose buffer is `buffer`.
    pub fn get_read_pipe(buffer: usize) -> (r: Self)
        ensures
            r.readable && !r.writable && r.buffer == buffer,
    {
        Pipe { readable: true, writable: false, buffer }
    }

    /// The write end of the pipe whose buffer is `buffer`.
    pub fn get_write_pipe(buffer: usize) -> (r: Self)
        ensures
            !r.readable && r.writable && r.buffer == buffer,
    {
        Pipe { readable: false, writable: true, buffer }
    }
}

/// The position `i` places after `start` in a ring of 4096 slots.
pub open spec fn ring_pos(start: int, i: int) -> int {
    (start + i) % 4096
}

/// The distance from `start` forward to `j` in a ring of 4096 slots.
pub open spec fn ring_dist(start: int, j: int) -> int {
    (j + 4096 - start) % 4096
}

impl PipeRingBuffer {
    /// Both indices point into the array.
    pub open spec fn indices_ok(&self) -> bool {
        self.head < 4096 && self.tail < 4096
    }

    /// The invariant under which the buffer holds what was written and not
    /// yet read: a full buffer has its two indices equal.
    pub open spec fn wf(&self) -> bool {
        &&& self.indices_ok()
        &&& self.status == RingBufferStatus::FULL ==> self.head == self.tail
    }

    /// How many bytes a reader can take.
    pub open spec fn readable_len(&self) -> nat {
        if self.status == RingBufferStatus::FULL {
            4096
        } else if self.head <= self.tail {
            (self.tail - self.head) as nat
        } else {
            (self.tail + 4096 - self.head) as nat
        }
    }

    /// The bytes that a reader takes next, oldest first.
    pub open spec fn contents(&self) -> Seq<u8> {
        Seq::new(self.readable_len(), |i: int| self.arr@[ring_pos(self.head as int, i)])
    }

    /// What `read_data` does: `out` is the caller's buffer before the call,
    /// `out2` after it, `new` the ring buffer after it and `r` the result.
    pub open spec fn read_post(
        old: PipeRingBuffer,
        new: PipeRingBuffer,
        out: Seq<u8>,
        out2: Seq<u8>,
        r: (TaskhandleStatus, usize),
    ) -> bool {
        let avail = old.readable_len();
        if avail == 0 {
            &&& r.0 == (if old.writer_alive {
                TaskhandleStatus::DOWAIT
            } else {
                TaskhandleStatus::DOSTOP
            })
            &&& r.1 == 0
            &&& new == old
            &&& out2 == out
        } else {
            let n = if out.len() <= avail {
                out.len()
            } else {
                avail
            };
            &&& r.0 == (if out.len() <= avail {
                TaskhandleStatus::OK
            } else {
                TaskhandleStatus::DOSTOP
            })
            &&& r.1 == n
            &&& out2.len() == out.len()
            &&& out2.take(n as int) == old.contents().take(n as int)
            &&& out2.skip(n as int) == out.skip(n as int)
            &&& new.arr == old.arr
            &&& new.head == (old.head + n) % 4096
            &&& new.tail == old.tail
            &&& new.reader_alive == old.reader_alive
            &&& new.writer_alive == old.writer_alive
            &&& new.status == (if new.head == old.tail {
                RingBufferStatus::EMPTY
            } else {
                old.status
            })
        }
    }

    /// How many bytes `write_data` copies for an input of `len` bytes, when
    /// there is room for at least one.
    pub open spec fn write_count(old: PipeRingBuffer, len: nat) -> nat {
        if len <= 4096 - old.readable_len() {
            len
        } else {
            old.readable_len()
        }
    }

    /// The input that `write_data` accepts without going out of bounds.
    pub open spec fn write_ok(old: PipeRingBuffer, data: Seq<u8>) -> bool {
        let room = 4096 - old.readable_len();
        room > 0 && room < data.len() ==> old.readable_len() <= data.len()
    }

    /// What `write_data` does: `new` is the ring buffer after the call and
    /// `r` the result.
    pub open spec fn write_post(
        old: PipeRingBuffer,
        new: PipeRingBuffer,
        data: Seq<u8>,
        r: (TaskhandleStatus, usize),
    ) -> bool {
        let room = 4096 - old.readable_len();
        if room == 0 {
            &&& r.0 == (if old.reader_alive {
                TaskhandleStatus::DOWAIT
            } else {
                TaskhandleStatus::DOSTOP
            })
            &&& r.1 == 0
            &&& new == old
        } else {
            let n = Self::write_count(old, data.len());
            &&& r.0 == (if data.len() <= room {
                TaskhandleStatus::OK
            } else {
                TaskhandleStatus::DOSTOP
            })
            &&& r.1 == n
            &&& new.arr@ == Seq::new(
                4096,
                |j: int|
                    if ring_dist(old.tail as int, j) < n {
                        data[ring_dist(old.tail as int, j)]
                    } else {
                        old.arr@[j]
                    },
            )
            &&& new.head == old.head
            &&& new.tail == (old.tail + n) % 4096
            &&& new.reader_alive == old.reader_alive
            &&& new.writer_alive == old.writer_alive
            &&& new.status == (if old.head == new.tail {
                RingBufferStatus::FULL
            } else {
                old.status
            })
        }
    }

    /// An empty buffer with both ends alive.
    pub fn new() -> (r: Self)
        ensures
            r.wf(),
            r.head == 0 && r.tail == 0,
            r.status == RingBufferStatus::EMPTY,
            r.reader_alive && r.writer_alive,
            r.contents() == Seq::<u8>::empty(),
    {
        let r = PipeRingBuffer {
            arr: [0u8; PIPE_RINGBUFFER_SIZE],
            head: 0,
            tail: 0,
            reader_alive: true,
            writer_alive: true,
            status: RingBufferStatus::EMPTY,
        };
        assert(r.contents() =~= Seq::<u8>::empty());
        r
    }

    /// The write end is gone.
    pub fn writer_dead(&mut self)
        ensures
            *final(self) == (PipeRingBuffer { writer_alive: false, ..*old(self) }),
    {
        self.writer_alive = false;
    }

    /// The read end is gone.
    pub fn reader_dead(&mut self)
        ensures
            *final(self) == (PipeRingBuffer { reader_alive: false, ..*old(self) }),
    {
        self.reader_alive = false;
    }

    /// How many bytes a reader can take now.
    pub fn avaliable_read(&self) -> (r: usize)
        requires
            self.indices_ok(),
        ensures
            r == self.readable_len(),
            r <= 4096,
    {
        if self.status == RingBufferStatus::FULL {
            PIPE_RINGBUFFER_SIZE
        } else {
            if self.head <= self.tail {
                self.tail - self.head
            } else {
                self.tail + PIPE_RINGBUFFER_SIZE - self.head
            }
        }
    }

    /// How many bytes a writer can put in now.
    pub fn avaliable_write(&self) -> (r: usize)
        requires
            self.indices_ok(),
        ensures
            r == 4096 - self.readable_len(),
    {
        PIPE_RINGBUFFER_SIZE - self.avaliable_read()
    }

    /// Moves up to `out_buf.len()` bytes from the buffer into `out_buf`.
    ///
    /// On an empty buffer nothing moves, and the result asks the caller to
    /// wait while the writer lives and to stop once it is gone. Otherwise the
    /// result says how many bytes moved, and asks the caller to stop when
    /// fewer than it wanted were there.
    pub fn read_data(&mut self, out_buf: &mut [u8]) -> (r: (TaskhandleStatus, usize))
        requires
            old(self).indices_ok(),
        ensures
            Self::read_post(*old(self), *final(self), old(out_buf)@, final(out_buf)@, r),
            final(self).indices_ok(),
    {
        let avail = self.avaliable_read();
        if avail == 0 {
            if self.writer_alive {
                return (TaskhandleStatus::DOWAIT, 0);
            } else {
                return (TaskhandleStatus::DOSTOP, 0);
            }
        } else {
            let mut read_num: usize = out_buf.len();
            let mut status = TaskhandleStatus::OK;
            if avail < read_num {
                read_num = avail;
                status = TaskhandleStatus::DOSTOP;
            }
            let ghost old_self = *self;
            let ghost old_out = out_buf@;
            let mut ring_index: usize = self.head;
            let mut index: usize = 0;
            while index < read_num
                invariant
                    *self == old_self,
                    old_self.indices_ok(),
                    read_num <= old_self.readable_len(),
                    read_num <= old_out.len(),
                    0 <= index <= read_num,
                    ring_index <= 4096,
                    ring_index % 4096 == ring_pos(old_self.head as int, index as int),
                    out_buf@.len() == old_out.len(),
                    forall|i: int|
                        0 <= i < index ==> #[trigger] out_buf@[i] == old_self.arr@[ring_pos(
                            old_self.head as int,
                            i,
                        )],
                    forall|i: int| index <= i < out_buf@.len() ==> #[trigger] out_buf@[i] == old_out[i],
                decreases read_num - index,
            {
                if ring_index == PIPE_RINGBUFFER_SIZE {
                    ring_index = 0;
                }
                out_buf[index] = self.arr[ring_index];
                ring_index = ring_index + 1;
                index = index + 1;
            }
            self.head = ring_index % PIPE_RINGBUFFER_SIZE;
            if self.head == self.tail {
                self.status = RingBufferStatus::EMPTY;
            }
            proof {
                assert(out_buf@.take(read_num as int) =~= old_self.contents().take(
                    read_num as int,
                ));
                assert(out_buf@.skip(read_num as int) =~= old_out.skip(read_num as int));
            }
            return (status, read_num);
        }
    }

    /// Copies bytes of `in_buf` into the buffer.
    ///
    /// On a full buffer nothing moves, and the result asks the caller to wait
    /// while the reader lives and to stop once it is gone. Otherwise the whole
    /// input goes in when there is room for it; when there is not, the count
    /// copied is the number of bytes the buffer held, and the caller is asked
    /// to stop.
    pub fn write_data(&mut self, in_buf: &[u8]) -> (r: (TaskhandleStatus, usize))
        requires
            old(self).indices_ok(),
            Self::write_ok(*old(self), in_buf@),
        ensures
            Self::write_post(*old(self), *final(self), in_buf@, r),
            final(self).indices_ok(),
    {
        let room = self.avaliable_write();
        if room == 0 {
            if self.reader_alive {
                return (TaskhandleStatus::DOWAIT, 0);
            } else {
                return (TaskhandleStatus::DOSTOP, 0);
            }
        } else {
            let mut write_num: usize = in_buf.len();
            let mut status = TaskhandleStatus::OK;
            if room < write_num {
                write_num = self.avaliable_read();
                status = TaskhandleStatus::DOSTOP;
            }
            let ghost old_self = *self;
            let mut ring_index: usize = self.tail;
            let mut index: usize = 0;
            while index < write_num
                invariant
                    self.head == old_self.head,
                    self.tail == old_self.tail,
                    self.status == old_self.status,
                    self.reader_alive == old_self.reader_alive,
                    self.writer_alive == old_self.writer_alive,
                    old_self.indices_ok(),
                    write_num == Self::write_count(old_self, in_buf@.len()),
                    write_num <= in_buf@.len(),
                    write_num <= 4096,
                    0 <= index <= write_num,
                    ring_index <= 4096,
                    ring_index % 4096 == ring_pos(old_self.tail as int, index as int),
                    forall|j: int|
                        0 <= j < 4096 ==> #[trigger] self.arr@[j] == (if ring_dist(
                            old_self.tail as int,
                            j,
                        ) < index {
                            in_buf@[ring_dist(old_self.tail as int, j)]
                        } else {
                            old_self.arr@[j]
                        }),
                decreases write_num - index,
            {
                if ring_index == PIPE_RINGBUFFER_SIZE {
                    ring_index = 0;
                }
                proof {
                    assert(ring_dist(old_self.tail as int, ring_index as int) == index);
                    assert forall|j: int|
                        0 <= j < 4096 && j != ring_index implies ring_dist(old_self.tail as int, j)
                        != index by {}
                }
                self.arr[ring_index] = in_buf[index];
                ring_index = ring_index + 1;
                index = index + 1;
            }
            self.tail = ring_index % PIPE_RINGBUFFER_SIZE;
            if self.head == self.tail {
                self.status = RingBufferStatus::FULL;
            }
            proof {
                let f = |j: int|
                    if ring_dist(old_self.tail as int, j) < write_num {
                        in_buf@[ring_dist(old_self.tail as int, j)]
                    } else {
                        old_self.arr@[j]
                    };
                assert(self.arr@ =~= Seq::new(4096, f));
            }
            return (status, write_num);
        }
    }
}

/// Writing into a well-formed buffer that has room appends the bytes that
/// were copied to what a reader takes next.
pub proof fn lemma_write_appends(
    old: PipeRingBuffer,
    new: PipeRingBuffer,
    data: Seq<u8>,
    r: (TaskhandleStatus, usize),
)
    requires
        old.wf(),
        PipeRingBuffer::write_post(old, new, data, r),
        r.1 > 0,
        old.readable_len() + r.1 <= 4096,
    ensures
        new.wf(),
        new.readable_len() == old.readable_len() + r.1,
        new.contents() == old.contents() + data.take(r.1 as int),
{
    let n = r.1 as int;
    let len = old.readable_len() as int;
    let h = old.head as int;
    let t = old.tail as int;
    assert(old.status != RingBufferStatus::FULL);
    assert(len == (t - h + 4096) % 4096);
    assert((t + n) % 4096 == (h + len + n) % 4096);
    if new.tail == old.head {
        assert(len + n == 4096);
    } else {
        assert(len + n < 4096);
        assert(new.readable_len() == len + n);
    }
    assert(new.readable_len() == len + n);
    let expected = old.contents() + data.take(n);
    assert forall|i: int| 0 <= i < len + n implies #[trigger] new.contents()[i] == expected[i] by {
        let p = ring_pos(h, i);
        assert(0 <= p < 4096);
        if i < len {
            assert(ring_dist(t, p) == 4096 - len + i);
        } else {
            assert(ring_dist(t, p) == i - len);
        }
    }
    assert(new.contents() =~= expected);
}

/// Reading from a well-formed buffer hands out its oldest bytes and leaves
/// the rest, unless a full buffer is read only in part.
pub proof fn lemma_read_takes(
    old: PipeRingBuffer,
    new: PipeRingBuffer,
    out: Seq<u8>,
    out2: Seq<u8>,
    r: (TaskhandleStatus, usize),
)
    requires
        old.wf(),
        PipeRingBuffer::read_post(old, new, out, out2, r),
        r.1 > 0,
        old.status == RingBufferStatus::FULL ==> r.1 == old.readable_len(),
    ensures
        new.wf(),
        out2.take(r.1 as int) == old.contents().take(r.1 as int),
        new.contents() == old.contents().skip(r.1 as int),
{
    let n = r.1 as int;
    let len = old.readable_len() as int;
    let h = old.head as int;
    let t = old.tail as int;
    assert(n <= len);
    if old.status == RingBufferStatus::FULL {
        assert(n == 4096);
        assert(new.head == old.tail);
        assert(new.status == RingBufferStatus::EMPTY);
    } else {
        assert(len == (t - h + 4096) % 4096);
        if new.head == old.tail {
            assert(n == len);
        } else {
            assert(n < len);
        }
    }
    assert(new.readable_len() == len - n);
    let expected = old.contents().skip(n);
    assert forall|i: int| 0 <= i < len - n implies #[trigger] new.contents()[i] == expected[i] by {
        assert(ring_pos(new.head as int, i) == ring_pos(h, i + n));
    }
    assert(new.contents() =~= expected);
}

/// What goes into a fresh pipe comes out of it unchanged: writing between
/// one byte and a page into an empty buffer, then reading as many, gives
/// back the same bytes and leaves the buffer empty.
pub proof fn lemma_pipe_round_trip(
    b0: PipeRingBuffer,
    b1: PipeRingBuffer,
    b2: PipeRingBuffer,
    data: Seq<u8>,
    out: Seq<u8>,
    out2: Seq<u8>,
    r1: (TaskhandleStatus, usize),
    r2: (TaskhandleStatus, usize),
)
    requires
        b0.wf(),
        b0.readable_len() == 0,
        0 < data.len() <= 4096,
        PipeRingBuffer::write_post(b0, b1, data, r1),
        out.len() == data.len(),
        PipeRingBuffer::read_post(b1, b2, out, out2, r2),
    ensures
        r1 == (TaskhandleStatus::OK, data.len() as usize),
        r2 == (TaskhandleStatus::OK, data.len() as usize),
        out2 == data,
        b2.wf(),
        b2.readable_len() == 0,
{
    lemma_write_appends(b0, b1, data, r1);
    assert(b0.contents() =~= Seq::<u8>::empty());
    assert(b1.contents() =~= data);
    lemma_read_takes(b1, b2, out, out2, r2);
    assert(out2 =~= out2.take(data.len() as int));
}

/// Makes a new pipe: an empty buffer joins the table `pipes`, and its two
/// ends come back, read end first.
pub fn get_dual_pipe_file(pipes: &mut Vec<Option<PipeRingBuffer>>) -> (r: (FileRef, FileRef))
    requires
        old(pipes)@.len() < usize::MAX,
    ensures
        final(pipes)@.len() == old(pipes)@.len() + 1,
        final(pipes)@.drop_last() == old(pipes)@,
        final(pipes)@.last().is_some(),
        final(pipes)@.last().unwrap().wf(),
        final(pipes)@.last().unwrap().contents() == Seq::<u8>::empty(),
        final(pipes)@.last().unwrap().reader_alive,
        final(pipes)@.last().unwrap().writer_alive,
        r.0 == FileRef::Pipe(Pipe { readable: true, writable: false, buffer: old(pipes)@.len() as usize }),
        r.1 == FileRef::Pipe(Pipe { readable: false, writable: true, buffer: old(pipes)@.len() as usize }),
{
    let index = pipes.len();
    pipes.push(Some(PipeRingBuffer::new()));
    assert(pipes@.drop_last() =~= old(pipes)@);
    (FileRef::Pipe(Pipe::get_read_pipe(index)), FileRef::Pipe(Pipe::get_write_pipe(index)))
}

/// What to do after moving one piece of a user buffer through a pipe.
#[derive(Copy, Clone, PartialEq, Eq, Structural)]
pub enum PipeStep {
    /// the task waits (yields), then the same piece is tried again
    Wait,
    /// the piece is done and this many bytes have moved so far; the next
    /// piece follows, and after the last one this is the result
    Next(usize),
    /// the transfer ends with this many bytes moved
    Finished(usize),
}

/// The step that a ring-buffer result `res` means, `done` bytes having
/// moved before this piece.
pub open spec fn step_of(res: (TaskhandleStatus, usize), done: usize) -> PipeStep {
    match res.0 {
        TaskhandleStatus::DOWAIT => PipeStep::Wait,
        TaskhandleStatus::DOSTOP => PipeStep::Finished((res.1 + done) as usize),
        _ => PipeStep::Next((done + res.1) as usize),
    }
}

/// Piece `p` of a user buffer read from ring buffer `ra` (giving `rb`):
/// its bytes in memory `ma` go through `read_data`, which answers `res`,
/// and come back to memory as `mb`.
pub open spec fn piece_read(
    ra: PipeRingBuffer,
    rb: PipeRingBuffer,
    ma: PhysMemory,
    mb: PhysMemory,
    p: PhysBuffer,
    res: (TaskhandleStatus, usize),
) -> bool {
    exists|out2: Seq<u8>|
        #[trigger] PipeRingBuffer::read_post(ra, rb, bytes_at(ma, p.start, p.len as nat), out2, res) && mb.base_ppn
            == ma.base_ppn && mb.words@ == bytes_written(
            ma.words@,
            ma.base_ppn,
            addrs_from(p.start, p.len as nat),
            out2,
            p.len as nat,
        )
}

/// Step `j` of a read over the pieces `ps` from piece `from` on: piece
/// `from + j` is read in full, and the count grows by what it took.
pub open spec fn read_turn(
    ps: Seq<PhysBuffer>,
    rings: Seq<PipeRingBuffer>,
    ms: Seq<PhysMemory>,
    dones: Seq<nat>,
    from: int,
    j: int,
) -> bool {
    exists|res: (TaskhandleStatus, usize)|
        #[trigger] piece_read(rings[j], rings[j + 1], ms[j], ms[j + 1], ps[from + j], res) && res.0
            == TaskhandleStatus::OK && dones[j + 1] == dones[j] + res.1
}

/// The ring buffers, memories and counts that a read goes through over
/// `n` pieces of `ps` from piece `from` on, each read in full.
pub open spec fn read_in_turn(
    ps: Seq<PhysBuffer>,
    rings: Seq<PipeRingBuffer>,
    ms: Seq<PhysMemory>,
    dones: Seq<nat>,
    from: int,
    n: int,
) -> bool {
    &&& rings.len() == n + 1
    &&& ms.len() == n + 1
    &&& dones.len() == n + 1
    &&& forall|j: int| 0 <= j < n ==> #[trigger] read_turn(ps, rings, ms, dones, from, j)
}

/// The pieces `ps` lie in memory `m`, below 2^64, at most a page each.
pub open spec fn pieces_fit(m: PhysMemory, ps: Seq<PhysBuffer>) -> bool {
    &&& forall|k: int| 0 <= k < ps.len() ==> (#[trigger] ps[k]).len <= 4096 && ps[k].start + ps[k].len <= u64::MAX
    &&& forall|k: int, i: int| 0 <= k < ps.len() && 0 <= i < ps[k].len ==> m.has_frame(#[trigger] byte_frame(ps[k].start, i))
}

impl Pipe {
    /// Reads one piece of the caller's buffer, `out_buf`, from the pipe's
    /// ring buffer `ring`; `done` bytes were read into earlier pieces.
    pub fn read(&self, ring: &mut PipeRingBuffer, out_buf: &mut [u8], done: usize) -> (r: PipeStep)
        requires
            old(ring).indices_ok(),
            done + old(out_buf)@.len() <= usize::MAX,
        ensures
            exists|res: (TaskhandleStatus, usize)|
                #[trigger] PipeRingBuffer::read_post(*old(ring), *final(ring), old(out_buf)@, final(out_buf)@, res)
                    && r == step_of(res, done),
            final(ring).indices_ok(),
    {
        let (status, read_len) = ring.read_data(out_buf);
        match status {
            TaskhandleStatus::DOWAIT => PipeStep::Wait,
            TaskhandleStatus::DOSTOP => PipeStep::Finished(read_len + done),
            _ => PipeStep::Next(done + read_len),
        }
    }

    /// Reads the pipe into the user buffer whose pieces in physical memory
    /// are `ps`, piece after piece from piece `from` on, `done` bytes
    /// having been read before. Returns where it stopped: after every
    /// piece, with the count (`Finished`); or at a piece where the ring
    /// buffer said to wait (`Wait`: the task yields and calls again from
    /// that piece) or to stop (`Finished`, with the count).
    #[verifier::rlimit(40)]
    pub fn read_user(
        &self,
        ring: &mut PipeRingBuffer,
        m: &mut PhysMemory,
        ps: &Vec<PhysBuffer>,
        from: usize,
        done: usize,
    ) -> (r: (usize, PipeStep))
        requires
            old(ring).indices_ok(),
            from <= ps@.len(),
            done + 4096 * ps@.len() <= usize::MAX,
            pieces_fit(*old(m), ps@),
        ensures
            from <= r.0 <= ps@.len(),
            final(ring).indices_ok(),
            exists|rings: Seq<PipeRingBuffer>, ms: Seq<PhysMemory>, dones: Seq<nat>|
                #[trigger] read_in_turn(ps@, rings, ms, dones, from as int, r.0 - from) && rings[0] == *old(ring)
                    && ms[0] == *old(m) && dones[0] == done && {
                    ||| r.0 == ps@.len() && r.1 == PipeStep::Finished(dones.last() as usize) && *final(ring)
                        == rings.last() && *final(m) == ms.last()
                    ||| r.0 < ps@.len() && exists|res: (TaskhandleStatus, usize)|
                        #[trigger] piece_read(rings.last(), *final(ring), ms.last(), *final(m), ps@[r.0 as int], res)
                            && res.0 != TaskhandleStatus::OK && r.1 == step_of(res, dones.last() as usize)
                },
    {
        let ghost mut rings: Seq<PipeRingBuffer> = seq![*ring];
        let ghost mut ms: Seq<PhysMemory> = seq![*m];
        let ghost mut dones: Seq<nat> = seq![done as nat];
        let ghost m0 = *m;
        let mut k: usize = from;
        let mut d: usize = done;
        while k < ps.len()
            invariant
                from <= k <= ps@.len(),
                done + 4096 * ps@.len() <= usize::MAX,
                pieces_fit(m0, ps@),
                m.base_ppn == m0.base_ppn,
                m.words@.len() == m0.words@.len(),
                ring.indices_ok(),
                read_in_turn(ps@, rings, ms, dones, from as int, k - from),
                rings[0] == *old(ring),
                ms[0] == *old(m),
                dones[0] == done,
                rings.last() == *ring,
                ms.last() == *m,
                dones.last() == d,
                d <= done + 4096 * (k - from),
            decreases ps@.len() - k,
        {
            let p = ps[k];
            proof {
                assert(p.len <= 4096 && p.start + p.len <= u64::MAX);
                assert forall|i: int| 0 <= i < p.len implies m.has_frame(#[trigger] byte_frame(p.start, i)) by {
                    assert(m0.has_frame(byte_frame(ps@[k as int].start, i)));
                }
            }
            let mut buf = read_bytes_at(m, p.start, p.len);
            let ghost r0 = *ring;
            let ghost mk = *m;
            let (st, n) = ring.read_data(buf.as_mut_slice());
            let ghost out2 = buf@;
            proof {
                assert(out2.len() == p.len);
            }
            write_bytes_at(m, p.start, &buf);
            proof {
                assert(PipeRingBuffer::read_post(r0, *ring, bytes_at(mk, p.start, p.len as nat), out2, (st, n)));
                assert(piece_read(r0, *ring, mk, *m, p, (st, n)));
            }
            match st {
                TaskhandleStatus::DOWAIT => {
                    proof {
                        assert(read_in_turn(ps@, rings, ms, dones, from as int, k - from));
                    }
                    return (k, PipeStep::Wait);
                },
                TaskhandleStatus::DOSTOP => {
                    proof {
                        assert(read_in_turn(ps@, rings, ms, dones, from as int, k - from));
                    }
                    return (k, PipeStep::Finished(n + d));
                },
                _ => {
                    proof {
                        let (rings0, ms0, dones0) = (rings, ms, dones);
                        rings = rings.push(*ring);
                        ms = ms.push(*m);
                        dones = dones.push((d + n) as nat);
                        assert forall|j: int| 0 <= j < k + 1 - from implies #[trigger] read_turn(ps@, rings, ms, dones, from as int, j) by {
                            if j < k - from {
                                assert(read_turn(ps@, rings0, ms0, dones0, from as int, j));
                                assert(rings[j] == rings0[j] && rings[j + 1] == rings0[j + 1]);
                                assert(ms[j] == ms0[j] && ms[j + 1] == ms0[j + 1]);
                                assert(dones[j] == dones0[j] && dones[j + 1] == dones0[j + 1]);
                            } else {
                                assert(rings[j] == r0 && rings[j + 1] == *ring);
                                assert(ms[j] == mk && ms[j + 1] == *m);
                                assert(ps@[from + j] == p);
                                assert(piece_read(rings[j], rings[j + 1], ms[j], ms[j + 1], ps@[from + j], (st, n)));
                            }
                        }
                    }
                    d = d + n;
                    k = k + 1;
                },
            }
        }
        proof {
            assert(k == ps@.len());
            assert(dones.last() as usize == d);
            assert(rings.last() == *ring && ms.last() == *m);
            assert(read_in_turn(ps@, rings, ms, dones, from as int, k - from));
        }
        (k, PipeStep::Finished(d))
    }

    /// Writes one piece of the caller's buffer, `in_buf`, to the pipe's
    /// ring buffer `ring`; `done` bytes were written from earlier pieces.
    pub fn write(&self, ring: &mut PipeRingBuffer, in_buf: &[u8], done: usize) -> (r: PipeStep)
        requires
            old(ring).indices_ok(),
            PipeRingBuffer::write_ok(*old(ring), in_buf@),
            done + in_buf@.len() <= usize::MAX,
        ensures
            exists|res: (TaskhandleStatus, usize)|
                #[trigger] PipeRingBuffer::write_post(*old(ring), *final(ring), in_buf@, res) && r == step_of(
                    res,
                    done,
                ),
            final(ring).indices_ok(),
    {
        let (status, write_len) = ring.write_data(in_buf);
        match status {
            TaskhandleStatus::DOWAIT => PipeStep::Wait,
            TaskhandleStatus::DOSTOP => PipeStep::Finished(write_len + done),
            _ => PipeStep::Next(done + write_len),
        }
    }

    /// Gives this end up: the ring buffer learns that its writer (for a
    /// write end) or its reader (for a read end) is gone.
    pub fn release(&self, ring: &mut PipeRingBuffer)
        ensures
            final(ring).writer_alive == (old(ring).writer_alive && !self.writable),
            final(ring).reader_alive == (old(ring).reader_alive && !self.readable),
            final(ring).arr == old(ring).arr,
            final(ring).head == old(ring).head,
            final(ring).tail == old(ring).tail,
            final(ring).status == old(ring).status,
    {
        if self.writable {
            ring.writer_dead();
        }
        if self.readable {
            ring.reader_dead();
        }
    }
}

} // verus!
