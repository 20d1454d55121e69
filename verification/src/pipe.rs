//! A one-way, bounded, in-memory byte pipe. Its writer side blocks once
//! the buffer holds `max_buf_size` bytes, and its reader side blocks while
//! the buffer is empty and the pipe is open.
use bytes::{Buf, BytesMut};
use std::task::Waker;
use vstd::prelude::*;
use vstd::slice::{slice_subrange, slice_to_vec};

verus! {

#[verifier::external_type_specification]
#[verifier::external_body]
pub struct ExBytesMut(BytesMut);

#[verifier::external_type_specification]
#[verifier::external_body]
pub struct ExWaker(Waker);

/// The bytes a `BytesMut` holds, from first to last.
pub uninterp spec fn bytes_mut_contents(b: BytesMut) -> Seq<u8>;

/// Calls `BytesMut::new`: a buffer that holds nothing.
#[verifier::external_body]
fn bytes_mut_new() -> (r: BytesMut)
    ensures
        bytes_mut_contents(r) == Seq::<u8>::empty(),
{
    BytesMut::new()
}

/// Calls `BytesMut::len`: how many bytes the buffer holds.
#[verifier::external_body]
fn bytes_mut_len(b: &BytesMut) -> (r: usize)
    ensures
        r == bytes_mut_contents(*b).len(),
{
    b.len()
}

/// Calls `Buf::has_remaining` on a `BytesMut`: whether it holds any byte.
#[verifier::external_body]
fn bytes_mut_has_remaining(b: &BytesMut) -> (r: bool)
    ensures
        r == (bytes_mut_contents(*b).len() > 0),
{
    b.has_remaining()
}

/// Calls `Buf::remaining` on a `BytesMut`: how many bytes it holds.
#[verifier::external_body]
fn bytes_mut_remaining(b: &BytesMut) -> (r: usize)
    ensures
        r == bytes_mut_contents(*b).len(),
{
    b.remaining()
}

/// Calls `<BytesMut as Deref>::deref`: the bytes it holds, as a slice.
#[verifier::external_body]
fn bytes_mut_as_slice(b: &BytesMut) -> (r: &[u8])
    ensures
        r@ == bytes_mut_contents(*b),
{
    &**b
}

/// Calls `Buf::advance` on a `BytesMut`: drops the first `n` bytes. It
/// panics when `n` exceeds what is held, which `requires` leaves out.
#[verifier::external_body]
fn bytes_mut_advance(b: &mut BytesMut, n: usize)
    requires
        n <= bytes_mut_contents(*old(b)).len(),
    ensures
        bytes_mut_contents(*final(b)) == bytes_mut_contents(*old(b)).skip(n as int),
{
    b.advance(n)
}

/// Calls `BytesMut::extend_from_slice`: appends the bytes. It panics when
/// the capacity this needs overflows, which `requires` leaves out by
/// keeping the total within `isize::MAX`.
#[verifier::external_body]
fn bytes_mut_extend_from_slice(b: &mut BytesMut, data: &[u8])
    requires
        bytes_mut_contents(*old(b)).len() + data@.len() <= isize::MAX,
    ensures
        bytes_mut_contents(*final(b)) == bytes_mut_contents(*old(b)) + data@,
{
    b.extend_from_slice(data)
}

/// The outcome of polling one side of the pipe.
#[derive(Debug)]
pub enum PipePoll<T> {
    Ready(T),
    /// Nothing can happen yet; the caller's waker has been stored and is
    /// handed back, to be woken, when the other side makes progress.
    Pending,
}

/// A write on a pipe whose reader or writer has closed it.
#[derive(Debug, Clone, Copy, PartialEq, Eq, Structural)]
pub struct BrokenPipe;

/// How many of `len` offered bytes fit beside `held` buffered bytes under a
/// limit of `max`.
pub open spec fn accepted(held: nat, len: nat, max: nat) -> nat {
    if len <= max - held {
        len
    } else {
        (max - held) as nat
    }
}

/// A write takes as many bytes as fit: no more than offered, no more than
/// the room left, and all of the offer unless the pipe is then full.
pub proof fn lemma_accepted_fills(held: nat, len: nat, max: nat)
    requires
        held <= max,
    ensures
        accepted(held, len, max) <= len,
        held + accepted(held, len, max) <= max,
        accepted(held, len, max) == len || held + accepted(held, len, max) == max,
        accepted(held, len, max) == vstd::math::min(len as int, max - held),
{
}

/// A one-way in-memory pipe: data written to it is read back from it, in
/// order.
pub struct Pipe {
    /// The bytes written and not yet read.
    buffer: BytesMut,
    /// Whether either side has closed the pipe.
    is_closed: bool,
    /// The most bytes the buffer may hold before writes wait.
    max_buf_size: usize,
    /// The waker of a reader waiting for bytes.
    read_waker: Option<Waker>,
    /// The waker of a writer waiting for room.
    write_waker: Option<Waker>,
    /// Every byte the pipe has taken in, in order.
    written: Ghost<Seq<u8>>,
    /// Every byte the pipe has handed out, in order.
    taken: Ghost<Seq<u8>>,
}

impl Pipe {
    /// The pipe is well formed: it holds no more than its limit, and the
    /// limit is one an allocation can reach.
    pub closed spec fn wf(&self) -> bool {
        &&& bytes_mut_contents(self.buffer).len() <= self.max_buf_size
        &&& self.max_buf_size <= isize::MAX
        &&& self.taken@ + bytes_mut_contents(self.buffer) == self.written@
    }

    /// Every byte the pipe has taken in, in order.
    pub closed spec fn written(&self) -> Seq<u8> {
        self.written@
    }

    /// Every byte the pipe has handed out, in order.
    pub closed spec fn taken(&self) -> Seq<u8> {
        self.taken@
    }

    /// The bytes written and not yet read.
    pub closed spec fn contents(&self) -> Seq<u8> {
        bytes_mut_contents(self.buffer)
    }

    pub closed spec fn closed(&self) -> bool {
        self.is_closed
    }

    pub closed spec fn limit(&self) -> nat {
        self.max_buf_size as nat
    }

    pub closed spec fn reader_waker(&self) -> Option<Waker> {
        self.read_waker
    }

    pub closed spec fn writer_waker(&self) -> Option<Waker> {
        self.write_waker
    }

    /// An empty, open pipe that buffers at most `max_buf_size` bytes.
    pub fn new(max_buf_size: usize) -> (r: Self)
        requires
            max_buf_size <= isize::MAX,
        ensures
            r.contents() == Seq::<u8>::empty(),
            !r.closed(),
            r.limit() == max_buf_size,
            r.reader_waker() is None,
            r.writer_waker() is None,
            r.written() == Seq::<u8>::empty(),
            r.taken() == Seq::<u8>::empty(),
            r.wf(),
    {
        let r = Pipe {
            buffer: bytes_mut_new(),
            is_closed: false,
            max_buf_size,
            read_waker: None,
            write_waker: None,
            written: Ghost(Seq::empty()),
            taken: Ghost(Seq::empty()),
        };
        assert(r.taken@ + bytes_mut_contents(r.buffer) =~= r.written@);
        r
    }

    /// A well-formed pipe never holds more bytes than its limit.
    pub proof fn lemma_bounded(p: &Pipe)
        requires
            p.wf(),
        ensures
            p.contents().len() <= p.limit(),
    {
    }

    /// Bytes come out of the pipe in the order they went in, none lost and
    /// none made up: what has been handed out is the start of what has been
    /// taken in, and the pipe holds the rest.
    pub proof fn lemma_in_order(p: &Pipe)
        requires
            p.wf(),
        ensures
            p.written() == p.taken() + p.contents(),
            p.taken().len() <= p.written().len(),
            p.written().take(p.taken().len() as int) == p.taken(),
            p.written().skip(p.taken().len() as int) == p.contents(),
    {
        assert(p.written().take(p.taken().len() as int) =~= p.taken());
        assert(p.written().skip(p.taken().len() as int) =~= p.contents());
    }

    /// Closes the pipe from the writing side. Hands back the waker of a
    /// waiting reader, to be woken: it reads what is left, then the end of
    /// the stream.
    pub fn close_write(&mut self) -> (woken: Option<Waker>)
        requires
            old(self).wf(),
        ensures
            woken == old(self).reader_waker(),
            final(self).closed(),
            final(self).contents() == old(self).contents(),
            final(self).limit() == old(self).limit(),
            final(self).wf(),
            final(self).written() == old(self).written(),
            final(self).taken() == old(self).taken(),
            final(self).reader_waker() is None,
            final(self).writer_waker() == old(self).writer_waker(),
    {
        self.is_closed = true;
        self.read_waker.take()
    }

    /// Closes the pipe from the reading side. Hands back the waker of a
    /// waiting writer, to be woken: its writes fail from now on.
    pub fn close_read(&mut self) -> (woken: Option<Waker>)
        requires
            old(self).wf(),
        ensures
            woken == old(self).writer_waker(),
            final(self).closed(),
            final(self).contents() == old(self).contents(),
            final(self).limit() == old(self).limit(),
            final(self).wf(),
            final(self).written() == old(self).written(),
            final(self).taken() == old(self).taken(),
            final(self).reader_waker() == old(self).reader_waker(),
            final(self).writer_waker() is None,
    {
        self.is_closed = true;
        self.write_waker.take()
    }

    /// Reads up to `capacity` bytes. With bytes buffered, hands back the
    /// first `min(held, capacity)` of them, and, if any byte moved, the
    /// waker of a waiting writer, to be woken. With nothing buffered, hands back no bytes (the end of
    /// the stream) once the pipe is closed, and otherwise stores `waker`
    /// and is pending.
    pub fn poll_read(&mut self, capacity: usize, waker: Waker) -> (r: (PipePoll<Vec<u8>>, Option<Waker>))
        requires
            old(self).wf(),
        ensures
            final(self).limit() == old(self).limit(),
            final(self).wf(),
            final(self).written() == old(self).written(),
            r.0 matches PipePoll::Ready(data) ==> final(self).taken() == old(self).taken() + data@,
            r.0 is Pending ==> final(self).taken() == old(self).taken(),
            r.0 matches PipePoll::Ready(data) ==> (data@.len() == 0 && capacity > 0 ==> final(self).taken() == final(self).written()),
            final(self).closed() == old(self).closed(),
            old(self).contents().len() > 0 ==> {
                let k = if old(self).contents().len() <= capacity {
                    old(self).contents().len()
                } else {
                    capacity as nat
                };
                &&& r.0 matches PipePoll::Ready(data) && data@ == old(self).contents().take(k as int)
                &&& final(self).contents() == old(self).contents().skip(k as int)
                &&& final(self).reader_waker() == old(self).reader_waker()
                &&& r.1 == if k > 0 {
                    old(self).writer_waker()
                } else {
                    None
                }
                &&& final(self).writer_waker() == if k > 0 {
                    None
                } else {
                    old(self).writer_waker()
                }
            },
            old(self).contents().len() == 0 ==> r.1 is None,
            old(self).contents().len() == 0 && old(self).closed() ==> {
                &&& r.0 matches PipePoll::Ready(data) && data@.len() == 0
                &&& final(self).contents() == old(self).contents()
                &&& final(self).reader_waker() == old(self).reader_waker()
                &&& final(self).writer_waker() == old(self).writer_waker()
            },
            old(self).contents().len() == 0 && !old(self).closed() ==> {
                &&& r.0 is Pending
                &&& final(self).contents() == old(self).contents()
                &&& final(self).reader_waker() == Some(waker)
                &&& final(self).writer_waker() == old(self).writer_waker()
            },
    {
        if bytes_mut_has_remaining(&self.buffer) {
            let remaining = bytes_mut_remaining(&self.buffer);
            let max = if remaining <= capacity {
                remaining
            } else {
                capacity
            };
            let data = slice_to_vec(slice_subrange(bytes_mut_as_slice(&self.buffer), 0, max));
            bytes_mut_advance(&mut self.buffer, max);
            self.taken = Ghost(self.taken@ + data@);
            assert(self.taken@ + bytes_mut_contents(self.buffer) =~= self.written@);
            let woken = if max > 0 {
                self.write_waker.take()
            } else {
                None
            };
            (PipePoll::Ready(data), woken)
        } else if self.is_closed {
            let none: Vec<u8> = Vec::new();
            assert(self.taken@ + none@ =~= self.taken@);
            (PipePoll::Ready(none), None)
        } else {
            self.read_waker = Some(waker);
            (PipePoll::Pending, None)
        }
    }

    /// Writes as much of `data` as fits. On a closed pipe the write fails.
    /// With the buffer full, stores `waker` and is pending. Otherwise
    /// appends the first `min(data.len(), room)` bytes, and hands back how
    /// many bytes it took and the waker of a waiting reader, to be woken.
    pub fn poll_write(&mut self, data: &[u8], waker: Waker) -> (r: (
        PipePoll<Result<usize, BrokenPipe>>,
        Option<Waker>,
    ))
        requires
            old(self).wf(),
        ensures
            final(self).limit() == old(self).limit(),
            final(self).wf(),
            final(self).taken() == old(self).taken(),
            r.0 matches PipePoll::Ready(Ok(k)) ==> final(self).written() == old(self).written()
                + data@.take(k as int),
            !(r.0 matches PipePoll::Ready(Ok(_))) ==> final(self).written() == old(self).written(),
            final(self).closed() == old(self).closed(),
            !(!old(self).closed() && old(self).contents().len() < old(self).limit()) ==> r.1 is None,
            old(self).closed() ==> {
                &&& r.0 == PipePoll::<Result<usize, BrokenPipe>>::Ready(Err(BrokenPipe))
                &&& final(self).contents() == old(self).contents()
                &&& final(self).reader_waker() == old(self).reader_waker()
                &&& final(self).writer_waker() == old(self).writer_waker()
            },
            !old(self).closed() && old(self).contents().len() == old(self).limit() ==> {
                &&& r.0 is Pending
                &&& final(self).contents() == old(self).contents()
                &&& final(self).reader_waker() == old(self).reader_waker()
                &&& final(self).writer_waker() == Some(waker)
            },
            !old(self).closed() && old(self).contents().len() < old(self).limit() ==> {
                let k = accepted(old(self).contents().len(), data@.len(), old(self).limit());
                &&& k <= data@.len()
                &&& old(self).contents().len() + k <= old(self).limit()
                &&& (k == data@.len() || old(self).contents().len() + k == old(self).limit())
                &&& k == vstd::math::min(
                    data@.len() as int,
                    old(self).limit() - old(self).contents().len(),
                )
                &&& r.0 == PipePoll::<Result<usize, BrokenPipe>>::Ready(Ok(k as usize))
                &&& final(self).contents() == old(self).contents() + data@.take(k as int)
                &&& r.1 == old(self).reader_waker()
                &&& final(self).reader_waker() is None
                &&& final(self).writer_waker() == old(self).writer_waker()
            },
    {
        if self.is_closed {
            return (PipePoll::Ready(Err(BrokenPipe)), None);
        }
        let avail = self.max_buf_size - bytes_mut_len(&self.buffer);
        if avail == 0 {
            self.write_waker = Some(waker);
            return (PipePoll::Pending, None);
        }
        let len = if data.len() <= avail {
            data.len()
        } else {
            avail
        };
        let part = slice_subrange(data, 0, len);
        bytes_mut_extend_from_slice(&mut self.buffer, part);
        self.written = Ghost(self.written@ + part@);
        assert(self.taken@ + bytes_mut_contents(self.buffer) =~= self.written@);
        let woken = self.read_waker.take();
        (PipePoll::Ready(Ok(len)), woken)
    }

    /// Shuts the writing side down: the pipe closes, as `close_write`, and
    /// the waker of a waiting reader is handed back, to be woken.
    pub fn shutdown(&mut self) -> (woken: Option<Waker>)
        requires
            old(self).wf(),
        ensures
            woken == old(self).reader_waker(),
            final(self).closed(),
            final(self).contents() == old(self).contents(),
            final(self).limit() == old(self).limit(),
            final(self).wf(),
            final(self).written() == old(self).written(),
            final(self).taken() == old(self).taken(),
            final(self).reader_waker() is None,
            final(self).writer_waker() == old(self).writer_waker(),
    {
        self.close_write()
    }
}

} // verus!
