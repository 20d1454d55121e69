//! A reader over a channel of chunks: it hands the chunks out whole, or
//! copies them into the caller's buffers, keeping what does not fit for
//! the next read.
use tokio::sync::mpsc::Receiver;
use vstd::prelude::*;
use vstd::slice::{slice_subrange, slice_to_vec};

verus! {

#[verifier::external_type_specification]
#[verifier::external_body]
#[verifier::reject_recursive_types(T)]
pub struct ExReceiver<T>(Receiver<T>);

/// Reads the chunks that arrive on a channel. Elements of a chunk that did
/// not fit into a caller's buffer wait here, ahead of anything still in the
/// channel.
#[verifier::reject_recursive_types(T)]
pub struct Reader<T> {
    output: Receiver<Vec<T>>,
    output_buf: Vec<T>,
    /// Every element of the chunks taken in through `read_received`, in
    /// order.
    received: Ghost<Seq<T>>,
    /// Every element handed out, in order.
    handed: Ghost<Seq<T>>,
}

/// `out` with its first elements replaced by `data`.
pub open spec fn overwrite_front<T>(out: Seq<T>, data: Seq<T>) -> Seq<T> {
    data + out.skip(data.len() as int)
}

impl<T: Copy> Reader<T> {
    /// The elements received and not yet handed out.
    pub closed spec fn buffered(&self) -> Seq<T> {
        self.output_buf@
    }

    /// The channel the chunks arrive on.
    pub closed spec fn channel(&self) -> Receiver<Vec<T>> {
        self.output
    }

    /// Every element of the chunks taken in through `read_received`, in
    /// order.
    pub closed spec fn received(&self) -> Seq<T> {
        self.received@
    }

    /// Every element handed out, in order.
    pub closed spec fn handed(&self) -> Seq<T> {
        self.handed@
    }

    /// The reader is well formed: what it handed out, followed by what it
    /// keeps, is what it took in.
    pub closed spec fn wf(&self) -> bool {
        self.handed@ + self.output_buf@ == self.received@
    }

    /// Elements come out of the reader in the order they came in, none lost
    /// and none made up: what was handed out is the start of what was taken
    /// in, the reader keeps the rest, and once it keeps nothing everything
    /// taken in has been handed out.
    pub proof fn lemma_in_order(r: &Reader<T>)
        requires
            r.wf(),
        ensures
            r.received() == r.handed() + r.buffered(),
            r.handed().len() <= r.received().len(),
            r.received().take(r.handed().len() as int) == r.handed(),
            r.buffered().len() == 0 ==> r.handed() == r.received(),
    {
        assert(r.received().take(r.handed().len() as int) =~= r.handed());
        if r.buffered().len() == 0 {
            assert(r.handed() + r.buffered() =~= r.handed());
        }
    }

    /// A reader of the chunks that arrive on `output`, with nothing kept.
    pub fn new(output: Receiver<Vec<T>>) -> (r: Self)
        ensures
            r.channel() == output,
            r.buffered() == Seq::<T>::empty(),
            r.received() == Seq::<T>::empty(),
            r.handed() == Seq::<T>::empty(),
            r.wf(),
    {
        let r = Reader {
            output,
            output_buf: Vec::new(),
            received: Ghost(Seq::empty()),
            handed: Ghost(Seq::empty()),
        };
        assert(r.handed@ + r.output_buf@ =~= r.received@);
        r
    }

    /// The channel, to wait on for the next chunk.
    pub fn channel_mut(&mut self) -> (r: &mut Receiver<Vec<T>>)
        ensures
            *r == old(self).channel(),
            final(self).channel() == *final(r),
            final(self).buffered() == old(self).buffered(),
            final(self).received() == old(self).received(),
            final(self).handed() == old(self).handed(),
            final(self).wf() == old(self).wf(),
    {
        &mut self.output
    }

    /// The elements kept from an earlier chunk, all of them, if there are
    /// any; the reader then keeps nothing.
    pub fn take_buffered(&mut self) -> (r: Option<Vec<T>>)
        requires
            old(self).wf(),
        ensures
            final(self).channel() == old(self).channel(),
            final(self).wf(),
            final(self).received() == old(self).received(),
            final(self).handed() == old(self).handed() + old(self).buffered(),
            old(self).buffered().len() > 0 ==> {
                &&& r matches Some(v) && v@ == old(self).buffered()
                &&& final(self).buffered() == Seq::<T>::empty()
            },
            old(self).buffered().len() == 0 ==> {
                &&& r is None
                &&& final(self).buffered() == old(self).buffered()
            },
    {
        if self.output_buf.len() > 0 {
            let mut buf: Vec<T> = Vec::new();
            std::mem::swap(&mut buf, &mut self.output_buf);
            self.handed = Ghost(self.handed@ + buf@);
            assert(self.handed@ + self.output_buf@ =~= self.received@);
            Some(buf)
        } else {
            assert(self.handed@ + self.output_buf@ =~= self.handed@);
            None
        }
    }

    /// Copies as many kept elements as fit to the front of `out`, if any
    /// are kept, and hands back how many.
    pub fn read_buffered(&mut self, out: &mut [T]) -> (r: Option<usize>)
        requires
            old(self).wf(),
        ensures
            final(self).channel() == old(self).channel(),
            final(self).wf(),
            final(self).received() == old(self).received(),
            final(self).handed() == old(self).handed() + old(self).buffered().take(
                match r {
                    Some(k) => k as int,
                    None => 0,
                },
            ),
            old(self).buffered().len() > 0 ==> {
                let k = if old(self).buffered().len() <= old(out)@.len() {
                    old(self).buffered().len()
                } else {
                    old(out)@.len()
                };
                &&& r == Some(k as usize)
                &&& final(out)@ == overwrite_front(old(out)@, old(self).buffered().take(k as int))
                &&& final(self).buffered() == old(self).buffered().skip(k as int)
            },
            old(self).buffered().len() == 0 ==> {
                &&& r is None
                &&& final(out)@ == old(out)@
                &&& final(self).buffered() == old(self).buffered()
            },
    {
        let len = self.output_buf.len();
        if len == 0 {
            assert(self.output_buf@.take(0) =~= Seq::<T>::empty());
            assert(self.handed@ + Seq::<T>::empty() =~= self.handed@);
            return None;
        }
        let k = if len <= out.len() {
            len
        } else {
            out.len()
        };
        let mut i: usize = 0;
        while i < k
            invariant
                k <= out@.len(),
                k <= self.output_buf@.len(),
                out@.len() == old(out)@.len(),
                self.output_buf@ == old(self).buffered(),
                self.output == old(self).channel(),
                self.handed == old(self).handed,
                self.received == old(self).received,
                i <= k,
                out@ =~= overwrite_front(old(out)@, self.output_buf@.take(i as int)),
            decreases k - i,
        {
            out[i] = self.output_buf[i];
            i = i + 1;
            assert(out@ =~= overwrite_front(old(out)@, self.output_buf@.take(i as int)));
        }
        let rest = slice_to_vec(slice_subrange(self.output_buf.as_slice(), k, len));
        let ghost before = self.output_buf@;
        self.output_buf = rest;
        self.handed = Ghost(self.handed@ + before.take(k as int));
        assert(self.handed@ + self.output_buf@ =~= self.received@);
        Some(k)
    }

    /// Copies a freshly received chunk to the front of `out`, once nothing
    /// is kept from an earlier chunk. The elements that do not fit are kept.
    /// Hands back how many were copied.
    pub fn read_received(&mut self, out: &mut [T], received: Vec<T>) -> (r: usize)
        requires
            old(self).wf(),
            old(self).buffered().len() == 0,
        ensures
            final(self).channel() == old(self).channel(),
            final(self).wf(),
            final(self).received() == old(self).received() + received@,
            final(self).handed() == old(self).handed() + received@.take(r as int),
            r <= old(out)@.len(),
            received@.len() <= old(out)@.len() ==> {
                &&& r == received@.len()
                &&& final(out)@ == overwrite_front(old(out)@, received@)
                &&& final(self).buffered() == old(self).buffered()
            },
            received@.len() > old(out)@.len() ==> {
                &&& r == old(out)@.len()
                &&& final(out)@ == received@.take(old(out)@.len() as int)
                &&& final(self).buffered() == received@.skip(
                    old(out)@.len() as int,
                )
            },
    {
        let k = if received.len() <= out.len() {
            received.len()
        } else {
            out.len()
        };
        let mut i: usize = 0;
        while i < k
            invariant
                k <= out@.len(),
                k <= received@.len(),
                k == received@.len() || k == out@.len(),
                out@.len() == old(out)@.len(),
                self.output_buf@ == old(self).buffered(),
                self.output == old(self).channel(),
                i <= k,
                out@ =~= overwrite_front(old(out)@, received@.take(i as int)),
            decreases k - i,
        {
            out[i] = received[i];
            i = i + 1;
            assert(out@ =~= overwrite_front(old(out)@, received@.take(i as int)));
        }
        if k < received.len() {
            assert(out@ =~= received@.take(k as int));
            let mut tail = slice_to_vec(slice_subrange(received.as_slice(), k, received.len()));
            assert(tail@ =~= received@.skip(k as int));
            self.output_buf.append(&mut tail);
        }
        self.handed = Ghost(self.handed@ + received@.take(k as int));
        self.received = Ghost(self.received@ + received@);
        assert(self.handed@ + self.output_buf@ =~= self.received@);
        k
    }
}

} // verus!
