//! The decisions of a multiplexor: how the reading side routes each
//! received frame among the open channels, what the pump that drains a
//! channel's pipe sends, and the frames that open and accept channels.
use vstd::prelude::*;
use vstd::slice::{slice_subrange, slice_to_vec};

use crate::frame::{Frame, FrameModel, StreamId};
use crate::pipe::Pipe;
use crate::streams::StreamMap;

verus! {

#[verifier::external_type_specification]
#[verifier::external_body]
pub struct ExIoError(std::io::Error);

/// The receive window granted to every channel, and the size of the pipe
/// that buffers a channel's incoming bytes.
pub const DEFAULT_REM_WIN_SIZE: usize = 102400;

/// The most bytes the pump takes from a channel's pipe at a time.
pub const READ_CHUNK_SIZE: usize = 2048;

/// The window granted for a channel: the size the peer announced, or the
/// default when it announced none.
pub open spec fn window_of(window_size: Option<u64>) -> usize {
    match window_size {
        Some(w) => w as usize,
        None => DEFAULT_REM_WIN_SIZE,
    }
}

/// A channel gets exactly the window the peer announced, whatever its
/// size, and the default only when the peer announced none. So every
/// window that `route` hands out for an `Offer` or `OfferAccepted` is the
/// announced size itself.
pub proof fn lemma_announced_window(w: u64)
    ensures
        window_of(Some(w)) == w as usize,
        window_of(None) == DEFAULT_REM_WIN_SIZE,
{
}

/// The window granted for a channel: the size the peer announced, or the
/// default when it announced none.
pub fn initial_window(window_size: Option<u64>) -> (r: usize)
    ensures
        r == window_of(window_size),
        window_size matches Some(w) ==> r == w as usize,
        window_size is None ==> r == DEFAULT_REM_WIN_SIZE,
{
    match window_size {
        Some(w) => w as usize,
        None => DEFAULT_REM_WIN_SIZE,
    }
}

/// The channel number a fresh local channel gets from the offer counter.
pub fn local_id(counter: usize) -> (r: StreamId)
    ensures
        r == StreamId::Local(counter as u64),
{
    StreamId::Local(counter as u64)
}

/// Distinct counter values give distinct channels, so offers that draw
/// distinct values from the counter open distinct channels; each is a
/// local channel numbered by its value.
pub proof fn lemma_local_ids_distinct(a: usize, b: usize)
    requires
        a != b,
    ensures
        StreamId::Local(a as u64) != StreamId::Local(b as u64),
{
}

/// The frame that offers the peer a new channel: it announces the default
/// window.
pub fn offer_frame(id: StreamId, name: String) -> (r: Frame)
    ensures
        r@ == (FrameModel::Offer {
            id,
            name: name@,
            window_size: Some(DEFAULT_REM_WIN_SIZE as u64),
        }),
{
    Frame::Offer { id, name, window_size: Some(DEFAULT_REM_WIN_SIZE as u64) }
}

/// The frame that accepts a channel the peer offered: it announces the
/// default window.
pub fn accept_frame(id: StreamId) -> (r: Frame)
    ensures
        r@ == (FrameModel::OfferAccepted { id, rem_window_size: Some(DEFAULT_REM_WIN_SIZE as u64) }),
{
    Frame::OfferAccepted { id, rem_window_size: Some(DEFAULT_REM_WIN_SIZE as u64) }
}

/// A channel this side offered and the peer has not accepted yet.
#[derive(Debug)]
pub struct Outcoming {
    pub id: StreamId,
    pub name: String,
}

/// What the reading side does about a received frame.
pub enum Route<W, L> {
    /// The peer offers a channel: open its pipe with `window` bytes of
    /// credit, `attach` the pipe's writer, and hand the channel out.
    Incoming { id: StreamId, name: String, window: usize },
    /// The peer accepted a channel this side offered, and here is the offer
    /// with whoever waits for it: open its pipe, `attach` it and answer.
    Accepted { id: StreamId, window: usize, outcoming: Outcoming, listener: L },
    /// The peer accepted a channel whose offer has not been seen here yet:
    /// drain the queue of new offers through `settle`.
    Unmatched { id: StreamId, window: usize },
    /// Bytes for an open channel: write them to `writer`, then report with
    /// `delivered`.
    Deliver { id: StreamId, payload: Vec<u8>, writer: W },
    /// The peer processed `amount` bytes of an open channel: add them to
    /// the channel's window.
    Credit { id: StreamId, amount: usize },
    /// The peer finished writing to the channel or terminated it: it is no
    /// longer open, and `dropped` is what its incoming bytes went to, if
    /// anything, to be shut down so that its reader reaches the end of the
    /// stream once it has read what is buffered.
    Closed { id: StreamId, dropped: Option<W> },
    /// The frame concerns no open channel.
    Ignored,
}

/// What the pump of a channel hands to the writing side.
#[derive(Debug)]
pub enum WriteMsg {
    Content { id: StreamId, payload: Vec<u8> },
    Error { id: StreamId, error: PumpError },
}

/// Why the pump of a channel stopped.
#[derive(Debug)]
pub enum PumpError {
    /// A read of the pipe filled nothing ("read zero buffer"): the pipe's
    /// stream has ended.
    ZeroRead,
    /// A read of the pipe failed with this error.
    Io(std::io::Error),
}

/// The routing state of the reading side: the open channels with what
/// their incoming bytes go to, and this side's offers that wait to be
/// accepted.
pub struct Router<W, L> {
    streams: StreamMap<W>,
    pending: StreamMap<(Outcoming, L)>,
}

impl<W, L> Router<W, L> {
    /// The open channels.
    pub closed spec fn streams(&self) -> Map<StreamId, W> {
        self.streams@
    }

    /// This side's offers that wait for the peer's acceptance.
    pub closed spec fn pending(&self) -> Map<StreamId, (Outcoming, L)> {
        self.pending@
    }

    /// No channel open, no offer waiting.
    pub fn new() -> (r: Self)
        ensures
            r.streams() == Map::<StreamId, W>::empty(),
            r.pending() == Map::<StreamId, (Outcoming, L)>::empty(),
    {
        Router { streams: StreamMap::new(), pending: StreamMap::new() }
    }

    /// Decides what to do about a received frame, taking out of the state
    /// what the action needs.
    pub fn route(&mut self, frame: Frame) -> (r: Route<W, L>)
        ensures
            match frame@ {
                FrameModel::Offer { id, name, window_size } => {
                    &&& r matches Route::Incoming { id: i, name: n, window: w } && i == id && n@
                        == name && w == window_of(window_size) && (match window_size {
                        Some(announced) => w == announced as usize,
                        None => w == DEFAULT_REM_WIN_SIZE,
                    })
                    &&& final(self).streams() == old(self).streams()
                    &&& final(self).pending() == old(self).pending()
                },
                FrameModel::OfferAccepted { id, rem_window_size } => {
                    &&& final(self).streams() == old(self).streams()
                    &&& final(self).pending() == old(self).pending().remove(id)
                    &&& if old(self).pending().contains_key(id) {
                        r matches Route::Accepted { id: i, window: w, outcoming: o, listener: l }
                            && i == id && w == window_of(rem_window_size) && (match rem_window_size {
                            Some(announced) => w == announced as usize,
                            None => w == DEFAULT_REM_WIN_SIZE,
                        }) && (o, l) == old(
                            self,
                        ).pending()[id]
                    } else {
                        r matches Route::Unmatched { id: i, window: w } && i == id && w
                            == window_of(rem_window_size) && (match rem_window_size {
                            Some(announced) => w == announced as usize,
                            None => w == DEFAULT_REM_WIN_SIZE,
                        })
                    }
                },
                FrameModel::Content { id, payload } => {
                    &&& final(self).streams() == old(self).streams().remove(id)
                    &&& final(self).pending() == old(self).pending()
                    &&& if old(self).streams().contains_key(id) {
                        r matches Route::Deliver { id: i, payload: p, writer: w } && i == id && p@
                            == payload && w == old(self).streams()[id]
                    } else {
                        r is Ignored
                    }
                },
                FrameModel::ContentProcessed { id, processed } => {
                    &&& final(self).streams() == old(self).streams()
                    &&& final(self).pending() == old(self).pending()
                    &&& if old(self).streams().contains_key(id) {
                        r matches Route::Credit { id: i, amount } && i == id && amount
                            == processed as usize
                    } else {
                        r is Ignored
                    }
                },
                FrameModel::ContentWritingCompleted { id } | FrameModel::ChannelTerminated {
                    id,
                } => {
                    &&& final(self).streams() == old(self).streams().remove(id)
                    &&& final(self).pending() == old(self).pending()
                    &&& r matches Route::Closed { id: i, dropped } && i == id && if old(
                        self,
                    ).streams().contains_key(id) {
                        dropped == Some(old(self).streams()[id])
                    } else {
                        dropped is None
                    }
                },
            },
    {
        match frame {
            Frame::Offer { id, name, window_size } => Route::Incoming {
                id,
                name,
                window: initial_window(window_size),
            },
            Frame::OfferAccepted { id, rem_window_size } => {
                let window = initial_window(rem_window_size);
                match self.pending.remove(id) {
                    Some((outcoming, listener)) => Route::Accepted {
                        id,
                        window,
                        outcoming,
                        listener,
                    },
                    None => Route::Unmatched { id, window },
                }
            },
            Frame::Content { id, payload } => match self.streams.remove(id) {
                Some(writer) => Route::Deliver { id, payload, writer },
                None => Route::Ignored,
            },
            Frame::ContentProcessed { id, processed } => match self.streams.get(id) {
                Some(_) => Route::Credit { id, amount: processed as usize },
                None => Route::Ignored,
            },
            Frame::ContentWritingCompleted { id } => Route::Closed {
                id,
                dropped: self.streams.remove(id),
            },
            Frame::ChannelTerminated { id } => Route::Closed {
                id,
                dropped: self.streams.remove(id),
            },
        }
    }

    /// Opens channel `id`: its incoming bytes go to `writer`.
    pub fn attach(&mut self, id: StreamId, writer: W)
        ensures
            final(self).streams() == old(self).streams().insert(id, writer),
            final(self).pending() == old(self).pending(),
    {
        self.streams.insert(id, writer);
    }

    /// One offer taken from the queue of new offers while looking for the
    /// one the peer accepted as `accepted`: it is handed back when it is
    /// that one, and otherwise kept waiting for its own acceptance.
    pub fn settle(&mut self, accepted: StreamId, outcoming: Outcoming, listener: L) -> (r: Option<
        (Outcoming, L),
    >)
        ensures
            final(self).streams() == old(self).streams(),
            outcoming.id == accepted ==> {
                &&& r == Some((outcoming, listener))
                &&& final(self).pending() == old(self).pending()
            },
            outcoming.id != accepted ==> {
                &&& r is None
                &&& final(self).pending() == old(self).pending().insert(
                    outcoming.id,
                    (outcoming, listener),
                )
            },
    {
        if outcoming.id == accepted {
            Some((outcoming, listener))
        } else {
            let key = outcoming.id;
            self.pending.insert(key, (outcoming, listener));
            None
        }
    }

    /// Reports how writing `len` delivered bytes to channel `id` went, and
    /// gives the frame to send back: when they were written, the channel
    /// stays open with `writer` and the peer learns that `len` bytes were
    /// processed; otherwise the channel is terminated.
    pub fn delivered(&mut self, id: StreamId, writer: W, written: bool, len: usize) -> (r: Frame)
        ensures
            final(self).pending() == old(self).pending(),
            written ==> {
                &&& final(self).streams() == old(self).streams().insert(id, writer)
                &&& r@ == (FrameModel::ContentProcessed { id, processed: len as i64 })
            },
            !written ==> {
                &&& final(self).streams() == old(self).streams()
                &&& r@ == (FrameModel::ChannelTerminated { id })
            },
    {
        if written {
            self.streams.insert(id, writer);
            Frame::ContentProcessed { id, processed: len as i64 }
        } else {
            Frame::ChannelTerminated { id }
        }
    }

    /// What channel `id`'s incoming bytes go to, if it is open.
    pub fn stream(&self, id: StreamId) -> (r: Option<&W>)
        ensures
            match r {
                Some(w) => self.streams().contains_key(id) && self.streams()[id] == *w,
                None => !self.streams().contains_key(id),
            },
    {
        self.streams.get(id)
    }
}

/// A delivery that succeeds leaves the open channels as they were: routing
/// the content takes the channel's writer out, and reporting the write puts
/// that same writer back.
pub proof fn lemma_delivery_restores<W>(streams: Map<StreamId, W>, id: StreamId)
    requires
        streams.contains_key(id),
    ensures
        streams.remove(id).insert(id, streams[id]) == streams,
{
    assert(streams.remove(id).insert(id, streams[id]) =~= streams);
}

/// How many bytes the pump may take from the pipe next with `window` bytes
/// of credit: as many as the window allows, at most a chunk.
pub open spec fn budget(window: nat) -> nat {
    if window <= READ_CHUNK_SIZE {
        window
    } else {
        READ_CHUNK_SIZE as nat
    }
}

/// How many bytes the pump may take from the pipe next: as many as the
/// peer's window allows, at most a chunk. Zero means it has to wait for
/// credit.
pub fn read_budget(window: usize) -> (r: usize)
    ensures
        r == budget(window as nat),
{
    if window <= READ_CHUNK_SIZE {
        window
    } else {
        READ_CHUNK_SIZE
    }
}

/// One change to a channel's window: the pump sent bytes, or the peer
/// reported bytes processed.
pub enum WindowEvent {
    Sent(nat),
    Granted(nat),
}

/// The window after the events, from `start`.
pub open spec fn window_after(start: int, events: Seq<WindowEvent>) -> int
    decreases events.len(),
{
    if events.len() == 0 {
        start
    } else {
        let w = window_after(start, events.drop_last());
        match events.last() {
            WindowEvent::Sent(n) => w - n,
            WindowEvent::Granted(n) => w + n,
        }
    }
}

pub open spec fn sent_total(events: Seq<WindowEvent>) -> int
    decreases events.len(),
{
    if events.len() == 0 {
        0
    } else {
        sent_total(events.drop_last()) + match events.last() {
            WindowEvent::Sent(n) => n as int,
            WindowEvent::Granted(_) => 0,
        }
    }
}

pub open spec fn granted_total(events: Seq<WindowEvent>) -> int
    decreases events.len(),
{
    if events.len() == 0 {
        0
    } else {
        granted_total(events.drop_last()) + match events.last() {
            WindowEvent::Sent(_) => 0,
            WindowEvent::Granted(n) => n as int,
        }
    }
}

/// Every send took no more than `read_budget` allowed with the window as
/// it stood.
pub open spec fn paced(start: int, events: Seq<WindowEvent>) -> bool {
    forall|i: int|
        0 <= i < events.len() ==> match #[trigger] events[i] {
            WindowEvent::Sent(n) => window_after(start, events.take(i)) >= 0 && n <= budget(
                window_after(start, events.take(i)) as nat,
            ),
            WindowEvent::Granted(_) => true,
        }
}

/// A send sized by the window the pump saw is paced by the window as it
/// stands when the bytes leave: the peer's credit only raises the window
/// in between, and the budget never shrinks as the window grows.
pub proof fn lemma_budget_grows(seen: nat, now: nat, n: nat)
    requires
        seen <= now,
        n <= budget(seen),
    ensures
        n <= budget(now),
{
}

/// Flow control: a pump that sends no more than `read_budget` allows never
/// overdraws its window, and all it has sent stays within the window it
/// started with plus all the credit the peer granted since.
pub proof fn lemma_within_credit(start: int, events: Seq<WindowEvent>)
    requires
        start >= 0,
        paced(start, events),
    ensures
        window_after(start, events) >= 0,
        window_after(start, events) == start + granted_total(events) - sent_total(events),
        sent_total(events) <= start + granted_total(events),
    decreases events.len(),
{
    if events.len() > 0 {
        let prev = events.drop_last();
        assert forall|i: int| 0 <= i < prev.len() implies match #[trigger] prev[i] {
            WindowEvent::Sent(n) => window_after(start, prev.take(i)) >= 0 && n <= budget(
                window_after(start, prev.take(i)) as nat,
            ),
            WindowEvent::Granted(_) => true,
        } by {
            assert(prev[i] == events[i]);
            assert(prev.take(i) =~= events.take(i));
        }
        lemma_within_credit(start, prev);
        let last = events.len() - 1;
        assert(events.take(last) =~= prev);
        assert(events[last] == events.last());
    }
}

/// What the pump of channel `id` sends after reading from the pipe into
/// `buf`, and whether it stops: the bytes it read, or, once the pipe ends
/// or fails, an error that terminates the channel.
pub fn pump_message(id: StreamId, read: Result<usize, std::io::Error>, buf: &[u8]) -> (r: (
    WriteMsg,
    bool,
))
    requires
        read matches Ok(n) ==> n <= buf@.len(),
    ensures
        match read {
            Ok(n) => if n == 0 {
                r == (WriteMsg::Error { id, error: PumpError::ZeroRead }, true)
            } else {
                r.0 matches WriteMsg::Content { id: i, payload } && i == id && payload@ == buf@.take(
                    n as int,
                ) && !r.1
            },
            Err(e) => r == (WriteMsg::Error { id, error: PumpError::Io(e) }, true),
        },
{
    match read {
        Ok(n) => if n == 0 {
            (WriteMsg::Error { id, error: PumpError::ZeroRead }, true)
        } else {
            let payload = slice_to_vec(slice_subrange(buf, 0, n));
            (WriteMsg::Content { id, payload }, false)
        },
        Err(e) => (WriteMsg::Error { id, error: PumpError::Io(e) }, true),
    }
}

/// The pump of a channel sends, in order, the start of what was written
/// into the channel's pipe, nothing lost, repeated or made up. Each payload
/// it sends is the bytes one read of the pipe handed out (`pump_message`
/// sends `buf[..n]` of the read, `Pipe::poll_read` hands out the next bytes
/// it holds and adds them to what it has handed out), so the payloads sent
/// so far, joined, are the start of what the pipe has handed out. They are
/// then the start of what was written into the pipe, and all of it once the
/// pipe has handed out everything and holds nothing.
pub proof fn lemma_pump_in_order(pipe: &Pipe, payloads: Seq<Seq<u8>>)
    requires
        pipe.wf(),
        payloads.flatten().len() <= pipe.taken().len(),
        pipe.taken().take(payloads.flatten().len() as int) == payloads.flatten(),
    ensures
        payloads.flatten().len() <= pipe.written().len(),
        pipe.written().take(payloads.flatten().len() as int) == payloads.flatten(),
        payloads.flatten() == pipe.taken() && pipe.contents().len() == 0 ==> payloads.flatten()
            == pipe.written(),
{
    Pipe::lemma_in_order(pipe);
    let k = payloads.flatten().len() as int;
    assert(pipe.written().take(k) =~= pipe.taken().take(k));
    if pipe.contents().len() == 0 {
        assert(pipe.taken() + pipe.contents() =~= pipe.taken());
    }
}

/// The frame the writing side sends for a message from a pump: the bytes
/// as content, or, for an error, the termination of the channel.
pub fn frame_for(msg: WriteMsg) -> (r: Frame)
    ensures
        match msg {
            WriteMsg::Content { id, payload } => r@ == (FrameModel::Content {
                id,
                payload: payload@,
            }),
            WriteMsg::Error { id, .. } => r@ == (FrameModel::ChannelTerminated { id }),
        },
{
    match msg {
        WriteMsg::Content { id, payload } => Frame::Content { id, payload },
        WriteMsg::Error { id, .. } => Frame::ChannelTerminated { id },
    }
}

} // verus!
