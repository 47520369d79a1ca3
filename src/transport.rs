//! The sending side's writer: takes entries from the mailbox one at a time
//! and decides what to write to the connected viewer. A frame whose write
//! fails stays pending and is written again, in full, to the next viewer
//! before anything newer.
use vstd::prelude::*;
use crate::frame::Message;
use crate::mailbox::{Entry, EntryModel};
use vstd::slice::slice_subrange;

verus! {

/// Where the writer stands with its connection.
#[derive(Clone, Copy, Debug, PartialEq, Eq)]
pub enum Link {
    /// No viewer: the next step is to accept one.
    Listening,
    /// A viewer was accepted: the handshake byte is to be written.
    Handshake,
    /// The handshake went out: frames can be written.
    Ready,
}

/// What the caller is to do next.
#[derive(Clone, Copy, Debug, PartialEq, Eq)]
pub enum Step {
    /// Wait for a viewer to connect.
    Accept,
    /// Write the protocol version byte.
    Handshake,
    /// Write the unwritten rest of the pending frame.
    Write,
    /// Take the next entry from the mailbox (waiting for one).
    Receive,
}

pub struct ManagerView {
    pub link: Link,
    /// The frame being written, if any.
    pub pending: Option<Seq<u8>>,
    /// How much of the pending frame the current viewer has.
    pub written: nat,
    /// Every entry taken from the mailbox, in order.
    pub received: Seq<EntryModel>,
    /// Every frame written in full to a viewer, in order.
    pub delivered: Seq<Seq<u8>>,
}

/// The frames among `es`, in order.
pub open spec fn frames_of(es: Seq<EntryModel>) -> Seq<Seq<u8>>
    decreases es.len(),
{
    if es.len() == 0 {
        Seq::empty()
    } else {
        match es.last() {
            EntryModel::NewMessage(f) => frames_of(es.drop_last()).push(f),
            EntryModel::Flush(_) => frames_of(es.drop_last()),
        }
    }
}

pub open spec fn pending_seq(p: Option<Seq<u8>>) -> Seq<Seq<u8>> {
    match p {
        Some(f) => seq![f],
        None => Seq::empty(),
    }
}

/// The writer's invariant: a pending frame is never empty and is never
/// written past its end, and every frame taken is either delivered or is the
/// one pending, in the order taken.
pub open spec fn manager_wf(v: ManagerView) -> bool {
    &&& v.pending matches Some(f) ==> v.written < f.len()
    &&& v.pending is None ==> v.written == 0
    &&& v.link != Link::Ready ==> v.written == 0
    &&& frames_of(v.received) == v.delivered + pending_seq(v.pending)
}

pub open spec fn step_of(v: ManagerView) -> Step {
    match v.link {
        Link::Listening => Step::Accept,
        Link::Handshake => Step::Handshake,
        Link::Ready => if v.pending is Some {
            Step::Write
        } else {
            Step::Receive
        },
    }
}

pub open spec fn after_accept(v: ManagerView) -> ManagerView {
    ManagerView { link: Link::Handshake, ..v }
}

pub open spec fn after_handshake(v: ManagerView, ok: bool) -> ManagerView {
    ManagerView { link: if ok { Link::Ready } else { Link::Listening }, ..v }
}

/// The connection failed: back to listening, with the pending frame to be
/// written again from its start.
pub open spec fn after_failure(v: ManagerView) -> ManagerView {
    ManagerView { link: Link::Listening, written: 0, ..v }
}

pub open spec fn after_entry(v: ManagerView, e: EntryModel) -> ManagerView {
    let received = v.received.push(e);
    match e {
        EntryModel::NewMessage(f) => if f.len() == 0 {
            ManagerView { received, delivered: v.delivered.push(f), ..v }
        } else {
            ManagerView { received, pending: Some(f), written: 0, ..v }
        },
        EntryModel::Flush(_) => ManagerView { received, ..v },
    }
}

/// `n` more bytes of the pending frame were written; none at all means the
/// viewer takes no more, which counts as a failed connection.
pub open spec fn after_write(v: ManagerView, n: nat) -> ManagerView {
    if n == 0 {
        after_failure(v)
    } else if v.written + n == v.pending->Some_0.len() {
        ManagerView {
            pending: None,
            written: 0,
            delivered: v.delivered.push(v.pending->Some_0),
            ..v
        }
    } else {
        ManagerView { written: v.written + n, ..v }
    }
}

/// The writer of one mailbox: its connection state, the pending frame, and
/// (as ghost state) what it has taken and delivered.
pub struct Manager {
    link: Link,
    pending: Option<Message>,
    written: usize,
    received: Ghost<Seq<EntryModel>>,
    delivered: Ghost<Seq<Seq<u8>>>,
}

impl View for Manager {
    type V = ManagerView;

    closed spec fn view(&self) -> ManagerView {
        ManagerView {
            link: self.link,
            pending: match self.pending {
                Some(m) => Some(m@),
                None => None,
            },
            written: self.written as nat,
            received: self.received@,
            delivered: self.delivered@,
        }
    }
}

impl Manager {
    /// A writer with no viewer and nothing taken yet.
    pub fn new() -> (r: Self)
        ensures
            manager_wf(r@),
            r@.link == Link::Listening,
            r@.pending is None,
            r@.received == Seq::<EntryModel>::empty(),
            r@.delivered == Seq::<Seq<u8>>::empty(),
    {
        Manager {
            link: Link::Listening,
            pending: None,
            written: 0,
            received: Ghost(Seq::empty()),
            delivered: Ghost(Seq::empty()),
        }
    }

    /// What the caller is to do next.
    pub fn next_step(&self) -> (r: Step)
        ensures
            r == step_of(self@),
    {
        match self.link {
            Link::Listening => Step::Accept,
            Link::Handshake => Step::Handshake,
            Link::Ready => if self.pending.is_some() {
                Step::Write
            } else {
                Step::Receive
            },
        }
    }

    /// A viewer connected.
    pub fn on_accepted(&mut self)
        requires
            manager_wf(old(self)@),
            old(self)@.link == Link::Listening,
        ensures
            manager_wf(final(self)@),
            final(self)@ == after_accept(old(self)@),
    {
        self.link = Link::Handshake;
    }

    /// The handshake byte was written (`ok`) or could not be.
    pub fn on_handshake(&mut self, ok: bool)
        requires
            manager_wf(old(self)@),
            old(self)@.link == Link::Handshake,
        ensures
            manager_wf(final(self)@),
            final(self)@ == after_handshake(old(self)@, ok),
    {
        self.link = if ok {
            Link::Ready
        } else {
            Link::Listening
        };
    }

    /// Writing to the viewer failed: the pending frame stays, to be written
    /// again from its start once another viewer connects.
    pub fn on_write_failed(&mut self)
        requires
            manager_wf(old(self)@),
        ensures
            manager_wf(final(self)@),
            final(self)@ == after_failure(old(self)@),
    {
        self.link = Link::Listening;
        self.written = 0;
    }

    /// Takes an entry from the mailbox. A flush marker is answered at once
    /// with its ticket: every frame taken before it has been written.
    pub fn on_entry(&mut self, e: Entry) -> (r: Option<u64>)
        requires
            manager_wf(old(self)@),
            old(self)@.link == Link::Ready,
            old(self)@.pending is None,
        ensures
            manager_wf(final(self)@),
            final(self)@ == after_entry(old(self)@, e@),
            r == match e@ {
                EntryModel::Flush(t) => Some(t),
                _ => None::<u64>,
            },
    {
        let ghost received = self.received@.push(e@);
        proof {
            assert(received.drop_last() =~= self.received@);
        }
        match e {
            Entry::NewMessage(m) => {
                if m.as_slice().len() == 0 {
                    self.delivered = Ghost(self.delivered@.push(m@));
                } else {
                    self.pending = Some(m);
                    self.written = 0;
                }
                self.received = Ghost(received);
                None
            },
            Entry::Flush(t) => {
                self.received = Ghost(received);
                Some(t)
            },
        }
    }

    /// The part of the pending frame the viewer does not have yet.
    pub fn unwritten(&self) -> (r: &[u8])
        requires
            manager_wf(self@),
            self@.pending is Some,
        ensures
            r@ == self@.pending->Some_0.subrange(self@.written as int, self@.pending->Some_0.len() as int),
            r@.len() > 0,
    {
        match &self.pending {
            Some(m) => {
                let s = m.as_slice();
                slice_subrange(s, self.written, s.len())
            },
            None => {
                assert(false);
                slice_subrange(&[], 0, 0)
            },
        }
    }

    /// `n` bytes of what `unwritten` gave were written.
    pub fn on_written(&mut self, n: usize)
        requires
            manager_wf(old(self)@),
            old(self)@.link == Link::Ready,
            old(self)@.pending matches Some(f) && old(self)@.written + n <= f.len(),
        ensures
            manager_wf(final(self)@),
            final(self)@ == after_write(old(self)@, n as nat),
    {
        if n == 0 {
            self.link = Link::Listening;
            self.written = 0;
            return;
        }
        let len = match &self.pending {
            Some(m) => m.as_slice().len(),
            None => 0,
        };
        if self.written + n == len {
            let ghost f = self@.pending->Some_0;
            self.pending = None;
            self.written = 0;
            self.delivered = Ghost(self.delivered@.push(f));
            proof {
                assert(self.delivered@ + pending_seq(None) =~= old(self)@.delivered + seq![f]);
            }
        } else {
            self.written = self.written + n;
        }
    }
}

/// A frame whose write fails is not lost or changed: after the failure and
/// however many viewers fail the handshake, the next viewer that takes it
/// is first given that very frame, from its first byte.
pub proof fn failed_frame_is_resent_first(v: ManagerView, tries: nat)
    requires
        manager_wf(v),
        v.pending is Some,
    ensures
        ({
            let w = failed_handshakes(after_failure(v), tries);
            let u = after_handshake(after_accept(w), true);
            &&& manager_wf(u)
            &&& u.pending == v.pending
            &&& u.written == 0
            &&& step_of(u) == Step::Write
        }),
    decreases tries,
{
    if tries > 0 {
        failed_frame_is_resent_first(v, (tries - 1) as nat);
    }
}

/// `tries` viewers in a row connect and fail the handshake.
pub open spec fn failed_handshakes(v: ManagerView, tries: nat) -> ManagerView
    decreases tries,
{
    if tries == 0 {
        v
    } else {
        after_handshake(after_accept(failed_handshakes(v, (tries - 1) as nat)), false)
    }
}

/// A flush marker is answered only once every frame taken before it has been
/// written in full to a viewer: at that point the frames delivered are
/// exactly the frames of all entries taken, in the order taken.
pub proof fn flush_waits_for_earlier_frames(v: ManagerView, t: u64)
    requires
        manager_wf(v),
        v.link == Link::Ready,
        v.pending is None,
    ensures
        after_entry(v, EntryModel::Flush(t)).delivered == frames_of(
            after_entry(v, EntryModel::Flush(t)).received,
        ),
{
    let w = after_entry(v, EntryModel::Flush(t));
    assert(w.received.drop_last() =~= v.received);
    assert(v.delivered + pending_seq(None) =~= v.delivered);
}

/// Without a viewer that has taken the handshake the writer takes nothing
/// from the mailbox, so no flush marker is answered while no viewer is
/// connected.
pub proof fn no_viewer_no_flush_answer(v: ManagerView)
    requires
        v.link != Link::Ready,
    ensures
        step_of(v) != Step::Receive,
        step_of(v) != Step::Write,
{
}

} // verus!
