//! The bounded first-in first-out mailbox between the threads that send
//! debug messages and the one thread that writes them out.
use vstd::prelude::*;
use std::collections::VecDeque;
use crate::frame::Message;

verus! {

/// How many entries the mailbox holds at most.
pub const CHAN_MAX_MESSAGES: usize = 32;

/// What travels through the mailbox: a frame to write, or a flush marker
/// carrying the ticket of the flush that waits on it.
#[derive(Debug)]
pub enum Entry {
    NewMessage(Message),
    Flush(u64),
}

pub enum EntryModel {
    NewMessage(Seq<u8>),
    Flush(u64),
}

impl View for Entry {
    type V = EntryModel;

    open spec fn view(&self) -> EntryModel {
        match self {
            Entry::NewMessage(m) => EntryModel::NewMessage(m@),
            Entry::Flush(t) => EntryModel::Flush(*t),
        }
    }
}

/// A queue of at most `CHAN_MAX_MESSAGES` entries. Callers that find it full
/// wait for the writer to take an entry: nothing is dropped, and it never
/// grows past its bound.
pub struct Mailbox {
    queue: VecDeque<Entry>,
}

impl Mailbox {
    pub closed spec fn contents(&self) -> Seq<Entry> {
        self.queue@
    }

    pub open spec fn wf(&self) -> bool {
        self.contents().len() <= CHAN_MAX_MESSAGES
    }

    /// An empty mailbox.
    pub fn new() -> (r: Self)
        ensures
            r.wf(),
            r.contents() == Seq::<Entry>::empty(),
    {
        Mailbox { queue: VecDeque::new() }
    }

    /// Number of entries waiting.
    pub fn len(&self) -> (r: usize)
        ensures
            r == self.contents().len(),
    {
        self.queue.len()
    }

    /// Whether no further entry fits.
    pub fn is_full(&self) -> (r: bool)
        ensures
            r == (self.contents().len() >= CHAN_MAX_MESSAGES),
    {
        self.queue.len() >= CHAN_MAX_MESSAGES
    }

    /// Appends `e` at the back if there is room; hands it back otherwise.
    pub fn push(&mut self, e: Entry) -> (r: Result<(), Entry>)
        requires
            old(self).wf(),
        ensures
            final(self).wf(),
            old(self).contents().len() < CHAN_MAX_MESSAGES ==> r is Ok && final(self).contents()
                == old(self).contents().push(e),
            old(self).contents().len() >= CHAN_MAX_MESSAGES ==> r == Err::<(), Entry>(e)
                && final(self).contents() == old(self).contents(),
    {
        if self.queue.len() < CHAN_MAX_MESSAGES {
            self.queue.push_back(e);
            Ok(())
        } else {
            Err(e)
        }
    }

    /// Takes the entry at the front, the oldest one.
    pub fn pop(&mut self) -> (r: Option<Entry>)
        requires
            old(self).wf(),
        ensures
            final(self).wf(),
            old(self).contents().len() == 0 ==> r is None
                && final(self).contents() == old(self).contents(),
            old(self).contents().len() > 0 ==> r == Some(old(self).contents()[0])
                && final(self).contents() == old(self).contents().drop_first(),
    {
        self.queue.pop_front()
    }
}

/// The contents after pushing each of `es` in turn onto `s`.
pub open spec fn push_all(s: Seq<Entry>, es: Seq<Entry>) -> Seq<Entry>
    decreases es.len(),
{
    if es.len() == 0 {
        s
    } else {
        push_all(s, es.drop_last()).push(es.last())
    }
}

/// The entries that `n` pops take from contents `s`, in the order taken.
pub open spec fn pop_n(s: Seq<Entry>, n: nat) -> Seq<Entry>
    decreases n,
{
    if n == 0 || s.len() == 0 {
        Seq::empty()
    } else {
        seq![s[0]] + pop_n(s.drop_first(), (n - 1) as nat)
    }
}

proof fn lemma_push_all(s: Seq<Entry>, es: Seq<Entry>)
    ensures
        push_all(s, es) == s + es,
    decreases es.len(),
{
    if es.len() > 0 {
        lemma_push_all(s, es.drop_last());
        assert(s + es =~= (s + es.drop_last()).push(es.last()));
    }
}

proof fn lemma_pop_n(s: Seq<Entry>, n: nat)
    requires
        n <= s.len(),
    ensures
        pop_n(s, n) == s.take(n as int),
    decreases n,
{
    if n > 0 {
        lemma_pop_n(s.drop_first(), (n - 1) as nat);
        assert(seq![s[0]] + s.drop_first().take(n - 1) =~= s.take(n as int));
    }
}

/// Entries leave in the order they came: after `es` are pushed one by one
/// behind what the mailbox already holds, popping takes the earlier entries
/// first and then exactly `es`, in order.
pub proof fn first_in_first_out(s: Seq<Entry>, es: Seq<Entry>)
    ensures
        pop_n(push_all(s, es), s.len() + es.len()) == s + es,
        pop_n(push_all(Seq::empty(), es), es.len()) == es,
{
    lemma_push_all(s, es);
    lemma_pop_n(s + es, s.len() + es.len());
    assert((s + es).take((s.len() + es.len()) as int) =~= s + es);
    lemma_push_all(Seq::empty(), es);
    assert(Seq::<Entry>::empty() + es =~= es);
    lemma_pop_n(es, es.len());
    assert(es.take(es.len() as int) =~= es);
}

} // verus!
