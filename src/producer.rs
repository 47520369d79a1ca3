//! What the sending program calls: the choice of port for the process, the
//! flush marker, and the thread id as frames carry it.
use vstd::prelude::*;
use vstd::string::StrSliceExecFns;
use crate::mailbox::{Entry, Mailbox, CHAN_MAX_MESSAGES};

verus! {

/// The port listened on when the program names none.
pub const DEFAULT_PORT: u16 = 13579;

/// The port the process listens on, once someone has asked for one.
pub struct Registry {
    port: Option<u16>,
}

impl Registry {
    pub closed spec fn chosen(&self) -> Option<u16> {
        self.port
    }

    /// No port chosen yet.
    pub fn new() -> (r: Self)
        ensures
            r.chosen() is None,
    {
        Registry { port: None }
    }

    /// The port chosen so far, if any.
    pub fn chosen_port(&self) -> (r: Option<u16>)
        ensures
            r == self.chosen(),
    {
        self.port
    }
}

/// The port the process listens on: the first caller's choice is final, and
/// every later caller gets it whatever it asks for.
pub fn port(registry: &mut Registry, requested: u16) -> (r: u16)
    ensures
        old(registry).chosen() is None ==> r == requested,
        old(registry).chosen() matches Some(p) ==> r == p,
        final(registry).chosen() == Some(r),
{
    match registry.port {
        Some(p) => p,
        None => {
            registry.port = Some(requested);
            requested
        },
    }
}

/// Puts a flush marker with `ticket` behind everything already in the
/// mailbox. Where the mailbox is full the marker is handed back: the caller
/// waits for room and tries again.
pub fn flush(mailbox: &mut Mailbox, ticket: u64) -> (r: Result<(), Entry>)
    requires
        old(mailbox).wf(),
    ensures
        final(mailbox).wf(),
        old(mailbox).contents().len() < CHAN_MAX_MESSAGES ==> r is Ok && final(mailbox).contents()
            == old(mailbox).contents().push(Entry::Flush(ticket)),
        old(mailbox).contents().len() >= CHAN_MAX_MESSAGES ==> r == Err::<(), Entry>(
            Entry::Flush(ticket),
        ) && final(mailbox).contents() == old(mailbox).contents(),
{
    mailbox.push(Entry::Flush(ticket))
}

pub open spec fn is_paren(c: char) -> bool {
    c == '(' || c == ')'
}

pub open spec fn thread_id_prefix() -> Seq<char> {
    seq!['T', 'h', 'r', 'e', 'a', 'd', 'I', 'd']
}

/// The index of the first parenthesis in `s` at or after `from`, or the
/// length of `s` where there is none.
pub open spec fn next_paren(s: Seq<char>, from: int) -> int
    decreases s.len() - from,
{
    if from >= s.len() {
        s.len() as int
    } else if is_paren(s[from]) {
        from
    } else {
        next_paren(s, from + 1)
    }
}

/// The thread id as frames carry it: the number inside `ThreadId(<n>)`,
/// or the text unchanged where it has another shape. Split at every
/// parenthesis, the text must begin with the pieces `ThreadId`, the id and
/// an empty piece.
pub open spec fn thread_id_of(s: Seq<char>) -> Seq<char> {
    let j = next_paren(s, 9);
    if s.len() >= 9 && s.take(8) == thread_id_prefix() && is_paren(s[8]) && j < s.len() && (j + 1
        == s.len() || is_paren(s[j + 1])) {
        s.subrange(9, j)
    } else {
        s
    }
}

fn is_paren_char(c: char) -> (r: bool)
    ensures
        r == is_paren(c),
{
    c == '(' || c == ')'
}

/// The thread id as frames carry it, from the debug text of a thread's id.
pub fn parse_thread_id(thread_id: String) -> (r: String)
    ensures
        r@ == thread_id_of(thread_id@),
{
    let s = thread_id.as_str();
    let n = s.unicode_len();
    if n < 9 {
        return thread_id;
    }
    let prefix = s.get_char(0) == 'T' && s.get_char(1) == 'h' && s.get_char(2) == 'r' && s.get_char(
        3,
    ) == 'e' && s.get_char(4) == 'a' && s.get_char(5) == 'd' && s.get_char(6) == 'I'
        && s.get_char(7) == 'd';
    proof {
        assert(prefix ==> s@.take(8) =~= thread_id_prefix());
        assert(s@.take(8) == thread_id_prefix() ==> s@.take(8)[0] == 'T' && s@.take(8)[1] == 'h'
            && s@.take(8)[2] == 'r' && s@.take(8)[3] == 'e' && s@.take(8)[4] == 'a' && s@.take(
        8)[5] == 'd' && s@.take(8)[6] == 'I' && s@.take(8)[7] == 'd');
    }
    if !prefix || !is_paren_char(s.get_char(8)) {
        return thread_id;
    }
    let mut j: usize = 9;
    while j < n && !is_paren_char(s.get_char(j))
        invariant
            9 <= j <= n,
            n == s@.len(),
            next_paren(s@, j as int) == next_paren(s@, 9),
        decreases n - j,
    {
        j = j + 1;
    }
    if j < n && (j + 1 == n || is_paren_char(s.get_char(j + 1))) {
        s.substring_char(9, j).to_owned()
    } else {
        thread_id
    }
}

} // verus!
