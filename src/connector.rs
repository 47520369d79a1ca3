//! The viewer side: a state machine that turns connection attempts, reads
//! and failures into a never-ending sequence of events. The caller performs
//! each command it is given and reports what happened.
use vstd::prelude::*;
use crate::decode::{decode, is_fault, Error};
use crate::wire::{be32_value, decoded, Message, WIRE_PROTOCOL_VERSION};

verus! {

/// What the viewer reports to its user.
#[derive(Debug, PartialEq, Eq)]
pub enum Event<A> {
    /// A connection was made and its handshake accepted.
    Connected(A),
    /// The connection was lost.
    Disconnected(A),
    /// A message arrived.
    Message(Message),
}

/// Where the connector stands.
#[derive(Clone, Copy, Debug, PartialEq, Eq)]
pub enum Phase {
    /// No connection: the next step is to connect.
    Idle,
    /// No connection, and the last attempt failed: wait before the next one.
    Backoff,
    /// Connected: the handshake byte is next.
    Handshake,
    /// Connected: the length field of a frame is next.
    Length,
    /// Connected: a frame body of this many bytes is next.
    Body(u32),
}

/// What the caller is to do next.
#[derive(Clone, Copy, Debug, PartialEq, Eq)]
pub enum Command {
    /// Open a connection to the address.
    Connect,
    /// Wait the reconnect interval.
    Sleep,
    /// Read exactly this many bytes from the connection.
    Read(usize),
}

/// What happened when the caller performed a command.
pub enum Input {
    Connected,
    ConnectFailed,
    Slept,
    /// The bytes read, exactly as many as were asked for.
    Read(Vec<u8>),
    /// Reading failed; the connection is gone.
    ReadFailed,
}

pub enum InputModel {
    Connected,
    ConnectFailed,
    Slept,
    Read(Seq<u8>),
    ReadFailed,
}

impl View for Input {
    type V = InputModel;

    open spec fn view(&self) -> InputModel {
        match self {
            Input::Connected => InputModel::Connected,
            Input::ConnectFailed => InputModel::ConnectFailed,
            Input::Slept => InputModel::Slept,
            Input::Read(b) => InputModel::Read(b@),
            Input::ReadFailed => InputModel::ReadFailed,
        }
    }
}

/// The command that a phase calls for.
pub open spec fn command_of(p: Phase) -> Command {
    match p {
        Phase::Idle => Command::Connect,
        Phase::Backoff => Command::Sleep,
        Phase::Handshake => Command::Read(1),
        Phase::Length => Command::Read(4),
        Phase::Body(n) => Command::Read(n as usize),
    }
}

/// Whether `i` is a report of performing the command of phase `p`.
pub open spec fn answers(p: Phase, i: InputModel) -> bool {
    match command_of(p) {
        Command::Connect => i is Connected || i is ConnectFailed,
        Command::Sleep => i is Slept,
        Command::Read(n) => i is ReadFailed || (i matches InputModel::Read(b) && b.len() == n),
    }
}

/// The phase after input `i` in phase `p`.
pub open spec fn next_phase(p: Phase, i: InputModel) -> Phase {
    match i {
        InputModel::Connected => Phase::Handshake,
        InputModel::ConnectFailed => Phase::Backoff,
        InputModel::Slept => Phase::Idle,
        InputModel::ReadFailed => if p is Handshake {
            Phase::Backoff
        } else {
            Phase::Idle
        },
        InputModel::Read(b) => match p {
            Phase::Handshake => if b[0] == WIRE_PROTOCOL_VERSION {
                Phase::Length
            } else {
                Phase::Idle
            },
            Phase::Length => Phase::Body(be32_value(b)),
            _ => if decoded(b) is Ok {
                Phase::Length
            } else {
                Phase::Idle
            },
        },
    }
}

/// Whether `r` is what the connector reports for input `i` in phase `p`,
/// connected to `addr`.
pub open spec fn reports<A>(p: Phase, i: InputModel, addr: A, r: Option<Result<Event<A>, Error>>) -> bool {
    match i {
        InputModel::ReadFailed => if p is Handshake {
            r is None
        } else {
            r matches Some(Ok(Event::Disconnected(a))) && a == addr
        },
        InputModel::Read(b) => match p {
            Phase::Handshake => if b[0] == WIRE_PROTOCOL_VERSION {
                r matches Some(Ok(Event::Connected(a))) && a == addr
            } else {
                r matches Some(Err(Error::BadVersion))
            },
            Phase::Length => r is None,
            _ => match decoded(b) {
                Ok(m) => r matches Some(Ok(Event::Message(x))) && x@ == m,
                Err(f) => r matches Some(Err(e)) && is_fault(e, f),
            },
        },
        _ => r is None,
    }
}

/// A connection to one viewer address, and where it stands.
pub struct Connector<A> {
    addr: A,
    phase: Phase,
}

impl<A: Copy> Connector<A> {
    pub closed spec fn addr(&self) -> A {
        self.addr
    }

    pub closed spec fn phase(&self) -> Phase {
        self.phase
    }

    /// A connector to `addr`, not yet connected.
    pub fn new(addr: A) -> (r: Self)
        ensures
            r.addr() == addr,
            r.phase() == Phase::Idle,
    {
        Connector { addr, phase: Phase::Idle }
    }

    /// The address events name.
    pub fn addr_value(&self) -> (r: A)
        ensures
            r == self.addr(),
    {
        self.addr
    }

    /// Where the connector stands.
    pub fn current_phase(&self) -> (r: Phase)
        ensures
            r == self.phase(),
    {
        self.phase
    }

    /// What the caller is to do next.
    pub fn command(&self) -> (r: Command)
        ensures
            r == command_of(self.phase()),
    {
        match self.phase {
            Phase::Idle => Command::Connect,
            Phase::Backoff => Command::Sleep,
            Phase::Handshake => Command::Read(1),
            Phase::Length => Command::Read(4),
            Phase::Body(n) => Command::Read(n as usize),
        }
    }

    /// Takes the outcome of the last command; gives the event or error it
    /// makes, if any.
    pub fn on_input(&mut self, input: Input) -> (r: Option<Result<Event<A>, Error>>)
        requires
            answers(old(self).phase(), input@),
        ensures
            final(self).addr() == old(self).addr(),
            final(self).phase() == next_phase(old(self).phase(), input@),
            reports(old(self).phase(), input@, old(self).addr(), r),
    {
        match input {
            Input::Connected => {
                self.phase = Phase::Handshake;
                None
            },
            Input::ConnectFailed => {
                self.phase = Phase::Backoff;
                None
            },
            Input::Slept => {
                self.phase = Phase::Idle;
                None
            },
            Input::ReadFailed => {
                if let Phase::Handshake = self.phase {
                    self.phase = Phase::Backoff;
                    None
                } else {
                    self.phase = Phase::Idle;
                    Some(Ok(Event::Disconnected(self.addr)))
                }
            },
            Input::Read(bytes) => match self.phase {
                Phase::Handshake => {
                    if bytes[0] == WIRE_PROTOCOL_VERSION {
                        self.phase = Phase::Length;
                        Some(Ok(Event::Connected(self.addr)))
                    } else {
                        // Nothing more is read from a peer of another version.
                        self.phase = Phase::Idle;
                        Some(Err(Error::BadVersion))
                    }
                },
                Phase::Length => {
                    let n = ((bytes[0] as u32) << 24u32) | ((bytes[1] as u32) << 16u32) | ((
                    bytes[2] as u32) << 8u32) | (bytes[3] as u32);
                    self.phase = Phase::Body(n);
                    None
                },
                _ => match decode(bytes) {
                    Ok(m) => {
                        self.phase = Phase::Length;
                        Some(Ok(Event::Message(m)))
                    },
                    Err(e) => {
                        // A bad frame cannot be trusted to have been the
                        // length it claimed: start over on a new connection.
                        self.phase = Phase::Idle;
                        Some(Err(e))
                    },
                },
            },
        }
    }
}

/// A handshake byte other than the supported version gives `BadVersion` and
/// ends that connection: the next command is to open a new one, so nothing
/// more is read from the peer that sent it.
pub proof fn bad_version_reads_no_more<A>(
    b: Seq<u8>,
    addr: A,
    r: Option<Result<Event<A>, Error>>,
)
    requires
        b.len() == 1,
        b[0] != WIRE_PROTOCOL_VERSION,
        reports(Phase::Handshake, InputModel::Read(b), addr, r),
    ensures
        r matches Some(Err(Error::BadVersion)),
        next_phase(Phase::Handshake, InputModel::Read(b)) == Phase::Idle,
        command_of(next_phase(Phase::Handshake, InputModel::Read(b))) == Command::Connect,
{
}

} // verus!
