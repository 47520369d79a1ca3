use rdbg::connector::{Command, Connector, Event, Input, Phase};
use rdbg::decode::Error;
use rdbg::frame::Message as Frame;
use rdbg::mailbox::{Entry, Mailbox, CHAN_MAX_MESSAGES};
use rdbg::producer::{flush, port, Registry, DEFAULT_PORT};
use rdbg::transport::{Manager, Step};
use rdbg::wire::{Message, MsgPayload, LEN_FIELD_SIZE, WIRE_PROTOCOL_VERSION};

fn frame(line: u32, text: &str) -> Frame {
    Frame::new(100 + line as u64, "1", "a.rs", line, MsgPayload::Message(text.to_string()))
}

fn frame_line(e: &Entry) -> u32 {
    match e {
        Entry::NewMessage(f) => {
            let s = f.as_slice();
            let at = LEN_FIELD_SIZE + 8 + 5 + 8;
            u32::from_be_bytes([s[at], s[at + 1], s[at + 2], s[at + 3]])
        }
        Entry::Flush(_) => panic!("not a frame"),
    }
}

/// Runs the manager against a viewer that takes at most `chunk` bytes per
/// write, until it waits for an entry that the mailbox does not have.
/// Returns the flush tickets answered.
fn drain(mgr: &mut Manager, mailbox: &mut Mailbox, wire: &mut Vec<u8>, chunk: usize) -> Vec<u64> {
    let mut answered = vec![];
    loop {
        match mgr.next_step() {
            Step::Accept => mgr.on_accepted(),
            Step::Handshake => {
                wire.push(WIRE_PROTOCOL_VERSION);
                mgr.on_handshake(true);
            }
            Step::Write => {
                let rest = mgr.unwritten();
                let n = rest.len().min(chunk);
                wire.extend_from_slice(&rest[..n]);
                mgr.on_written(n);
            }
            Step::Receive => match mailbox.pop() {
                Some(e) => {
                    if let Some(t) = mgr.on_entry(e) {
                        answered.push(t);
                    }
                }
                None => return answered,
            },
        }
    }
}

/// Feeds `wire` to a fresh connector and collects the first `count` items.
fn view(wire: &[u8], count: usize) -> Vec<Result<Event<&'static str>, Error>> {
    let mut c = Connector::new("viewer");
    let mut pos = 0;
    let mut out = vec![];
    while out.len() < count {
        let input = match c.command() {
            Command::Connect => Input::Connected,
            Command::Sleep => Input::Slept,
            Command::Read(n) => {
                if pos + n > wire.len() {
                    Input::ReadFailed
                } else {
                    pos += n;
                    Input::Read(wire[pos - n..pos].to_vec())
                }
            }
        };
        if let Some(item) = c.on_input(input) {
            out.push(item);
        }
    }
    out
}

fn decoded(line: u32, text: &str) -> Message {
    Message {
        time: 100 + line as u64,
        thread_id: "1".to_string(),
        filename: "a.rs".to_string(),
        line,
        payload: MsgPayload::Message(text.to_string()),
    }
}

#[test]
fn mailbox_is_first_in_first_out() {
    let mut mb = Mailbox::new();
    for line in 1..=3 {
        assert!(mb.push(Entry::NewMessage(frame(line, "m"))).is_ok());
    }
    assert_eq!(mb.len(), 3);
    for line in 1..=3 {
        assert_eq!(frame_line(&mb.pop().unwrap()), line);
    }
    assert!(mb.pop().is_none());
}

#[test]
fn mailbox_full_hands_entry_back() {
    let mut mb = Mailbox::new();
    for line in 0..CHAN_MAX_MESSAGES as u32 {
        assert!(mb.push(Entry::NewMessage(frame(line, "m"))).is_ok());
    }
    assert!(mb.is_full());
    match mb.push(Entry::NewMessage(frame(99, "late"))) {
        Err(e) => assert_eq!(frame_line(&e), 99),
        Ok(()) => panic!("mailbox grew past its bound"),
    }
    assert_eq!(mb.len(), CHAN_MAX_MESSAGES);
    assert_eq!(frame_line(&mb.pop().unwrap()), 0);
    assert!(!mb.is_full());
    assert!(mb.push(Entry::NewMessage(frame(99, "late"))).is_ok());
}

#[test]
fn fifo_delivery_to_connected_viewer() {
    let mut mb = Mailbox::new();
    let mut mgr = Manager::new();
    let mut wire = vec![];
    for (line, text) in [(1, "A"), (2, "B"), (3, "C")] {
        mb.push(Entry::NewMessage(frame(line, text))).unwrap();
    }
    drain(&mut mgr, &mut mb, &mut wire, 7);
    let events = view(&wire, 4);
    assert_eq!(events.len(), 4);
    assert!(matches!(&events[0], Ok(Event::Connected("viewer"))));
    for (i, (line, text)) in [(1, "A"), (2, "B"), (3, "C")].iter().enumerate() {
        match &events[i + 1] {
            Ok(Event::Message(m)) => assert_eq!(*m, decoded(*line, text)),
            _ => panic!("expected a message"),
        }
    }
}

#[test]
fn failed_write_is_resent_in_full_first() {
    let mut mgr = Manager::new();
    mgr.on_accepted();
    mgr.on_handshake(true);
    let first = frame(1, "first");
    let whole = first.as_slice().to_vec();
    assert_eq!(mgr.on_entry(Entry::NewMessage(first)), None);
    assert_eq!(mgr.next_step(), Step::Write);
    mgr.on_written(5);
    assert_eq!(mgr.unwritten().to_vec(), whole[5..].to_vec());
    mgr.on_write_failed();
    assert_eq!(mgr.next_step(), Step::Accept);

    // a newer message waits in the mailbox meanwhile
    let mut mb = Mailbox::new();
    mb.push(Entry::NewMessage(frame(2, "second"))).unwrap();
    let mut wire = vec![];
    drain(&mut mgr, &mut mb, &mut wire, usize::MAX);
    assert_eq!(wire[0], WIRE_PROTOCOL_VERSION);
    assert_eq!(wire[1..1 + whole.len()].to_vec(), whole);
    let events = view(&wire, 3);
    assert!(matches!(&events[1], Ok(Event::Message(m)) if *m == decoded(1, "first")));
    assert!(matches!(&events[2], Ok(Event::Message(m)) if *m == decoded(2, "second")));
}

#[test]
fn zero_byte_write_counts_as_failure() {
    let mut mgr = Manager::new();
    mgr.on_accepted();
    mgr.on_handshake(true);
    mgr.on_entry(Entry::NewMessage(frame(1, "x")));
    mgr.on_written(3);
    mgr.on_written(0);
    assert_eq!(mgr.next_step(), Step::Accept);
    mgr.on_accepted();
    mgr.on_handshake(false);
    assert_eq!(mgr.next_step(), Step::Accept);
    mgr.on_accepted();
    mgr.on_handshake(true);
    assert_eq!(mgr.unwritten().to_vec(), frame(1, "x").as_slice().to_vec());
}

#[test]
fn flush_answered_after_earlier_messages_written() {
    let mut mb = Mailbox::new();
    mb.push(Entry::NewMessage(frame(1, "a"))).unwrap();
    flush(&mut mb, 7).unwrap();
    mb.push(Entry::NewMessage(frame(2, "b"))).unwrap();
    let mut mgr = Manager::new();
    mgr.on_accepted();
    mgr.on_handshake(true);
    mgr.on_entry(mb.pop().unwrap());
    // the marker is not taken while the earlier frame is unwritten
    assert_eq!(mgr.next_step(), Step::Write);
    let n = mgr.unwritten().len();
    mgr.on_written(n);
    assert_eq!(mgr.next_step(), Step::Receive);
    assert_eq!(mgr.on_entry(mb.pop().unwrap()), Some(7));
}

#[test]
fn flush_without_viewer_is_never_answered() {
    let mut mb = Mailbox::new();
    flush(&mut mb, 1).unwrap();
    let mgr = Manager::new();
    // without a viewer the writer only ever waits to accept one
    assert_eq!(mgr.next_step(), Step::Accept);
    assert_eq!(mb.len(), 1);
}

#[test]
fn flush_on_full_mailbox_hands_marker_back() {
    let mut mb = Mailbox::new();
    for line in 0..CHAN_MAX_MESSAGES as u32 {
        mb.push(Entry::NewMessage(frame(line, "m"))).unwrap();
    }
    assert!(matches!(flush(&mut mb, 3), Err(Entry::Flush(3))));
}

#[test]
fn queued_before_viewer_connects() {
    let mut mb = Mailbox::new();
    mb.push(Entry::NewMessage(Frame::new(
        5,
        "1",
        "a.rs",
        10,
        MsgPayload::Message("hello".to_string()),
    )))
    .unwrap();
    mb.push(Entry::NewMessage(Frame::new(
        6,
        "1",
        "a.rs",
        11,
        MsgPayload::Values(vec![("x".to_string(), "1".to_string())]),
    )))
    .unwrap();
    let mut mgr = Manager::new();
    let mut wire = vec![];
    drain(&mut mgr, &mut mb, &mut wire, 3);
    let events = view(&wire, 3);
    assert!(matches!(&events[0], Ok(Event::Connected("viewer"))));
    match &events[1] {
        Ok(Event::Message(m)) => {
            assert_eq!(m.filename, "a.rs");
            assert_eq!(m.line, 10);
            assert_eq!(m.payload, MsgPayload::Message("hello".to_string()));
        }
        _ => panic!("expected the first message"),
    }
    match &events[2] {
        Ok(Event::Message(m)) => {
            assert_eq!(m.filename, "a.rs");
            assert_eq!(m.line, 11);
            assert_eq!(
                m.payload,
                MsgPayload::Values(vec![("x".to_string(), "1".to_string())])
            );
        }
        _ => panic!("expected the second message"),
    }
}

#[test]
fn bad_version_stops_reading() {
    let mut c = Connector::new(1u8);
    assert_eq!(c.command(), Command::Connect);
    assert!(c.on_input(Input::Connected).is_none());
    assert_eq!(c.command(), Command::Read(1));
    assert!(matches!(c.on_input(Input::Read(vec![2])), Some(Err(Error::BadVersion))));
    assert_eq!(c.current_phase(), Phase::Idle);
    assert_eq!(c.command(), Command::Connect);
}

#[test]
fn connector_retries_and_reports_disconnect() {
    let mut c = Connector::new(9u16);
    assert!(c.on_input(Input::ConnectFailed).is_none());
    assert_eq!(c.command(), Command::Sleep);
    assert!(c.on_input(Input::Slept).is_none());
    assert_eq!(c.command(), Command::Connect);
    c.on_input(Input::Connected);
    // losing the connection before the handshake just retries later
    assert!(c.on_input(Input::ReadFailed).is_none());
    assert_eq!(c.command(), Command::Sleep);
    c.on_input(Input::Slept);
    c.on_input(Input::Connected);
    assert_eq!(c.on_input(Input::Read(vec![1])).unwrap().unwrap(), Event::Connected(9));
    assert_eq!(c.command(), Command::Read(4));
    assert!(c.on_input(Input::Read(vec![0, 0, 1, 2])).is_none());
    assert_eq!(c.command(), Command::Read(258));
    assert_eq!(
        c.on_input(Input::ReadFailed).unwrap().unwrap(),
        Event::Disconnected(9)
    );
    assert_eq!(c.command(), Command::Connect);
    assert_eq!(c.addr_value(), 9);
}

#[test]
fn corrupt_frame_forces_reconnect() {
    let mut c = Connector::new(0u8);
    c.on_input(Input::Connected);
    c.on_input(Input::Read(vec![WIRE_PROTOCOL_VERSION]));
    c.on_input(Input::Read(vec![0, 0, 0, 3]));
    assert!(matches!(
        c.on_input(Input::Read(vec![1, 2, 3])),
        Some(Err(Error::CorruptMsg))
    ));
    assert_eq!(c.command(), Command::Connect);
}

#[test]
fn first_port_wins() {
    let mut r = Registry::new();
    assert_eq!(r.chosen_port(), None);
    assert_eq!(port(&mut r, 5000), 5000);
    assert_eq!(port(&mut r, DEFAULT_PORT), 5000);
    assert_eq!(port(&mut r, 1), 5000);
    assert_eq!(r.chosen_port(), Some(5000));
}
