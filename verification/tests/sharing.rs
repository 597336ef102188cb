use procserve::message::GenericError;
use procserve::monitor::{
    output_monitor, process_monitor, write_half, OutputStep, Waited, WriterEvent, WriterStep,
};
use procserve::order::ByteOrder;
use procserve::proto::{Attr, AttrName, Command, ResultCode};
use procserve::session::{Action, Event, Session};

const ORDER: ByteOrder = ByteOrder::Little;

#[derive(Debug, Clone, Copy, PartialEq, Eq)]
enum Party {
    Session,
    Writer,
}

/// Two parties send byte by byte over one stream, each under its lock.
struct Connection {
    session: Session<u8>,
    action: Option<Action>,
    input: Vec<u8>,
    writer: Option<WriterStep>,
    queue: Vec<GenericError>,
    holder: Option<Party>,
    part: usize,
    output: Vec<u8>,
    done: Vec<(Party, Vec<u8>)>,
}

impl Connection {
    fn open(input: Vec<u8>, queue: Vec<GenericError>) -> Connection {
        let (session, action) = Session::open(ORDER);
        Connection {
            session,
            action: Some(action),
            input,
            writer: Some(WriterStep::Receive),
            queue,
            holder: None,
            part: 0,
            output: Vec::new(),
            done: Vec::new(),
        }
    }

    /// Takes the lock for `party`, if nobody else has it.
    fn lock(&mut self, party: Party) -> bool {
        if self.holder.is_none() {
            self.holder = Some(party);
        }
        self.holder == Some(party)
    }

    /// Sends one byte more; whether that was the last one.
    fn put(&mut self, party: Party, message: &GenericError) -> bool {
        let bytes = message.to_bytes(ORDER);
        self.output.push(bytes[self.part]);
        self.part += 1;
        if self.part < bytes.len() {
            return false;
        }
        self.part = 0;
        self.done.push((party, bytes));
        true
    }

    fn session_turn(&mut self) {
        let action = match self.action.take() {
            Some(action) => action,
            None => return,
        };
        if action.keeps_writer() && !self.lock(Party::Session) {
            self.action = Some(action);
            return;
        }
        let event = match action {
            Action::Read(_) if self.input.is_empty() => return,
            Action::Read(n) => Event::Bytes(self.input.drain(..n).collect()),
            Action::Discard(n) => {
                self.input.drain(..n);
                Event::Discarded
            }
            Action::Spawn(_, _) => Event::Spawned(5, 0),
            Action::Feed(_, _) => Event::Fed(true),
            Action::Watch(_) => Event::Watched,
            Action::Send(message) => {
                if !self.put(Party::Session, &message) {
                    self.action = Some(Action::Send(message));
                    return;
                }
                Event::Sent
            }
            Action::Stop => return,
        };
        let next = self.session.step(event);
        if self.holder == Some(Party::Session) && !next.keeps_writer() {
            self.holder = None;
        }
        self.action = Some(next);
    }

    fn writer_turn(&mut self) {
        let event = match self.writer.take() {
            Some(WriterStep::Receive) if self.queue.is_empty() => WriterEvent::Received(None),
            Some(WriterStep::Receive) => WriterEvent::Received(Some(self.queue.remove(0))),
            Some(WriterStep::Send(message)) => {
                if !self.lock(Party::Writer) || !self.put(Party::Writer, &message) {
                    self.writer = Some(WriterStep::Send(message));
                    return;
                }
                self.holder = None;
                WriterEvent::Sent(true)
            }
            _ => return,
        };
        self.writer = Some(write_half(event));
    }

    fn sent_by(&self, party: Party) -> Vec<Vec<u8>> {
        let sent = self.done.iter().filter(|(by, _)| *by == party);
        sent.map(|(_, bytes)| bytes.clone()).collect()
    }
}

fn frame(op: u16, fields: &[(u16, &[u8])]) -> Vec<u8> {
    let command = Command { op, num_attrs: fields.len() as u8, padding: 0 };
    let mut bytes = command.as_bytes(ORDER);
    for (attr, body) in fields {
        bytes.extend(Attr { attr: *attr, len: body.len() as u16 }.as_bytes(ORDER));
        bytes.extend_from_slice(body);
    }
    bytes
}

/// The length of the frame at the start of `bytes`.
fn frame_len(bytes: &[u8]) -> usize {
    let command = Command::read_from_bytes(ORDER, &bytes[..4]).unwrap();
    let mut at = 4;
    for _ in 0..command.num_attrs {
        let attr = Attr::read_from_bytes(ORDER, &bytes[at..at + 4]).unwrap();
        at += 4 + attr.len as usize;
    }
    at
}

fn requests() -> Vec<u8> {
    let mut input = frame(9, &[]);
    input.extend(frame(1, &[(1, b"cat")]));
    input.extend(frame(2, &[(3, &[0, 0, 0, 5]), (4, b"x")]));
    input.extend(frame(2, &[(3, &[0, 0, 0, 6]), (4, b"x")]));
    input.extend(frame(1, &[]));
    input
}

fn answers() -> Vec<Vec<u8>> {
    let text = "No arguments given";
    let messages = vec![
        GenericError::new(ResultCode::UnknownOp),
        GenericError::new(ResultCode::Success).attr(AttrName::Pid, &5u32, ORDER),
        GenericError::new(ResultCode::Success),
        GenericError::new(ResultCode::NotFound).attr(AttrName::Pid, &6u32, ORDER),
        GenericError::new(ResultCode::InvalidState).attr(AttrName::Message, &text, ORDER),
    ];
    messages.iter().map(|m| m.to_bytes(ORDER)).collect()
}

fn news() -> Vec<GenericError> {
    let mut news = Vec::new();
    for read in [&b"some output"[..], &b"more"[..], &b""[..]] {
        match output_monitor(ORDER, 5, false, Some(read)) {
            OutputStep::Queue(message) | OutputStep::Finish(message) => news.push(message),
            OutputStep::Retry => unreachable!(),
        }
    }
    news.extend(process_monitor(ORDER, 5, Waited::Exited(0)));
    news
}

#[test]
fn answers_and_news_come_in_whole_frames() {
    for seed in 0..64u32 {
        let mut connection = Connection::open(requests(), news());
        let mut random = seed;
        for _ in 0..2000 {
            random = random.wrapping_mul(1_664_525).wrapping_add(1_013_904_223);
            if random & 0x1_0000 == 0 {
                connection.session_turn();
            } else {
                connection.writer_turn();
            }
        }
        assert_eq!(connection.holder, None);
        assert_eq!(connection.sent_by(Party::Session), answers());
        let queued: Vec<Vec<u8>> = news().iter().map(|m| m.to_bytes(ORDER)).collect();
        assert_eq!(connection.sent_by(Party::Writer), queued);

        let mut at = 0;
        for (_, bytes) in &connection.done {
            let len = frame_len(&connection.output[at..]);
            assert_eq!(&connection.output[at..at + len], bytes.as_slice());
            at += len;
        }
        assert_eq!(at, connection.output.len());
    }
}

#[test]
fn news_wait_for_the_answer_to_a_request() {
    let mut connection = Connection::open(requests(), news());
    // The first request is read, and the first byte of its answer is sent.
    for _ in 0..2 {
        connection.session_turn();
    }
    assert_eq!(connection.output, vec![6]);
    for _ in 0..50 {
        connection.writer_turn();
    }
    assert_eq!(connection.output, vec![6]);
    for _ in 0..3 {
        connection.session_turn();
    }
    assert_eq!(connection.output, vec![6, 0, 0, 0]);
    connection.writer_turn();
    assert_eq!(connection.output, vec![6, 0, 0, 0, 7]);
}
