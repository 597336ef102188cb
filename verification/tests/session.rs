use procserve::message::GenericError;
use procserve::order::ByteOrder;
use procserve::proto::{Attr, AttrName, Command, ResultCode};
use procserve::session::{Action, Event, Session};

const ORDER: ByteOrder = ByteOrder::Little;

fn frame(order: ByteOrder, op: u16, fields: &[(u16, &[u8])]) -> Vec<u8> {
    let command = Command { op, num_attrs: fields.len() as u8, padding: 0 };
    let mut bytes = command.as_bytes(order);
    for (attr, body) in fields {
        bytes.extend(Attr { attr: *attr, len: body.len() as u16 }.as_bytes(order));
        bytes.extend_from_slice(body);
    }
    bytes
}

/// Answers reads out of `input` until the session asks for something else.
fn drive(session: &mut Session<u8>, mut action: Action, input: &mut Vec<u8>) -> Action {
    loop {
        let event = match action {
            Action::Read(n) => Event::Bytes(input.drain(..n).collect()),
            Action::Discard(n) => {
                input.drain(..n);
                Event::Discarded
            }
            other => return other,
        };
        action = session.step(event);
    }
}

fn run_program(session: &mut Session<u8>, action: Action, pid: u32, stdin: u8) -> Action {
    let mut input = frame(ORDER, 1, &[(1, b"cat")]);
    let action = drive(session, action, &mut input);
    assert_eq!(action, Action::Spawn("cat".to_string(), Vec::new()));
    let action = session.step(Event::Spawned(pid, stdin));
    assert_eq!(action, Action::Send(about(ResultCode::Success, pid)));
    assert_eq!(session.stdin_mut(pid), None);
    let action = session.step(Event::Sent);
    assert_eq!(action, Action::Watch(pid));
    assert_eq!(session.stdin_mut(pid).copied(), Some(stdin));
    session.step(Event::Watched)
}

fn about(result: ResultCode, pid: u32) -> GenericError {
    GenericError::new(result).attr(AttrName::Pid, &pid, ORDER)
}

#[test]
fn first_action() {
    let (mut session, action) = Session::<u8>::open(ORDER);
    assert_eq!(action, Action::Read(4));
    assert_eq!(session.stdin_mut(1), None);
}

#[test]
fn run_request() {
    for order in [ByteOrder::Little, ByteOrder::Big] {
        let (mut session, action) = Session::<u8>::open(order);
        let mut input = frame(order, 1, &[(1, b"echo"), (2, b"a"), (5, b"skipped"), (3, b"")]);
        input.extend_from_slice(b"rest");
        let action = drive(&mut session, action, &mut input);
        assert_eq!(
            action,
            Action::Spawn("echo".to_string(), vec!["a".to_string(), String::new()])
        );
        assert_eq!(input, b"rest");
    }
}

#[test]
fn run_request_with_a_long_word() {
    let (mut session, action) = Session::<u8>::open(ORDER);
    let word = "w".repeat(60000);
    let mut input = frame(ORDER, 1, &[(1, b"p"), (1, word.as_bytes())]);
    let action = drive(&mut session, action, &mut input);
    assert_eq!(action, Action::Spawn("p".to_string(), vec![word]));
    assert!(input.is_empty());
}

#[test]
fn run_request_without_words() {
    let (mut session, action) = Session::<u8>::open(ORDER);
    let action = drive(&mut session, action, &mut frame(ORDER, 1, &[]));
    let text = "No arguments given";
    let message =
        GenericError::new(ResultCode::InvalidState).attr(AttrName::Message, &text, ORDER);
    assert_eq!(action, Action::Send(message));
    assert_eq!(session.step(Event::Sent), Action::Read(4));
}

#[test]
fn run_request_with_unknown_attributes_only() {
    let (mut session, action) = Session::<u8>::open(ORDER);
    let mut input = frame(ORDER, 1, &[(0, b"x"), (6, b"yy")]);
    let action = drive(&mut session, action, &mut input);
    let text = "No arguments given";
    let message =
        GenericError::new(ResultCode::InvalidState).attr(AttrName::Message, &text, ORDER);
    assert_eq!(action, Action::Send(message));
    assert!(input.is_empty());
}

#[test]
fn run_request_step_by_step() {
    let (mut session, _) = Session::<u8>::open(ORDER);
    assert_eq!(session.step(Event::Bytes(vec![1, 0, 2, 0])), Action::Read(4));
    assert_eq!(session.step(Event::Bytes(vec![1, 0, 2, 0])), Action::Read(2));
    assert_eq!(session.step(Event::Bytes(b"ls".to_vec())), Action::Read(4));
    assert_eq!(session.step(Event::Bytes(vec![9, 0, 1, 1])), Action::Discard(257));
    assert_eq!(
        session.step(Event::Discarded),
        Action::Spawn("ls".to_string(), Vec::new())
    );
}

#[test]
fn program_is_known_once_the_peer_is_told() {
    let (mut session, action) = Session::<u8>::open(ORDER);
    let action = run_program(&mut session, action, 7, 70);
    assert_eq!(action, Action::Read(4));
    let action = run_program(&mut session, action, 8, 80);
    assert_eq!(action, Action::Read(4));
    assert_eq!(session.stdin_mut(7).copied(), Some(70));
    assert_eq!(session.stdin_mut(8).copied(), Some(80));
}

#[test]
fn program_that_the_peer_is_not_told_of_stays_unknown() {
    let (mut session, action) = Session::<u8>::open(ORDER);
    drive(&mut session, action, &mut frame(ORDER, 1, &[(1, b"cat")]));
    session.step(Event::Spawned(7, 70));
    assert_eq!(session.step(Event::Failed), Action::Stop);
    assert_eq!(session.stdin_mut(7), None);
}

#[test]
fn write_request() {
    let (mut session, action) = Session::<u8>::open(ORDER);
    let action = run_program(&mut session, action, 258, 70);
    let mut input = frame(ORDER, 2, &[(3, &[0, 0, 1, 2]), (4, b"data")]);
    input.push(99);
    let action = drive(&mut session, action, &mut input);
    assert_eq!(action, Action::Feed(258, b"data".to_vec()));
    assert_eq!(input, vec![99]);
    *session.stdin_mut(258).unwrap() = 71;
    let action = session.step(Event::Fed(true));
    assert_eq!(action, Action::Send(GenericError::new(ResultCode::Success)));
    assert_eq!(session.step(Event::Sent), Action::Read(4));
    assert_eq!(session.stdin_mut(258).copied(), Some(71));
}

#[test]
fn write_request_that_fails() {
    let (mut session, action) = Session::<u8>::open(ORDER);
    let action = run_program(&mut session, action, 5, 50);
    let mut input = frame(ORDER, 2, &[(3, &[0, 0, 0, 5])]);
    let action = drive(&mut session, action, &mut input);
    assert_eq!(action, Action::Feed(5, Vec::new()));
    let action = session.step(Event::Fed(false));
    assert_eq!(action, Action::Send(GenericError::new(ResultCode::Failed)));
    assert_eq!(session.step(Event::Sent), Action::Read(4));
}

#[test]
fn write_request_to_an_unknown_process() {
    let (mut session, action) = Session::<u8>::open(ORDER);
    let mut input = frame(ORDER, 2, &[(3, &[0, 0, 1, 2]), (4, b"data")]);
    let action = drive(&mut session, action, &mut input);
    assert_eq!(action, Action::Send(about(ResultCode::NotFound, 258)));
}

#[test]
fn write_request_without_a_target() {
    let (mut session, action) = Session::<u8>::open(ORDER);
    let mut input = frame(ORDER, 2, &[(4, b"data")]);
    let action = drive(&mut session, action, &mut input);
    let text = "No write target";
    let message =
        GenericError::new(ResultCode::InvalidState).attr(AttrName::Message, &text, ORDER);
    assert_eq!(action, Action::Send(message));
}

#[test]
fn write_request_passes_over_some_lengths() {
    let (mut session, action) = Session::<u8>::open(ORDER);
    let mut input = frame(ORDER, 2, &[(1, b"left")]);
    drive(&mut session, action, &mut input);
    assert_eq!(input, b"left");

    let (mut session, action) = Session::<u8>::open(ORDER);
    let mut input = frame(ORDER, 2, &[(3, &[0, 0, 0, 1, 9, 9])]);
    let action = drive(&mut session, action, &mut input);
    assert_eq!(action, Action::Send(about(ResultCode::NotFound, 1)));
    assert_eq!(input, vec![9, 9]);
}

#[test]
fn told_pid_in_a_request() {
    let told = ByteOrder::Little.put_u32(7);
    assert_eq!(ByteOrder::Big.get_u32(&told), Some(0x0700_0000));
    let told = ByteOrder::Big.put_u32(7);
    assert_eq!(ByteOrder::Big.get_u32(&told), Some(7));
}

#[test]
fn unknown_request() {
    let (mut session, action) = Session::<u8>::open(ORDER);
    let mut input = frame(ORDER, 500, &[(1, b"a"), (77, b"bb"), (3, &[1, 2, 3, 4, 5])]);
    input.extend(frame(ORDER, 1, &[]));
    let action = drive(&mut session, action, &mut input);
    assert_eq!(action, Action::Send(GenericError::new(ResultCode::UnknownOp)));
    assert_eq!(input, vec![1, 0, 0, 0]);
}

#[test]
fn close_is_recognised_in_a_header_only() {
    let (mut session, _) = Session::<u8>::open(ORDER);
    assert!(session.asks_close(&[3, 0, 0, 0]));
    assert!(session.asks_close(&[3, 0, 9, 9]));
    assert!(!session.asks_close(&[0, 3, 0, 0]));
    assert!(!session.asks_close(&[2, 0, 0, 0]));
    assert!(!session.asks_close(&[3, 0]));
    session.step(Event::Bytes(vec![1, 0, 1, 0]));
    assert!(!session.asks_close(&[3, 0, 0, 0]));

    let (session, _) = Session::<u8>::open(ByteOrder::Big);
    assert!(session.asks_close(&[0, 3, 0, 0]));
}

#[test]
fn end_between_requests() {
    let (mut session, _) = Session::<u8>::open(ORDER);
    assert_eq!(session.step(Event::Bytes(Vec::new())), Action::Stop);
}

#[test]
fn failures_end_the_connection() {
    let (mut session, _) = Session::<u8>::open(ORDER);
    assert_eq!(session.step(Event::Failed), Action::Stop);

    let (mut session, _) = Session::<u8>::open(ORDER);
    session.step(Event::Bytes(vec![1, 0, 1, 0]));
    assert_eq!(session.step(Event::Failed), Action::Stop);

    let (mut session, action) = Session::<u8>::open(ORDER);
    drive(&mut session, action, &mut frame(ORDER, 1, &[(1, b"cat")]));
    assert_eq!(session.step(Event::Failed), Action::Stop);

    let (mut session, action) = Session::<u8>::open(ORDER);
    drive(&mut session, action, &mut frame(ORDER, 9, &[]));
    assert_eq!(session.step(Event::Failed), Action::Stop);
}

#[test]
fn one_answer_for_each_request() {
    let (mut session, mut action) = Session::<u8>::open(ORDER);
    let mut input = frame(ORDER, 9, &[]);
    input.extend(frame(ORDER, 1, &[]));
    input.extend(frame(ORDER, 1, &[(1, b"cat")]));
    input.extend(frame(ORDER, 2, &[(3, &[0, 0, 0, 1]), (4, b"x")]));
    input.extend(frame(ORDER, 2, &[(3, &[0, 0, 0, 2]), (4, b"x")]));
    let mut answers = Vec::new();
    while !input.is_empty() || !matches!(action, Action::Read(_)) {
        let event = match drive(&mut session, action, &mut input) {
            Action::Spawn(_, _) => Event::Spawned(1, 0),
            Action::Feed(_, _) => Event::Fed(true),
            Action::Watch(_) => Event::Watched,
            Action::Send(message) => {
                answers.push(message.to_bytes(ORDER)[0]);
                Event::Sent
            }
            other => panic!("unexpected {other:?}"),
        };
        action = session.step(event);
    }
    assert_eq!(answers, vec![6, 2, 1, 1, 3]);
}

#[test]
fn writer_is_kept_while_a_request_is_carried_out() {
    assert!(!Action::Read(4).keeps_writer());
    assert!(!Action::Discard(4).keeps_writer());
    assert!(!Action::Stop.keeps_writer());
    assert!(Action::Spawn("ls".to_string(), Vec::new()).keeps_writer());
    assert!(Action::Feed(1, Vec::new()).keeps_writer());
    assert!(Action::Send(GenericError::new(ResultCode::Success)).keeps_writer());
    assert!(Action::Watch(1).keeps_writer());
}

#[test]
fn padding_of_a_request_means_nothing() {
    for padding in [0, 1, 0xff] {
        let (mut session, action) = Session::<u8>::open(ORDER);
        let mut input = frame(ORDER, 1, &[(1, b"ls")]);
        input[3] = padding;
        input.extend_from_slice(b"rest");
        let action = drive(&mut session, action, &mut input);
        assert_eq!(action, Action::Spawn("ls".to_string(), Vec::new()));
        assert_eq!(input, b"rest");
    }
}

#[test]
fn bytes_that_a_request_leaves_begin_the_next() {
    let (mut session, action) = Session::<u8>::open(ORDER);
    let mut input = frame(ORDER, 2, &[(1, &[9, 0, 0, 7])]);
    input.extend(frame(ORDER, 1, &[(1, b"ls")]));
    let action = drive(&mut session, action, &mut input);
    let text = "No write target";
    let message =
        GenericError::new(ResultCode::InvalidState).attr(AttrName::Message, &text, ORDER);
    assert_eq!(action, Action::Send(message));
    let action = session.step(Event::Sent);
    let action = drive(&mut session, action, &mut input);
    assert_eq!(action, Action::Send(GenericError::new(ResultCode::UnknownOp)));
    let action = session.step(Event::Sent);
    let action = drive(&mut session, action, &mut input);
    assert_eq!(action, Action::Spawn("ls".to_string(), Vec::new()));
}
