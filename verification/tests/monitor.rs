use procserve::message::{Empty, GenericError};
use procserve::monitor::{
    output_monitor, process_monitor, write_half, OutputStep, Waited, WriterEvent, WriterStep,
};
use procserve::order::ByteOrder;
use procserve::proto::{AttrName, ResultCode};

#[test]
fn output_is_queued() {
    let order = ByteOrder::Little;
    let message = GenericError::new(ResultCode::Output)
        .attr(AttrName::Pid, &7u32, order)
        .attr(AttrName::Data, &b"hi"[..], order);
    assert_eq!(output_monitor(order, 7, false, Some(b"hi")), OutputStep::Queue(message));
}

#[test]
fn standard_error_is_marked() {
    let order = ByteOrder::Big;
    let message = GenericError::new(ResultCode::Output)
        .attr(AttrName::Pid, &7u32, order)
        .attr(AttrName::Data, &b"oops"[..], order)
        .attr(AttrName::Stderr, &Empty {}, order);
    assert_eq!(output_monitor(order, 7, true, Some(b"oops")), OutputStep::Queue(message));
}

#[test]
fn closed_output_is_told_once() {
    let order = ByteOrder::Little;
    let message = GenericError::new(ResultCode::Close).attr(AttrName::Pid, &9u32, order);
    assert_eq!(output_monitor(order, 9, false, Some(b"")), OutputStep::Finish(message));
    let message = GenericError::new(ResultCode::Close)
        .attr(AttrName::Pid, &9u32, order)
        .attr(AttrName::Stderr, &Empty {}, order);
    assert_eq!(output_monitor(order, 9, true, Some(b"")), OutputStep::Finish(message));
}

#[test]
fn failed_read_is_tried_again() {
    assert_eq!(output_monitor(ByteOrder::Little, 9, true, None), OutputStep::Retry);
}

#[test]
fn all_output_is_carried() {
    let order = ByteOrder::Little;
    let reads: [Option<&[u8]>; 4] = [Some(b"ab"), None, Some(b"c"), Some(b"")];
    let mut carried = Vec::new();
    let mut closed = 0;
    for read in reads {
        match output_monitor(order, 3, false, read) {
            OutputStep::Retry => {}
            OutputStep::Queue(message) => carried.extend_from_slice(&message.to_bytes(order)[16..]),
            OutputStep::Finish(_) => closed += 1,
        }
    }
    assert_eq!(carried, b"abc");
    assert_eq!(closed, 1);
}

#[test]
fn end_of_a_process() {
    let order = ByteOrder::Little;
    let message = process_monitor(order, 258, Waited::Exited(-1)).unwrap();
    assert_eq!(
        message.to_bytes(order),
        vec![
            8, 0, 2, 0, // header
            3, 0, 4, 0, 2, 1, 0, 0, // the process
            6, 0, 4, 0, 0xff, 0xff, 0xff, 0xff, // its code
        ]
    );
    assert_eq!(process_monitor(order, 258, Waited::Failed), None);
}

#[test]
fn writer_steps() {
    let message = || GenericError::new(ResultCode::Success);
    assert_eq!(
        write_half(WriterEvent::Received(Some(message()))),
        WriterStep::Send(message())
    );
    assert_eq!(write_half(WriterEvent::Received(None)), WriterStep::Stop);
    assert_eq!(write_half(WriterEvent::Sent(true)), WriterStep::Receive);
    assert_eq!(write_half(WriterEvent::Sent(false)), WriterStep::Stop);
}

#[test]
fn close_is_the_last_message_of_an_output() {
    let order = ByteOrder::Little;
    let reads: [Option<&[u8]>; 5] = [None, Some(b"a"), Some(b"b"), None, Some(b"")];
    let mut results = Vec::new();
    for read in reads {
        match output_monitor(order, 3, true, read) {
            OutputStep::Retry => {}
            OutputStep::Queue(message) | OutputStep::Finish(message) => {
                results.push(message.to_bytes(order)[0])
            }
        }
    }
    assert_eq!(results, vec![7, 7, 9]);
}

/// Runs the writer on a queue, with the sends that come out as `sends`, and
/// gives what was sent, how many messages were received, and whether it
/// stopped.
fn run_writer(queue: &[u32], sends: &[bool]) -> (Vec<GenericError>, usize, bool) {
    let order = ByteOrder::Little;
    let mut queue = queue.iter();
    let mut sends = sends.iter();
    let mut sent = Vec::new();
    let mut received = 0;
    let mut step = WriterStep::Receive;
    loop {
        let event = match step {
            WriterStep::Receive => WriterEvent::Received(queue.next().map(|pid| {
                received += 1;
                GenericError::new(ResultCode::Output).attr(AttrName::Pid, pid, order)
            })),
            WriterStep::Send(message) => match sends.next() {
                Some(true) => {
                    sent.push(message);
                    WriterEvent::Sent(true)
                }
                Some(false) => WriterEvent::Sent(false),
                None => return (sent, received, false),
            },
            WriterStep::Stop => return (sent, received, true),
        };
        step = write_half(event);
    }
}

#[test]
fn writer_sends_all_in_order() {
    let order = ByteOrder::Little;
    let message =
        |pid: u32| GenericError::new(ResultCode::Output).attr(AttrName::Pid, &pid, order);
    let (sent, received, stopped) = run_writer(&[5, 6, 7], &[true, true, true]);
    assert_eq!(sent, vec![message(5), message(6), message(7)]);
    assert_eq!((received, stopped), (3, true));

    let (sent, received, stopped) = run_writer(&[5, 6, 7], &[true, false]);
    assert_eq!(sent, vec![message(5)]);
    assert_eq!((received, stopped), (2, true));

    let (sent, received, stopped) = run_writer(&[5, 6, 7], &[true]);
    assert_eq!(sent, vec![message(5)]);
    assert_eq!((received, stopped), (2, false));
}
