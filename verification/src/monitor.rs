//! News of processes: what they print, how they end, and how it gets to the
//! peer.

use crate::message::{countable, field, Empty, Field, GenericError, Message};
use crate::order::{i32_bits, law_bits_of_signed, law_u32_weights, ByteOrder};
use crate::proto::{AttrName, ResultCode};
use vstd::prelude::*;

verus! {

/// The message `result` about one output of the process `pid`, with the bytes
/// that were printed, if any. Standard error is marked as such.
pub open spec fn output_message(
    order: ByteOrder,
    result: ResultCode,
    pid: u32,
    data: Option<Seq<u8>>,
    is_stderr: bool,
) -> Message {
    let about = seq![field(AttrName::Pid, order.u32_bytes(pid))];
    let printed = match data {
        Some(bytes) => seq![field(AttrName::Data, bytes)],
        None => Seq::<Field>::empty(),
    };
    let mark = if is_stderr {
        seq![field(AttrName::Stderr, Seq::empty())]
    } else {
        Seq::<Field>::empty()
    };
    Message { result, attrs: about + printed + mark }
}

/// What follows from one read of an output.
#[verifier::ext_equal]
pub enum News {
    /// Nothing: the read is tried again.
    Retry,
    /// This message is queued, and the output is read again.
    Queue(Message),
    /// This message is queued, and the output is read no more.
    Finish(Message),
}

/// What follows from one read of an output, as a value to act on.
#[derive(Debug, PartialEq, Eq)]
pub enum OutputStep {
    /// Nothing: the read is tried again.
    Retry,
    /// This message is queued, and the output is read again.
    Queue(GenericError),
    /// This message is queued, and the output is read no more.
    Finish(GenericError),
}

impl View for OutputStep {
    type V = News;

    open spec fn view(&self) -> News {
        match self {
            OutputStep::Retry => News::Retry,
            OutputStep::Queue(message) => News::Queue(message@),
            OutputStep::Finish(message) => News::Finish(message@),
        }
    }
}

/// What follows from one read of an output: from one that failed, from one
/// that gave bytes, and from one that gave none because the output is closed.
pub open spec fn output_news(
    order: ByteOrder,
    pid: u32,
    is_stderr: bool,
    read: Option<Seq<u8>>,
) -> News {
    match read {
        None => News::Retry,
        Some(bytes) => if bytes.len() > 0 {
            News::Queue(output_message(order, ResultCode::Output, pid, Some(bytes), is_stderr))
        } else {
            News::Finish(output_message(order, ResultCode::Close, pid, None, is_stderr))
        },
    }
}

/// Takes in one read of an output of the process `pid`, which is `None` if it
/// failed, and says what follows from it.
pub fn output_monitor(
    order: ByteOrder,
    pid: u32,
    is_stderr: bool,
    read: Option<&[u8]>,
) -> (r: OutputStep)
    ensures
        r@ == output_news(
            order,
            pid,
            is_stderr,
            match read {
                Some(bytes) => Some(bytes@),
                None => None,
            },
        ),
{
    match read {
        None => OutputStep::Retry,
        Some(bytes) => {
            if bytes.len() > 0 {
                let mut err = GenericError::new(ResultCode::Output).attr(
                    AttrName::Pid,
                    &pid,
                    order,
                ).attr(AttrName::Data, bytes, order);
                if is_stderr {
                    err = err.attr(AttrName::Stderr, &Empty {  }, order);
                }
                assert(err@.attrs =~= output_message(
                    order,
                    ResultCode::Output,
                    pid,
                    Some(bytes@),
                    is_stderr,
                ).attrs);
                OutputStep::Queue(err)
            } else {
                let mut err = GenericError::new(ResultCode::Close).attr(AttrName::Pid, &pid, order);
                if is_stderr {
                    err = err.attr(AttrName::Stderr, &Empty {  }, order);
                }
                assert(err@.attrs =~= output_message(
                    order,
                    ResultCode::Close,
                    pid,
                    None,
                    is_stderr,
                ).attrs);
                OutputStep::Finish(err)
            }
        },
    }
}

/// What came of waiting for a process.
#[derive(Debug, Clone, Copy, PartialEq, Eq, Structural)]
pub enum Waited {
    /// It could not be waited for.
    Failed,
    /// It ended with this code.
    Exited(i32),
}

/// The message that the process `pid` has ended with `code`.
pub open spec fn exit_message(order: ByteOrder, pid: u32, code: i32) -> Message {
    Message {
        result: ResultCode::Sigchild,
        attrs: seq![
            field(AttrName::Pid, order.u32_bytes(pid)),
            field(AttrName::ExitCode, order.u32_bytes(i32_bits(code))),
        ],
    }
}

/// The message to queue once the process `pid` has been waited for, if any.
pub fn process_monitor(order: ByteOrder, pid: u32, waited: Waited) -> (r: Option<GenericError>)
    ensures
        match waited {
            Waited::Failed => r is None,
            Waited::Exited(code) => r matches Some(message) && message@ == exit_message(
                order,
                pid,
                code,
            ),
        },
{
    match waited {
        Waited::Failed => None,
        Waited::Exited(code) => {
            let message = GenericError::new(ResultCode::Sigchild).attr(
                AttrName::Pid,
                &pid,
                order,
            ).attr(AttrName::ExitCode, &code, order);
            assert(message@.attrs =~= exit_message(order, pid, code).attrs);
            Some(message)
        },
    }
}

/// What the writer of queued messages is told.
#[derive(Debug, PartialEq, Eq)]
pub enum WriterEvent {
    /// This came from the queue; `None` once nobody can add to it any more.
    Received(Option<GenericError>),
    /// The message was sent, or could not be.
    Sent(bool),
}

/// What the writer of queued messages does next.
#[derive(Debug, PartialEq, Eq)]
pub enum WriterStep {
    /// Takes the next message from the queue.
    Receive,
    /// Sends this message.
    Send(GenericError),
    /// Nothing more.
    Stop,
}

/// What the writer does once it is told `event`: it sends every message that it
/// receives, and stops after the last one or after one that could not be sent.
pub open spec fn writer_next(event: WriterEvent) -> WriterStep {
    match event {
        WriterEvent::Received(Some(pending)) => WriterStep::Send(pending),
        WriterEvent::Received(None) => WriterStep::Stop,
        WriterEvent::Sent(true) => WriterStep::Receive,
        WriterEvent::Sent(false) => WriterStep::Stop,
    }
}

/// Takes in what the writer was told, and says what it does next.
pub fn write_half(event: WriterEvent) -> (r: WriterStep)
    ensures
        r == writer_next(event),
{
    match event {
        WriterEvent::Received(None) => WriterStep::Stop,
        WriterEvent::Received(Some(pending)) => WriterStep::Send(pending),
        WriterEvent::Sent(ok) => if ok {
            WriterStep::Receive
        } else {
            WriterStep::Stop
        },
    }
}

/// The news of an output over a run of reads, up to the one that finds it
/// closed.
pub open spec fn output_run(
    order: ByteOrder,
    pid: u32,
    is_stderr: bool,
    reads: Seq<Option<Seq<u8>>>,
) -> Seq<Message>
    decreases reads.len(),
{
    if reads.len() == 0 {
        Seq::empty()
    } else {
        match output_news(order, pid, is_stderr, reads[0]) {
            News::Retry => output_run(order, pid, is_stderr, reads.drop_first()),
            News::Queue(message) => seq![message] + output_run(
                order,
                pid,
                is_stderr,
                reads.drop_first(),
            ),
            News::Finish(message) => seq![message],
        }
    }
}

/// All the bytes that a run of reads gives before one finds the output closed.
pub open spec fn printed(reads: Seq<Option<Seq<u8>>>) -> Seq<u8>
    decreases reads.len(),
{
    if reads.len() == 0 {
        Seq::empty()
    } else {
        match reads[0] {
            None => printed(reads.drop_first()),
            Some(bytes) => if bytes.len() == 0 {
                Seq::empty()
            } else {
                bytes + printed(reads.drop_first())
            },
        }
    }
}

/// All the bytes that the messages of an output carry.
pub open spec fn carried(messages: Seq<Message>) -> Seq<u8>
    decreases messages.len(),
{
    if messages.len() == 0 {
        Seq::empty()
    } else {
        let here = if messages[0].result is Output {
            messages[0].attrs[1].data
        } else {
            Seq::empty()
        };
        here + carried(messages.drop_first())
    }
}

/// The peer is told of every byte of an output, in order, and of nothing else,
/// whatever reads fail in between.
pub proof fn law_output_complete(
    order: ByteOrder,
    pid: u32,
    is_stderr: bool,
    reads: Seq<Option<Seq<u8>>>,
)
    ensures
        carried(output_run(order, pid, is_stderr, reads)) == printed(reads),
    decreases reads.len(),
{
    if reads.len() > 0 {
        law_output_complete(order, pid, is_stderr, reads.drop_first());
        let others = output_run(order, pid, is_stderr, reads.drop_first());
        match output_news(order, pid, is_stderr, reads[0]) {
            News::Retry => {},
            News::Queue(message) => {
                assert((seq![message] + others).drop_first() =~= others);
                assert(message.attrs[1] == field(AttrName::Data, reads[0]->Some_0));
            },
            News::Finish(message) => {
                reveal_with_fuel(carried, 2);
                assert(seq![message].drop_first() =~= Seq::empty());
                assert(carried(seq![message]) =~= Seq::empty());
            },
        }
    }
}

/// One of `reads` finds the output closed.
pub open spec fn finds_closed(reads: Seq<Option<Seq<u8>>>) -> bool {
    exists|i: int|
        0 <= i < reads.len() && (#[trigger] reads[i] matches Some(bytes) && bytes.len() == 0)
}

/// The last message of an output says that it is closed if and only if a read
/// finds it closed; all messages before the last one carry what was printed.
/// So the peer is told of the end exactly once, and nothing after it.
pub proof fn law_close_is_last(
    order: ByteOrder,
    pid: u32,
    is_stderr: bool,
    reads: Seq<Option<Seq<u8>>>,
)
    ensures
        ({
            let messages = output_run(order, pid, is_stderr, reads);
            &&& finds_closed(reads) <==> messages.len() > 0 && messages.last().result is Close
            &&& messages.len() > 0 ==> messages.last().result is Close
                || messages.last().result is Output
            &&& forall|i: int|
                0 <= i < messages.len() - 1 ==> (#[trigger] messages[i]).result is Output
        }),
    decreases reads.len(),
{
    if reads.len() > 0 {
        let later = reads.drop_first();
        let others = output_run(order, pid, is_stderr, later);
        law_close_is_last(order, pid, is_stderr, later);
        assert(finds_closed(reads) <==> (reads[0] matches Some(bytes) && bytes.len() == 0)
            || finds_closed(later)) by {
            if finds_closed(later) {
                let i = choose|i: int|
                    0 <= i < later.len() && (#[trigger] later[i] matches Some(bytes) && bytes.len()
                        == 0);
                assert(reads[i + 1] == later[i]);
            }
            if finds_closed(reads) {
                let i = choose|i: int|
                    0 <= i < reads.len() && (#[trigger] reads[i] matches Some(bytes) && bytes.len()
                        == 0);
                if i > 0 {
                    assert(later[i - 1] == reads[i]);
                }
            }
        }
        if let News::Queue(message) = output_news(order, pid, is_stderr, reads[0]) {
            let messages = seq![message] + others;
            assert forall|i: int| 0 <= i < messages.len() - 1 implies (
            #[trigger] messages[i]).result is Output by {
                if i > 0 {
                    assert(messages[i] == others[i - 1]);
                }
            }
            if others.len() > 0 {
                assert(messages.last() == others.last());
            }
        }
    }
}

/// The counts of all news fit their fields in the headers, as long as a read
/// gives less than the header of an attribute can count.
pub proof fn law_news_countable(
    order: ByteOrder,
    result: ResultCode,
    pid: u32,
    data: Option<Seq<u8>>,
    is_stderr: bool,
    code: i32,
)
    requires
        data matches Some(bytes) ==> bytes.len() < 0x1_0000,
    ensures
        countable(output_message(order, result, pid, data, is_stderr).attrs),
        countable(exit_message(order, pid, code).attrs),
{
}

/// `events` are each one that the step before it can have, where the writer
/// begins with `step`.
pub open spec fn writer_possible(step: WriterStep, events: Seq<WriterEvent>) -> bool
    decreases events.len(),
{
    events.len() == 0 || {
        &&& match step {
            WriterStep::Receive => events[0] is Received,
            WriterStep::Send(_) => events[0] is Sent,
            WriterStep::Stop => false,
        }
        &&& writer_possible(writer_next(events[0]), events.drop_first())
    }
}

/// What the writer does after `events`, where it begins with `step`.
pub open spec fn writer_after(step: WriterStep, events: Seq<WriterEvent>) -> WriterStep
    decreases events.len(),
{
    if events.len() == 0 {
        step
    } else {
        writer_after(writer_next(events[0]), events.drop_first())
    }
}

/// The messages that came from the queue.
pub open spec fn received(events: Seq<WriterEvent>) -> Seq<GenericError>
    decreases events.len(),
{
    if events.len() == 0 {
        Seq::empty()
    } else {
        match events[0] {
            WriterEvent::Received(Some(message)) => seq![message] + received(events.drop_first()),
            _ => received(events.drop_first()),
        }
    }
}

/// The messages that were sent, where the writer begins with `step`.
pub open spec fn sent(step: WriterStep, events: Seq<WriterEvent>) -> Seq<GenericError>
    decreases events.len(),
{
    if events.len() == 0 {
        Seq::empty()
    } else {
        let others = sent(writer_next(events[0]), events.drop_first());
        match (step, events[0]) {
            (WriterStep::Send(message), WriterEvent::Sent(true)) => seq![message] + others,
            _ => others,
        }
    }
}

/// The message that the writer has in hand at `step`.
pub open spec fn in_hand(step: WriterStep) -> Seq<GenericError> {
    match step {
        WriterStep::Send(message) => seq![message],
        _ => Seq::empty(),
    }
}

/// `event` is the last one that the writer takes.
pub open spec fn ends_writer(event: WriterEvent) -> bool {
    event == WriterEvent::Received(None) || event == WriterEvent::Sent(false)
}

/// A writer that is told nothing more has sent what it was given, up to what
/// it has in hand or what could not be sent.
proof fn lemma_writer_run(step: WriterStep, events: Seq<WriterEvent>)
    requires
        writer_possible(step, events),
    ensures
        ({
            let end = writer_after(step, events);
            let given = in_hand(step) + received(events);
            let out = sent(step, events);
            if events.len() > 0 && events.last() == WriterEvent::Sent(false) {
                given.len() > 0 && out == given.drop_last()
            } else {
                given == out + in_hand(end)
            }
        }),
        events.len() > 0 ==> (writer_after(step, events) is Stop <==> ends_writer(events.last())),
        forall|i: int| 0 <= i < events.len() - 1 ==> !ends_writer(#[trigger] events[i]),
    decreases events.len(),
{
    if events.len() == 0 {
        assert(in_hand(step) + received(events) =~= sent(step, events) + in_hand(step));
    } else {
        let next = writer_next(events[0]);
        let others = events.drop_first();
        lemma_writer_run(next, others);
        if others.len() > 0 {
            assert(writer_possible(next, others));
            assert(!(next is Stop));
            assert(others.last() == events.last());
            assert forall|i: int| 0 <= i < events.len() - 1 implies !ends_writer(
                #[trigger] events[i],
            ) by {
                if i > 0 {
                    assert(others[i - 1] == events[i]);
                }
            }
        }
        let given = in_hand(step) + received(events);
        let given2 = in_hand(next) + received(others);
        match events[0] {
            WriterEvent::Received(_) => {
                assert(given =~= given2);
                assert(sent(step, events) == sent(next, others));
            },
            WriterEvent::Sent(true) => {
                assert(given =~= in_hand(step) + given2);
                assert(sent(step, events) == in_hand(step) + sent(next, others));
                if events.last() == WriterEvent::Sent(false) {
                    assert(given.drop_last() =~= in_hand(step) + given2.drop_last());
                } else {
                    assert(given =~= sent(step, events) + in_hand(writer_after(step, events)));
                }
            },
            WriterEvent::Sent(false) => {
                assert(others.len() == 0);
                assert(given =~= in_hand(step));
                assert(sent(step, events) =~= given.drop_last());
            },
        }
    }
}

/// The writer sends every message that it receives, once and in their order:
/// all of them but the one in hand, and but the one that could not be sent if
/// that is how it ended. It takes the next message only when it has sent the
/// one before, and after a message that could not be sent, or the end of the
/// queue, it takes nothing more.
pub proof fn law_writer_sends_all(events: Seq<WriterEvent>)
    requires
        writer_possible(WriterStep::Receive, events),
    ensures
        ({
            let end = writer_after(WriterStep::Receive, events);
            let out = sent(WriterStep::Receive, events);
            if events.len() > 0 && events.last() == WriterEvent::Sent(false) {
                received(events).len() > 0 && out == received(events).drop_last()
            } else {
                received(events) == out + in_hand(end)
            }
        }),
        events.len() > 0 ==> (writer_after(WriterStep::Receive, events) is Stop <==> ends_writer(
            events.last(),
        )),
        forall|i: int| 0 <= i < events.len() - 1 ==> !ends_writer(#[trigger] events[i]),
{
    lemma_writer_run(WriterStep::Receive, events);
    assert(in_hand(WriterStep::Receive) + received(events) =~= received(events));
}

/// A read that failed is tried again. Bytes that were read are queued as they
/// are, under the number of the process; the end of the output is queued
/// without any, and is the last. A message of an output has a mark, the
/// attribute with the number 5, if and only if the output is standard error,
/// whatever was read.
pub proof fn law_output_told(
    order: ByteOrder,
    pid: u32,
    is_stderr: bool,
    read: Option<&[u8]>,
    r: OutputStep,
)
    requires
        call_ensures(output_monitor, (order, pid, is_stderr, read), r),
    ensures
        r is Retry <==> read is None,
        r is Queue <==> (read matches Some(bytes) && bytes@.len() > 0),
        r is Finish <==> (read matches Some(bytes) && bytes@.len() == 0),
        r matches OutputStep::Queue(m) ==> {
            &&& m@.result is Output
            &&& m@.attrs.len() == if is_stderr {
                3int
            } else {
                2
            }
            &&& m@.attrs[1].name == 4
            &&& read matches Some(bytes) && m@.attrs[1].data == bytes@
            &&& is_stderr ==> m@.attrs[2].data.len() == 0
        },
        r matches OutputStep::Finish(m) ==> {
            &&& m@.result is Close
            &&& m@.attrs.len() == if is_stderr {
                2int
            } else {
                1
            }
            &&& is_stderr ==> m@.attrs[1].data.len() == 0
        },
        forall|m: GenericError|
            (r == OutputStep::Queue(m) || r == OutputStep::Finish(m)) ==> {
                let b = (#[trigger] m@).attrs[0].data;
                &&& m@.attrs[0].name == 3
                &&& b.len() == 4
                &&& order is Little ==> b[0] + 256 * b[1] + 65536 * b[2] + 16777216 * b[3] == pid
                &&& order is Big ==> 16777216 * b[0] + 65536 * b[1] + 256 * b[2] + b[3] == pid
                &&& is_stderr <==> exists|i: int|
                    0 <= i < m@.attrs.len() && (#[trigger] m@.attrs[i]).name == 5
                &&& is_stderr ==> m@.attrs.last().name == 5
            },
{
    law_u32_weights(order, pid, Seq::empty());
    assert forall|m: GenericError|
        (r == OutputStep::Queue(m) || r == OutputStep::Finish(m)) implies is_stderr <==> exists|
        i: int,
    |
        0 <= i < (#[trigger] m@).attrs.len() && (#[trigger] m@.attrs[i]).name == 5 by {
        if is_stderr {
            let last = m@.attrs.len() - 1;
            assert(m@.attrs[last].name == 5);
        }
    }
}

/// News of the end of a process has two attributes, the number of the process
/// and the code that it ended with, and both can be read back: the number
/// adds up by the weights of its four bytes, and so does the code, as a
/// two's-complement number. Where the process could not be waited for, there
/// is no news.
pub proof fn law_end_told(order: ByteOrder, pid: u32, waited: Waited, r: Option<GenericError>)
    requires
        call_ensures(process_monitor, (order, pid, waited), r),
    ensures
        r is None <==> waited is Failed,
        r matches Some(m) ==> {
            let p = m@.attrs[0].data;
            let c = m@.attrs[1].data;
            let up = c[0] + 256 * c[1] + 65536 * c[2] + 16777216 * c[3];
            let down = 16777216 * c[0] + 65536 * c[1] + 256 * c[2] + c[3];
            &&& m@.result is Sigchild
            &&& m@.attrs.len() == 2
            &&& m@.attrs[0].name == 3
            &&& m@.attrs[1].name == 6
            &&& p.len() == 4
            &&& c.len() == 4
            &&& order is Little ==> p[0] + 256 * p[1] + 65536 * p[2] + 16777216 * p[3] == pid
            &&& order is Big ==> 16777216 * p[0] + 65536 * p[1] + 256 * p[2] + p[3] == pid
            &&& waited matches Waited::Exited(code) && {
                &&& order is Little ==> up - code == 0 || up - code == 4294967296
                &&& order is Big ==> down - code == 0 || down - code == 4294967296
            }
        },
{
    law_u32_weights(order, pid, Seq::empty());
    if let Waited::Exited(code) = waited {
        law_u32_weights(order, i32_bits(code), Seq::empty());
        law_bits_of_signed(code);
    }
}

/// News of the ends of two processes differ if their numbers or their codes
/// do.
pub proof fn law_ends_told_apart(
    order: ByteOrder,
    pid1: u32,
    code1: i32,
    r1: Option<GenericError>,
    pid2: u32,
    code2: i32,
    r2: Option<GenericError>,
)
    requires
        call_ensures(process_monitor, (order, pid1, Waited::Exited(code1)), r1),
        call_ensures(process_monitor, (order, pid2, Waited::Exited(code2)), r2),
        r1 matches Some(m1) && r2 matches Some(m2) && m1@ == m2@,
    ensures
        pid1 == pid2,
        code1 == code2,
{
    law_end_told(order, pid1, Waited::Exited(code1), r1);
    law_end_told(order, pid2, Waited::Exited(code2), r2);
}

/// The writer sends each message that it receives as it is, takes the next one
/// once that is sent, and stops at the end of the queue or when it could not
/// send.
pub proof fn law_writer_step(event: WriterEvent, r: WriterStep)
    requires
        call_ensures(write_half, (event,), r),
    ensures
        event matches WriterEvent::Received(Some(m)) ==> r == WriterStep::Send(m),
        r matches WriterStep::Send(m) ==> event == WriterEvent::Received(Some(m)),
        r is Receive <==> event == WriterEvent::Sent(true),
        r is Stop <==> event == WriterEvent::Received(None) || event == WriterEvent::Sent(false),
{
}

} // verus!
