//! What holds of a connection from its start to its end.

use crate::message::{
    countable, field, fields_wire, frame, law_message_read_back, lemma_field_in_front, lemma_join,
    read_frame, Field, Message,
};
use crate::order::{law_u32_round_trip, law_u32_weights, ByteOrder};
use crate::proto::{
    law_command_round_trip, Attr, AttrName, Command, Opcode, ResultCode, ATTR_LEN, COMMAND_LEN,
};
use crate::request::{
    about, decide, invalid, law_about_a_process, law_refusal, parse_attrs, parse_request, plain,
    written, Decision, Request, StreamTarget, PID_LEN,
};
use crate::session::{closing, Course, Outcome, Stage, Step};
use crate::state::ProcState;
use crate::text::{law_text_read_back, pieces_whole, text_of, CHUNK_LEN};
use vstd::prelude::*;
use vstd::utf8::{
    decode_utf8, encode_utf8, is_ascii_chars, is_ascii_chars_encode_utf8, valid_utf8,
};

verus! {

/// How many reads a session at this stage can still ask for before it acts, at
/// most.
pub open spec fn reads_ahead<P>(stage: Stage<P>) -> nat {
    match stage {
        Stage::Header => 0x200,
        Stage::AttrHeader(_, left) => 2 * left,
        Stage::AttrBody(_, left, _, _) => (2 * left - 1) as nat,
        Stage::Skip(_, left, _) => (2 * left - 1) as nat,
        _ => 0,
    }
}

/// The session at a stage of reading has something left to read.
pub open spec fn reading<P>(stage: Stage<P>) -> bool {
    match stage {
        Stage::Header => true,
        Stage::AttrHeader(_, left) => 0 < left < 0x100,
        Stage::AttrBody(_, left, _, _) => 0 < left < 0x100,
        Stage::Skip(_, left, _) => 0 < left < 0x100,
        _ => false,
    }
}

/// What the session comes to, where its reads are answered out of `input`
/// until it asks for something else: the session, what it asks for, and the
/// bytes that are left. `None` where `input` ends before that, or has in it
/// what the session does not take.
pub open spec fn drive<P>(c: Course<P>, step: Step, input: Seq<u8>) -> Option<
    (Course<P>, Step, Seq<u8>),
>
    decreases reads_ahead(c.stage),
{
    if !reading(c.stage) {
        Some((c, step, input))
    } else {
        match step {
            Step::Read(n) => {
                let outcome = Outcome::Bytes(input.take(n as int));
                if input.len() < n || !c.accepts(outcome) {
                    None
                } else {
                    drive(c.next(outcome).0, c.next(outcome).1, input.skip(n as int))
                }
            },
            Step::Discard(n) => {
                let outcome = Outcome::Discarded;
                if input.len() < n || !c.accepts(outcome) {
                    None
                } else {
                    drive(c.next(outcome).0, c.next(outcome).1, input.skip(n as int))
                }
            },
            _ => None,
        }
    }
}

/// From the first attribute of a request on, a session takes out of its input
/// what the grammar says, and then does what the request calls for.
proof fn lemma_attrs_follow_grammar<P>(c: Course<P>, request: Request, n: nat, input: Seq<u8>)
    requires
        n < 0x100,
    ensures
        drive(c.gather(request, n).0, c.gather(request, n).1, input) == (match parse_attrs(
            c.order,
            request,
            n,
            input,
        ) {
            Some((whole, rest)) => Some(
                (
                    c.settle(decide(c.order, whole, c.processes.dom())).0,
                    c.settle(decide(c.order, whole, c.processes.dom())).1,
                    rest,
                ),
            ),
            None => None,
        }),
    decreases n,
{
    if n > 0 {
        let c1 = c.gather(request, n).0;
        if input.len() >= ATTR_LEN {
            let head = input.take(ATTR_LEN as int);
            let tail = input.skip(ATTR_LEN as int);
            let a = Attr::parse(c.order, head);
            let size = request.plan_code(a.attr, a.len).size() as int;
            let (c2, step2) = c1.next(Outcome::Bytes(head));
            assert(drive(c1, Step::Read(ATTR_LEN as nat), input) == drive(c2, step2, tail));
            if tail.len() >= size {
                let body = tail.take(size);
                assert(body =~= input.subrange(ATTR_LEN as int, ATTR_LEN + size));
                assert(tail.skip(size) =~= input.skip(ATTR_LEN + size));
                let request2 = request.with_code(a.attr, body);
                lemma_attrs_follow_grammar(c, request2, (n - 1) as nat, tail.skip(size));
                let (c3, step3) = c.gather(request2, (n - 1) as nat);
                if c2.stage is AttrBody {
                    assert(c2.next(Outcome::Bytes(body)) == (c3, step3));
                } else {
                    assert(c2.next(Outcome::Discarded) == (c3, step3));
                }
                assert(drive(c2, step2, tail) == drive(c3, step3, tail.skip(size)));
            }
        }
    }
}

/// A session that waits for a request takes the request out of its input byte
/// for byte as the grammar says, leaves what follows, and does what the
/// request calls for; where the input ends early, it does nothing.
pub proof fn law_session_follows_grammar<P>(c: Course<P>, input: Seq<u8>)
    requires
        c.stage is Header,
        input.len() >= COMMAND_LEN ==> !closing(c.order, input.take(COMMAND_LEN as int)),
    ensures
        drive(c, Step::Read(COMMAND_LEN as nat), input) == (match parse_request(c.order, input) {
            Some((whole, rest)) => Some(
                (
                    c.settle(decide(c.order, whole, c.processes.dom())).0,
                    c.settle(decide(c.order, whole, c.processes.dom())).1,
                    rest,
                ),
            ),
            None => None,
        }),
{
    if input.len() >= COMMAND_LEN {
        let head = input.take(COMMAND_LEN as int);
        let h = Command::parse(c.order, head);
        let request = Request::start(h.op);
        lemma_attrs_follow_grammar(
            c,
            request,
            h.num_attrs as nat,
            input.skip(COMMAND_LEN as int),
        );
        assert(c.next(Outcome::Bytes(head)) == c.gather(request, h.num_attrs as nat));
    }
}

/// `request` after all of `fields`.
pub open spec fn gathered(request: Request, fields: Seq<Field>) -> Request
    decreases fields.len(),
{
    if fields.len() == 0 {
        request
    } else {
        gathered(request.with_code(fields[0].name, fields[0].data), fields.drop_first())
    }
}

/// `request` takes from the stream as many bytes for each of `fields` as the
/// field has. A request to write does not look at the length of the number of
/// a process, or of a word or a text; all others always do.
pub open spec fn in_step(request: Request, fields: Seq<Field>) -> bool {
    request is Write ==> forall|i: int|
        0 <= i < fields.len() ==> match AttrName::of_code((#[trigger] fields[i]).name) {
            Ok(AttrName::Pid) => fields[i].data.len() == PID_LEN,
            Ok(AttrName::Command) => fields[i].data.len() == 0,
            Ok(AttrName::Message) => fields[i].data.len() == 0,
            _ => true,
        }
}

/// Attributes are taken from a stream up to the end of the last one.
proof fn lemma_attrs_in_frame(
    order: ByteOrder,
    request: Request,
    fields: Seq<Field>,
    rest: Seq<u8>,
)
    requires
        forall|i: int| 0 <= i < fields.len() ==> #[trigger] fields[i].data.len() < 0x1_0000,
        in_step(request, fields),
    ensures
        parse_attrs(order, request, fields.len(), fields_wire(order, fields) + rest) == Some(
            (gathered(request, fields), rest),
        ),
    decreases fields.len(),
{
    let s = fields_wire(order, fields) + rest;
    if fields.len() == 0 {
        assert(s =~= rest);
    } else {
        let first = fields[0];
        let others = fields.drop_first();
        let tail = fields_wire(order, others) + rest;
        let next = request.with_code(first.name, first.data);
        lemma_field_in_front(order, first, tail);
        assert(s == first.wire(order) + tail) by {
            lemma_join(first.wire(order), fields_wire(order, others), rest);
        }
        assert forall|i: int| 0 <= i < others.len() implies #[trigger] others[i] == fields[i
            + 1] by {}
        assert(in_step(next, others));
        lemma_attrs_in_frame(order, next, others, rest);
        let a = Attr::parse(order, s.take(ATTR_LEN as int));
        assert(a.attr == first.name && a.len == first.data.len());
        assert(request.plan_code(a.attr, a.len).size() == first.data.len());
    }
}

/// A request is taken from a stream up to the end of its frame, whatever
/// follows, and has all the attributes of the frame in their order. Its padding
/// means nothing. That leaves out requests to write with an attribute whose
/// length they pass over.
pub proof fn law_request_in_frame(
    order: ByteOrder,
    op: u16,
    padding: u8,
    fields: Seq<Field>,
    rest: Seq<u8>,
)
    requires
        countable(fields),
        in_step(Request::start(op), fields),
    ensures
        parse_request(order, frame(order, op, padding, fields) + rest) == Some(
            (gathered(Request::start(op), fields), rest),
        ),
{
    lemma_frame_header(order, op, padding, fields, rest);
    lemma_attrs_in_frame(order, Request::start(op), fields, rest);
}

/// A frame starts with its header.
proof fn lemma_frame_header(
    order: ByteOrder,
    op: u16,
    padding: u8,
    fields: Seq<Field>,
    rest: Seq<u8>,
)
    requires
        fields.len() < 0x100,
    ensures
        ({
            let s = frame(order, op, padding, fields) + rest;
            let c = Command { op, num_attrs: fields.len() as u8, padding };
            &&& s.len() >= COMMAND_LEN
            &&& Command::parse(order, s.take(COMMAND_LEN as int)) == c
            &&& s.skip(COMMAND_LEN as int) == fields_wire(order, fields) + rest
        }),
{
    let s = frame(order, op, padding, fields) + rest;
    let c = Command { op, num_attrs: fields.len() as u8, padding };
    law_command_round_trip(order, c, c.bytes(order));
    assert(s.take(COMMAND_LEN as int) =~= c.bytes(order));
    assert(s.skip(COMMAND_LEN as int) =~= fields_wire(order, fields) + rest);
}

/// What a peer sends to ask for one thing.
#[verifier::ext_equal]
pub struct Asked {
    pub op: u16,
    pub padding: u8,
    pub fields: Seq<Field>,
}

impl Asked {
    /// The request that this is.
    pub open spec fn request(self) -> Request {
        gathered(Request::start(self.op), self.fields)
    }

    /// The bytes that are sent.
    pub open spec fn wire(self, order: ByteOrder) -> Seq<u8> {
        frame(order, self.op, self.padding, self.fields)
    }

    /// It does not ask for something to be closed, its counts fit their fields
    /// in the headers, and the server goes by the lengths that it gives.
    pub open spec fn sound(self) -> bool {
        &&& Opcode::of_code(self.op) != Ok::<Opcode, u16>(Opcode::Close)
        &&& countable(self.fields)
        &&& in_step(Request::start(self.op), self.fields)
    }
}

/// A session that waits for a request takes what a peer asks out of its input,
/// leaves what follows, and does what the request calls for.
proof fn lemma_asked_taken<P>(c: Course<P>, a: Asked, rest: Seq<u8>)
    requires
        c.stage is Header,
        a.sound(),
    ensures
        drive(c, Step::Read(COMMAND_LEN as nat), a.wire(c.order) + rest) == Some(
            (
                c.settle(decide(c.order, a.request(), c.processes.dom())).0,
                c.settle(decide(c.order, a.request(), c.processes.dom())).1,
                rest,
            ),
        ),
{
    lemma_frame_header(c.order, a.op, a.padding, a.fields, rest);
    law_request_in_frame(c.order, a.op, a.padding, a.fields, rest);
    law_session_follows_grammar(c, a.wire(c.order) + rest);
}

/// The attributes of a request to start the program that `args` names.
pub open spec fn run_fields(args: Seq<Seq<char>>) -> Seq<Field> {
    args.map_values(|arg: Seq<char>| field(AttrName::Command, encode_utf8(arg)))
}

/// The texts of `args` reach the server as they are: none is too long for its
/// header, there are not too many of them, and each has at most one piece, or
/// pieces that end at the end of a character.
pub open spec fn deliverable(args: Seq<Seq<char>>) -> bool {
    &&& args.len() < 0x100
    &&& forall|i: int|
        0 <= i < args.len() ==> {
            &&& encode_utf8(#[trigger] args[i]).len() < 0x1_0000
            &&& encode_utf8(args[i]).len() <= CHUNK_LEN || pieces_whole(encode_utf8(args[i]))
        }
}

/// Words come back from the attributes that carry them.
proof fn lemma_words_gathered(done: Seq<Seq<char>>, args: Seq<Seq<char>>)
    requires
        deliverable(args),
    ensures
        gathered(Request::Run(done), run_fields(args)) == Request::Run(done + args),
    decreases args.len(),
{
    if args.len() == 0 {
        assert(done + args =~= done);
    } else {
        law_text_read_back(args[0]);
        let others = args.drop_first();
        assert forall|i: int| 0 <= i < others.len() implies #[trigger] others[i] == args[i + 1] by {
        }
        assert(run_fields(args).drop_first() =~= run_fields(others));
        assert(run_fields(args)[0] == field(AttrName::Command, encode_utf8(args[0])));
        lemma_words_gathered(done.push(args[0]), others);
        assert(done.push(args[0]) + others =~= done + args);
    }
}

/// A request to start a program is understood word for word: the session asks
/// for the first word to be started with the others as its arguments, and what
/// follows the request is left for the next.
pub proof fn law_run_request<P>(
    c: Course<P>,
    padding: u8,
    args: Seq<Seq<char>>,
    rest: Seq<u8>,
)
    requires
        c.stage is Header,
        args.len() > 0,
        deliverable(args),
    ensures
        drive(
            c,
            Step::Read(COMMAND_LEN as nat),
            frame(c.order, Opcode::Run.spec_code(), padding, run_fields(args)) + rest,
        ) == Some((c.at(Stage::Spawning), Step::Spawn(args[0], args.drop_first()), rest)),
{
    let fields = run_fields(args);
    assert forall|i: int| 0 <= i < fields.len() implies #[trigger] fields[i].data.len()
        < 0x1_0000 by {
        assert(encode_utf8(args[i]).len() < 0x1_0000);
    }
    lemma_words_gathered(Seq::empty(), args);
    assert(Seq::<Seq<char>>::empty() + args =~= args);
    lemma_asked_taken(c, Asked { op: Opcode::Run.spec_code(), padding, fields }, rest);
}

/// The attributes of a request to write `data` to the process `pid`.
pub open spec fn write_fields(pid: u32, data: Seq<u8>) -> Seq<Field> {
    seq![field(AttrName::Pid, ByteOrder::Big.u32_bytes(pid)), field(AttrName::Data, data)]
}

/// A request to write reaches the process that it names, with all of its data,
/// if the process is known, and is answered that it is not found if it is not.
/// In a request the number of the process goes most significant byte first.
pub proof fn law_write_request<P>(
    c: Course<P>,
    padding: u8,
    pid: u32,
    data: Seq<u8>,
    rest: Seq<u8>,
)
    requires
        c.stage is Header,
        data.len() < 0x1_0000,
    ensures
        drive(
            c,
            Step::Read(COMMAND_LEN as nat),
            frame(c.order, Opcode::Write.spec_code(), padding, write_fields(pid, data)) + rest,
        ) == Some(
            if c.processes.contains_key(pid) {
                (c.at(Stage::Feeding), Step::Feed(pid, data), rest)
            } else {
                (
                    c.at(Stage::Replying),
                    Step::Send(about(c.order, ResultCode::NotFound, pid)),
                    rest,
                )
            },
        ),
{
    let op = Opcode::Write.spec_code();
    let fields = write_fields(pid, data);
    let start = Request::start(op);
    law_u32_round_trip(ByteOrder::Big, pid, Seq::empty());
    reveal_with_fuel(gathered, 3);
    assert(fields.drop_first()[0] == fields[1]);
    assert(gathered(start, fields) == Request::Write(Some(StreamTarget::PidStream(pid)), data));
    lemma_asked_taken(c, Asked { op, padding, fields }, rest);
}

/// Attributes that are not known change nothing.
proof fn lemma_unknown_attrs(request: Request, fields: Seq<Field>)
    requires
        forall|i: int|
            0 <= i < fields.len() ==> AttrName::of_code((#[trigger] fields[i]).name) is Err,
    ensures
        gathered(request, fields) == request,
    decreases fields.len(),
{
    if fields.len() > 0 {
        let others = fields.drop_first();
        assert forall|i: int| 0 <= i < others.len() implies AttrName::of_code(
            (#[trigger] others[i]).name,
        ) is Err by {
            assert(others[i] == fields[i + 1]);
        }
        assert(AttrName::of_code(fields[0].name) is Err);
        lemma_unknown_attrs(request, others);
    }
}

/// A request to start a program that has no words, whatever else it has, is
/// refused for want of them.
pub proof fn law_run_refused<P>(
    c: Course<P>,
    padding: u8,
    fields: Seq<Field>,
    rest: Seq<u8>,
)
    requires
        c.stage is Header,
        countable(fields),
        forall|i: int|
            0 <= i < fields.len() ==> AttrName::of_code((#[trigger] fields[i]).name) is Err,
    ensures
        drive(
            c,
            Step::Read(COMMAND_LEN as nat),
            frame(c.order, Opcode::Run.spec_code(), padding, fields) + rest,
        ) == Some((c.at(Stage::Replying), Step::Send(invalid("No arguments given"@)), rest)),
{
    let op = Opcode::Run.spec_code();
    lemma_unknown_attrs(Request::start(op), fields);
    lemma_asked_taken(c, Asked { op, padding, fields }, rest);
}

/// A request to write has no target without the number of a process.
proof fn lemma_no_target(buf: Seq<u8>, fields: Seq<Field>)
    requires
        forall|i: int|
            0 <= i < fields.len() ==> (#[trigger] fields[i]).name != AttrName::Pid.spec_code(),
    ensures
        gathered(Request::Write(None, buf), fields) matches Request::Write(target, _)
            && target is None,
    decreases fields.len(),
{
    if fields.len() > 0 {
        let others = fields.drop_first();
        assert forall|i: int| 0 <= i < others.len() implies (#[trigger] others[i]).name
            != AttrName::Pid.spec_code() by {
            assert(others[i] == fields[i + 1]);
        }
        assert(fields[0].name != AttrName::Pid.spec_code());
        match Request::Write(None, buf).with_code(fields[0].name, fields[0].data) {
            Request::Write(_, next) => {
                lemma_no_target(next, others);
            },
            _ => {},
        }
    }
}

/// A request to write that names no process, whatever else it has, is refused
/// for want of a target.
pub proof fn law_write_refused<P>(
    c: Course<P>,
    padding: u8,
    fields: Seq<Field>,
    rest: Seq<u8>,
)
    requires
        c.stage is Header,
        countable(fields),
        in_step(Request::start(Opcode::Write.spec_code()), fields),
        forall|i: int|
            0 <= i < fields.len() ==> (#[trigger] fields[i]).name != AttrName::Pid.spec_code(),
    ensures
        drive(
            c,
            Step::Read(COMMAND_LEN as nat),
            frame(c.order, Opcode::Write.spec_code(), padding, fields) + rest,
        ) == Some((c.at(Stage::Replying), Step::Send(invalid("No write target"@)), rest)),
{
    let op = Opcode::Write.spec_code();
    lemma_no_target(Seq::empty(), fields);
    lemma_asked_taken(c, Asked { op, padding, fields }, rest);
}

/// A request that is not known is taken from the stream with all of its
/// attributes and answered so, and what follows it is left for the next.
pub proof fn law_unknown_request<P>(
    c: Course<P>,
    op: u16,
    padding: u8,
    fields: Seq<Field>,
    rest: Seq<u8>,
)
    requires
        c.stage is Header,
        Opcode::of_code(op) is Err,
        countable(fields),
    ensures
        drive(c, Step::Read(COMMAND_LEN as nat), frame(c.order, op, padding, fields) + rest) == Some(
            (c.at(Stage::Replying), Step::Send(plain(ResultCode::UnknownOp)), rest),
        ),
{
    lemma_unknown_stays(fields);
    lemma_asked_taken(c, Asked { op, padding, fields }, rest);
}

/// No attribute makes an unknown request known.
proof fn lemma_unknown_stays(fields: Seq<Field>)
    ensures
        gathered(Request::Unknown, fields) is Unknown,
    decreases fields.len(),
{
    if fields.len() > 0 {
        lemma_unknown_stays(fields.drop_first());
    }
}

/// The bytes by which the server tells the number of a process name the same
/// process in a request if and only if the machine stores that number most
/// significant byte first.
pub proof fn law_told_pid_in_request(order: ByteOrder, pid: u32)
    ensures
        ByteOrder::Big.u32_value(order.u32_bytes(pid)) == pid <==> order.u32_bytes(pid)
            == ByteOrder::Big.u32_bytes(pid),
        order is Big ==> ByteOrder::Big.u32_value(order.u32_bytes(pid)) == pid,
{
    law_u32_round_trip(order, pid, Seq::empty());
    law_u32_round_trip(ByteOrder::Big, pid, order.u32_bytes(pid));
}

/// `outcomes` are each one that the session can take when it comes.
pub open spec fn possible<P>(c: Course<P>, outcomes: Seq<Outcome<P>>) -> bool
    decreases outcomes.len(),
{
    outcomes.len() == 0 || c.accepts(outcomes[0]) && possible(
        c.next(outcomes[0]).0,
        outcomes.drop_first(),
    )
}

/// The session after `outcomes`.
pub open spec fn after<P>(c: Course<P>, outcomes: Seq<Outcome<P>>) -> Course<P>
    decreases outcomes.len(),
{
    if outcomes.len() == 0 {
        c
    } else {
        after(c.next(outcomes[0]).0, outcomes.drop_first())
    }
}

/// How many messages the session sends on the way through `outcomes`.
pub open spec fn answers<P>(c: Course<P>, outcomes: Seq<Outcome<P>>) -> nat
    decreases outcomes.len(),
{
    if outcomes.len() == 0 {
        0
    } else {
        let (next, step) = c.next(outcomes[0]);
        answers(next, outcomes.drop_first()) + if step is Send {
            1nat
        } else {
            0nat
        }
    }
}

/// How many requests begin among `outcomes`.
pub open spec fn requests<P>(c: Course<P>, outcomes: Seq<Outcome<P>>) -> nat
    decreases outcomes.len(),
{
    if outcomes.len() == 0 {
        0
    } else {
        let begins = c.stage is Header && outcomes[0] is Bytes && outcomes[0]->Bytes_0.len() > 0;
        requests(c.next(outcomes[0]).0, outcomes.drop_first()) + if begins {
            1nat
        } else {
            0nat
        }
    }
}

/// How many requests have begun and not been answered, at this stage.
pub open spec fn owed<P>(stage: Stage<P>) -> nat {
    match stage {
        Stage::AttrHeader(_, _) => 1,
        Stage::AttrBody(_, _, _, _) => 1,
        Stage::Skip(_, _, _) => 1,
        Stage::Spawning => 1,
        Stage::Feeding => 1,
        _ => 0,
    }
}

/// While the connection lasts, every request is answered with one message,
/// neither more nor less, and before the next request is begun. Where it comes
/// to an end in the middle of a request, at most that one has no answer.
pub proof fn law_one_answer_each<P>(c: Course<P>, outcomes: Seq<Outcome<P>>)
    requires
        possible(c, outcomes),
    ensures
        !(after(c, outcomes).stage is Stopped) ==> answers(c, outcomes) + owed(
            after(c, outcomes).stage,
        ) == requests(c, outcomes) + owed(c.stage),
        answers(c, outcomes) <= requests(c, outcomes) + owed(c.stage) <= answers(c, outcomes) + 1,
        c.stage is Header && after(c, outcomes).stage is Header ==> answers(c, outcomes)
            == requests(c, outcomes),
    decreases outcomes.len(),
{
    if outcomes.len() > 0 {
        let next = c.next(outcomes[0]).0;
        let others = outcomes.drop_first();
        law_one_answer_each(next, others);
        if next.stage is Stopped && others.len() > 0 {
            reveal_with_fuel(possible, 2);
            assert(!next.accepts(others[0]));
        }
    }
}

/// A process that is known stays known.
pub proof fn law_processes_stay<P>(c: Course<P>, outcomes: Seq<Outcome<P>>, pid: u32)
    requires
        possible(c, outcomes),
        c.processes.contains_key(pid),
    ensures
        after(c, outcomes).processes.contains_key(pid),
    decreases outcomes.len(),
{
    if outcomes.len() > 0 {
        law_processes_stay(c.next(outcomes[0]).0, outcomes.drop_first(), pid);
    }
}

/// The processes that are known change at one point only: when the peer has
/// been told of one that was started, that one becomes known, and it is the
/// one that is watched next. One that the peer could not be told of does not.
pub proof fn law_known_once_told<P>(c: Course<P>, outcome: Outcome<P>)
    requires
        c.accepts(outcome),
    ensures
        match (c.stage, outcome) {
            (Stage::Announcing(pid, process), Outcome::Sent) => {
                &&& c.next(outcome).0.processes == c.processes.insert(pid, process)
                &&& c.next(outcome).1 == Step::Watch(pid)
            },
            _ => {
                &&& c.next(outcome).0.processes == c.processes
                &&& !(c.next(outcome).1 is Watch)
            },
        },
{
}

/// A session that has stopped takes nothing more and so asks for nothing more;
/// it stops where an action has failed, or where the peer has ended the stream
/// between two requests, and nowhere else.
pub proof fn law_stop<P>(c: Course<P>, outcome: Outcome<P>)
    ensures
        c.stage is Stopped ==> !c.accepts(outcome),
        c.accepts(outcome) ==> (c.next(outcome).0.stage is Stopped <==> c.next(outcome).1 is Stop),
        c.accepts(outcome) ==> (c.next(outcome).1 is Stop <==> (outcome is Failed || c.stage
            is Header && outcome == Outcome::<P>::Bytes(Seq::empty()))),
{
    if c.stage is Header && outcome is Bytes && outcome->Bytes_0.len() == 0 {
        assert(outcome->Bytes_0 =~= Seq::empty());
    }
}

/// The session has the peer to itself from the end of a request to the start
/// of the next, and at no other time.
pub proof fn law_writer_kept_while_acting<P>(c: Course<P>, outcome: Outcome<P>)
    requires
        c.accepts(outcome),
    ensures
        ({
            let stage = c.next(outcome).0.stage;
            c.next(outcome).1.keeps_writer() <==> !(stage is Header || stage is AttrHeader || stage
                is AttrBody || stage is Skip || stage is Stopped)
        }),
{
}

/// A text of ASCII characters has as many bytes.
proof fn lemma_ascii_len(text: Seq<char>)
    requires
        is_ascii_chars(text),
    ensures
        encode_utf8(text).len() == text.len(),
{
    is_ascii_chars_encode_utf8(text);
}

/// The counts of every answer of a session fit their fields in the headers.
pub proof fn law_answer_countable<P>(c: Course<P>, outcome: Outcome<P>)
    requires
        c.accepts(outcome),
    ensures
        c.next(outcome).1 matches Step::Send(m) ==> countable(m.attrs),
{
    reveal_strlit("No arguments given");
    reveal_strlit("No write target");
    lemma_ascii_len("No arguments given"@);
    lemma_ascii_len("No write target"@);
}

/// Every answer of a session can be read back from its bytes, and what is sent
/// after it is found right behind it.
pub proof fn law_answer_read_back<P>(c: Course<P>, outcome: Outcome<P>, rest: Seq<u8>)
    requires
        c.accepts(outcome),
    ensures
        c.next(outcome).1 matches Step::Send(m) ==> read_frame(
            c.order,
            m.wire(c.order) + rest,
        ) == Some((m.result.spec_code(), m.attrs, rest)),
{
    law_answer_countable(c, outcome);
    if let Step::Send(m) = c.next(outcome).1 {
        law_message_read_back(c.order, m, rest);
    }
}

/// What comes of the outside work that a request calls for, if it calls for
/// any: the number of the process that is started, the handle of the process
/// that is started or written to as it is left, and whether the write went
/// well.
pub struct Work<P> {
    pub pid: u32,
    pub stdin: P,
    pub written: bool,
}

/// The session carries out what it asks for by `step`, with the work `w`, up to
/// where it waits for the next request: the session then, and the answer that
/// was sent. `None` where it does not get there.
pub open spec fn carry_out<P>(c: Course<P>, step: Step, w: Work<P>) -> Option<(Course<P>, Message)> {
    match step {
        Step::Send(m) => if c.accepts(Outcome::Sent) {
            Some((c.next(Outcome::Sent).0, m))
        } else {
            None
        },
        Step::Spawn(_, _) => {
            let spawned = Outcome::Spawned(w.pid, w.stdin);
            let (c1, step1) = c.next(spawned);
            let (c2, step2) = c1.next(Outcome::Sent);
            if c.accepts(spawned) && c1.accepts(Outcome::Sent) && c2.accepts(Outcome::Watched)
                && step2 == Step::Watch(w.pid) {
                match step1 {
                    Step::Send(m) => Some((c2.next(Outcome::Watched).0, m)),
                    _ => None,
                }
            } else {
                None
            }
        },
        Step::Feed(pid, _) => {
            let fed = Course {
                order: c.order,
                stage: c.stage,
                processes: c.processes.insert(pid, (ProcState { stdin: w.stdin })),
            };
            let (c1, step1) = fed.next(Outcome::Fed(w.written));
            if fed.accepts(Outcome::Fed(w.written)) && c1.accepts(Outcome::Sent) {
                match step1 {
                    Step::Send(m) => Some((c1.next(Outcome::Sent).0, m)),
                    _ => None,
                }
            } else {
                None
            }
        },
        _ => None,
    }
}

/// A session that waits for a request takes one out of `input` for each of
/// `works` and carries it out: the session then, the answers that were sent,
/// and the bytes that are left. `None` where it does not get there.
pub open spec fn converse<P>(c: Course<P>, input: Seq<u8>, works: Seq<Work<P>>) -> Option<
    (Course<P>, Seq<Message>, Seq<u8>),
>
    decreases works.len(),
{
    if works.len() == 0 {
        Some((c, Seq::empty(), input))
    } else {
        match drive(c, Step::Read(COMMAND_LEN as nat), input) {
            Some((c1, step, rest)) => match carry_out(c1, step, works[0]) {
                Some((c2, m)) => match converse(c2, rest, works.drop_first()) {
                    Some((c3, ms, left)) => Some((c3, seq![m] + ms, left)),
                    None => None,
                },
                None => None,
            },
            None => None,
        }
    }
}

/// The answer to `request`, while `processes` are known and its work comes out
/// as `w`.
pub open spec fn answer_to<P>(
    order: ByteOrder,
    request: Request,
    processes: Map<u32, ProcState<P>>,
    w: Work<P>,
) -> Message {
    match decide(order, request, processes.dom()) {
        Decision::Reply(m) => m,
        Decision::Spawn(_, _) => about(order, ResultCode::Success, w.pid),
        Decision::Feed(_, _) => written(w.written),
    }
}

/// The processes that are known after `request`.
pub open spec fn known_after<P>(
    order: ByteOrder,
    request: Request,
    processes: Map<u32, ProcState<P>>,
    w: Work<P>,
) -> Map<u32, ProcState<P>> {
    match decide(order, request, processes.dom()) {
        Decision::Reply(_) => processes,
        Decision::Spawn(_, _) => processes.insert(w.pid, (ProcState { stdin: w.stdin })),
        Decision::Feed(pid, _) => processes.insert(pid, (ProcState { stdin: w.stdin })),
    }
}

/// The answers to the requests at the start of `input`, one for each of
/// `works`: the processes that are known then, the answers in the order of the
/// requests, and the bytes that are left. `None` where `input` ends before
/// that, or asks for something to be closed.
pub open spec fn replies_to<P>(
    order: ByteOrder,
    input: Seq<u8>,
    processes: Map<u32, ProcState<P>>,
    works: Seq<Work<P>>,
) -> Option<(Map<u32, ProcState<P>>, Seq<Message>, Seq<u8>)>
    decreases works.len(),
{
    if works.len() == 0 {
        Some((processes, Seq::empty(), input))
    } else if input.len() >= COMMAND_LEN && closing(order, input.take(COMMAND_LEN as int)) {
        None
    } else {
        match parse_request(order, input) {
            Some((request, rest)) => match replies_to(
                order,
                rest,
                known_after(order, request, processes, works[0]),
                works.drop_first(),
            ) {
                Some((known, ms, left)) => Some(
                    (known, seq![answer_to(order, request, processes, works[0])] + ms, left),
                ),
                None => None,
            },
            None => None,
        }
    }
}

/// One more request is answered after those before it.
pub proof fn lemma_one_more_reply<P>(
    order: ByteOrder,
    input: Seq<u8>,
    processes: Map<u32, ProcState<P>>,
    works: Seq<Work<P>>,
    w: Work<P>,
)
    ensures
        replies_to(order, input, processes, works) matches Some((known, answers, left)) ==> (
        parse_request(order, left) matches Some((request, rest)) ==> !closing(
            order,
            left.take(COMMAND_LEN as int),
        ) ==> replies_to(order, input, processes, works.push(w)) == Some(
            (
                known_after(order, request, known, w),
                answers.push(answer_to(order, request, known, w)),
                rest,
            ),
        )),
    decreases works.len(),
{
    let more = works.push(w);
    if works.len() == 0 {
        reveal_with_fuel(replies_to, 2);
        assert(more.drop_first() =~= works);
        if let Some((request, _)) = parse_request(order, input) {
            let answer = answer_to(order, request, processes, w);
            assert(seq![answer] + Seq::<Message>::empty() =~= Seq::<Message>::empty().push(answer));
        }
    } else {
        assert(more.drop_first() =~= works.drop_first().push(w));
        if let Some((first, tail)) = parse_request(order, input) {
            let known = known_after(order, first, processes, works[0]);
            lemma_one_more_reply(order, tail, known, works.drop_first(), w);
            if let Some((last, answers, left)) = replies_to(
                order,
                tail,
                known,
                works.drop_first(),
            ) {
                if let Some((request, _)) = parse_request(order, left) {
                    let answer = answer_to(order, request, last, w);
                    let here = seq![answer_to(order, first, processes, works[0])];
                    assert(here + answers.push(answer) =~= (here + answers).push(answer));
                }
            }
        }
    }
}

/// What a complete request calls for is carried out and answered, and the
/// session waits again.
proof fn lemma_carried_out<P>(c: Course<P>, request: Request, w: Work<P>)
    ensures
        ({
            let settled = c.settle(decide(c.order, request, c.processes.dom()));
            carry_out(settled.0, settled.1, w) == Some(
                (
                    Course {
                        order: c.order,
                        stage: Stage::<P>::Header,
                        processes: known_after(c.order, request, c.processes, w),
                    },
                    answer_to(c.order, request, c.processes, w),
                ),
            )
        }),
{
}

/// Whatever bytes a peer sends, the session takes one request after the other
/// out of them as the grammar says, answers each with the answer to that
/// request and what was known by then, in their order, and waits again after
/// the last one with what follows left; at a request to close something, or
/// where the bytes end early, it does not get there.
pub proof fn law_stream_answered<P>(c: Course<P>, input: Seq<u8>, works: Seq<Work<P>>)
    requires
        c.stage is Header,
    ensures
        converse(c, input, works) == (match replies_to(c.order, input, c.processes, works) {
            Some((known, answers, rest)) => Some(
                (
                    Course { order: c.order, stage: Stage::<P>::Header, processes: known },
                    answers,
                    rest,
                ),
            ),
            None => None,
        }),
    decreases works.len(),
{
    if works.len() > 0 {
        if input.len() >= COMMAND_LEN && closing(c.order, input.take(COMMAND_LEN as int)) {
            assert(!c.accepts(Outcome::Bytes(input.take(COMMAND_LEN as int))));
        } else {
            law_session_follows_grammar(c, input);
            if let Some((request, rest)) = parse_request(c.order, input) {
                lemma_carried_out(c, request, works[0]);
                let next = Course {
                    order: c.order,
                    stage: Stage::<P>::Header,
                    processes: known_after(c.order, request, c.processes, works[0]),
                };
                law_stream_answered(next, rest, works.drop_first());
            }
        }
    }
}

/// The bytes of all that is asked, one after the other.
pub open spec fn asked_wire(order: ByteOrder, asked: Seq<Asked>) -> Seq<u8>
    decreases asked.len(),
{
    if asked.len() == 0 {
        Seq::empty()
    } else {
        asked[0].wire(order) + asked_wire(order, asked.drop_first())
    }
}

/// The answers to all that is asked, in its order, and the processes that are
/// known then.
pub open spec fn all_answers<P>(
    order: ByteOrder,
    asked: Seq<Asked>,
    processes: Map<u32, ProcState<P>>,
    works: Seq<Work<P>>,
) -> (Seq<Message>, Map<u32, ProcState<P>>)
    decreases asked.len(),
{
    if asked.len() == 0 {
        (Seq::empty(), processes)
    } else {
        let request = asked[0].request();
        let (ms, known) = all_answers(
            order,
            asked.drop_first(),
            known_after(order, request, processes, works[0]),
            works.drop_first(),
        );
        (seq![answer_to(order, request, processes, works[0])] + ms, known)
    }
}

/// All that a peer asks, sent in one stream, is answered in its order, each
/// answer being the one to its own request with what was known by then; after
/// the last one the session waits again, and what follows is left.
pub proof fn law_stream_answered_in_order<P>(
    c: Course<P>,
    asked: Seq<Asked>,
    works: Seq<Work<P>>,
    rest: Seq<u8>,
)
    requires
        c.stage is Header,
        works.len() == asked.len(),
        forall|i: int| 0 <= i < asked.len() ==> (#[trigger] asked[i]).sound(),
    ensures
        ({
            let (answers, known) = all_answers(c.order, asked, c.processes, works);
            &&& answers.len() == asked.len()
            &&& converse(c, asked_wire(c.order, asked) + rest, works) == Some(
                (
                    Course { order: c.order, stage: Stage::<P>::Header, processes: known },
                    answers,
                    rest,
                ),
            )
        }),
    decreases asked.len(),
{
    if asked.len() == 0 {
        assert(asked_wire(c.order, asked) + rest =~= rest);
    } else {
        let first = asked[0];
        let others = asked.drop_first();
        let tail = asked_wire(c.order, others) + rest;
        let c2 = Course {
            order: c.order,
            stage: Stage::<P>::Header,
            processes: known_after(c.order, first.request(), c.processes, works[0]),
        };
        assert(first.sound());
        lemma_asked_taken(c, first, tail);
        lemma_carried_out(c, first.request(), works[0]);
        assert forall|i: int| 0 <= i < others.len() implies (#[trigger] others[i]).sound() by {
            assert(others[i] == asked[i + 1]);
        }
        law_stream_answered_in_order(c2, others, works.drop_first(), rest);
        lemma_join(first.wire(c.order), asked_wire(c.order, others), rest);
    }
}

/// A write gathers its target and its data apart from each other: whatever
/// attributes come and in whatever order, the target is the number in the last
/// one with the name 3, at `p`, and the data are the body of the last one with
/// the name 4, at `d`; before the first of each there is no target, and no
/// data.
pub proof fn law_write_gathered(fields: Seq<Field>, p: int, d: int)
    requires
        -1 <= p < fields.len(),
        p >= 0 ==> fields[p].name == 3,
        p >= 0 ==> fields[p].data.len() == 4,
        forall|i: int| p < i < fields.len() ==> (#[trigger] fields[i]).name != 3,
        -1 <= d < fields.len(),
        d >= 0 ==> fields[d].name == 4,
        forall|i: int| d < i < fields.len() ==> (#[trigger] fields[i]).name != 4,
    ensures
        gathered(Request::Write(None, Seq::empty()), fields) matches Request::Write(target, buf) && {
            &&& d >= 0 ==> buf == fields[d].data
            &&& d < 0 ==> buf.len() == 0
            &&& p < 0 ==> target is None
            &&& p >= 0 ==> (target matches Some(StreamTarget::PidStream(pid)) && {
                let b = fields[p].data;
                pid == 16777216 * b[0] + 65536 * b[1] + 256 * b[2] + b[3]
            })
        },
{
    lemma_write_gathered(None, Seq::empty(), fields, p, d);
    if p >= 0 {
        law_u32_weights(ByteOrder::Big, 0, fields[p].data);
    }
}

/// From any target and data on, a write has those of the last attributes that
/// set them, or the ones that it had.
proof fn lemma_write_gathered(
    target: Option<StreamTarget>,
    buf: Seq<u8>,
    fields: Seq<Field>,
    p: int,
    d: int,
)
    requires
        -1 <= p < fields.len(),
        p >= 0 ==> fields[p].name == 3,
        forall|i: int| p < i < fields.len() ==> (#[trigger] fields[i]).name != 3,
        -1 <= d < fields.len(),
        d >= 0 ==> fields[d].name == 4,
        forall|i: int| d < i < fields.len() ==> (#[trigger] fields[i]).name != 4,
    ensures
        gathered(Request::Write(target, buf), fields) == Request::Write(
            if p >= 0 {
                Some(StreamTarget::PidStream(ByteOrder::Big.u32_value(fields[p].data)))
            } else {
                target
            },
            if d >= 0 {
                fields[d].data
            } else {
                buf
            },
        ),
    decreases fields.len(),
{
    if fields.len() > 0 {
        let others = fields.drop_first();
        assert forall|i: int| 0 <= i < others.len() implies #[trigger] others[i] == fields[i
            + 1] by {}
        let p2 = if p > 0 {
            p - 1
        } else {
            -1
        };
        let d2 = if d > 0 {
            d - 1
        } else {
            -1
        };
        assert(p2 >= 0 ==> others[p2] == fields[p]);
        assert(d2 >= 0 ==> others[d2] == fields[d]);
        let first = fields[0];
        match Request::Write(target, buf).with_code(first.name, first.data) {
            Request::Write(target2, buf2) => {
                lemma_write_gathered(target2, buf2, others, p2, d2);
            },
            _ => {},
        }
    }
}

/// A request to write, with any attributes in any order, feeds the body of its
/// last data, or nothing where it has none, to the process whose number its
/// last number of a process is, if that process is known; if not, it is
/// answered that the process is not found, with the number; and it leaves what
/// follows it. That leaves out attributes whose length a write passes over.
pub proof fn law_write_carried_out<P>(
    c: Course<P>,
    padding: u8,
    fields: Seq<Field>,
    p: int,
    d: int,
    pid: u32,
    rest: Seq<u8>,
)
    requires
        c.stage is Header,
        fields.len() < 256,
        forall|i: int|
            0 <= i < fields.len() ==> {
                &&& (#[trigger] fields[i]).data.len() < 65536
                &&& fields[i].name == 3 ==> fields[i].data.len() == 4
                &&& fields[i].name == 1 || fields[i].name == 2 ==> fields[i].data.len() == 0
            },
        0 <= p < fields.len(),
        fields[p].name == 3,
        forall|i: int| p < i < fields.len() ==> (#[trigger] fields[i]).name != 3,
        -1 <= d < fields.len(),
        d >= 0 ==> fields[d].name == 4,
        forall|i: int| d < i < fields.len() ==> (#[trigger] fields[i]).name != 4,
        ({
            let b = fields[p].data;
            pid == 16777216 * b[0] + 65536 * b[1] + 256 * b[2] + b[3]
        }),
    ensures
        drive(c, Step::Read(4), frame(c.order, 2, padding, fields) + rest) matches Some(
            (next, step, left),
        ) && {
            &&& left == rest
            &&& next.order == c.order
            &&& next.processes == c.processes
            &&& c.processes.contains_key(pid) ==> {
                &&& next.stage is Feeding
                &&& step matches Step::Feed(to, data) && to == pid && (if d >= 0 {
                    data == fields[d].data
                } else {
                    data.len() == 0
                })
            }
            &&& !c.processes.contains_key(pid) ==> {
                &&& next.stage is Replying
                &&& step matches Step::Send(m) && {
                    let b = m.attrs[0].data;
                    &&& m.result is NotFound
                    &&& m.attrs.len() == 1
                    &&& m.attrs[0].name == 3
                    &&& b.len() == 4
                    &&& c.order is Little ==> b[0] + 256 * b[1] + 65536 * b[2] + 16777216 * b[3]
                        == pid
                    &&& c.order is Big ==> 16777216 * b[0] + 65536 * b[1] + 256 * b[2] + b[3] == pid
                }
            }
        },
{
    assert(fields[p].data.len() == 4);
    law_write_gathered(fields, p, d);
    law_about_a_process(c.order, ResultCode::NotFound, pid);
    assert(in_step(Request::start(2), fields));
    lemma_asked_taken(c, Asked { op: 2, padding, fields }, rest);
}

/// A write with the number of a process and with data does the same whichever
/// of the two comes first: all of the data go to that process.
pub proof fn law_write_either_way<P>(
    c: Course<P>,
    padding: u8,
    number: Field,
    data: Field,
    pid: u32,
    rest: Seq<u8>,
)
    requires
        c.stage is Header,
        number.name == 3,
        number.data.len() == 4,
        data.name == 4,
        data.data.len() < 65536,
        ({
            let b = number.data;
            pid == 16777216 * b[0] + 65536 * b[1] + 256 * b[2] + b[3]
        }),
        c.processes.contains_key(pid),
    ensures
        ({
            let one = drive(
                c,
                Step::Read(4),
                frame(c.order, 2, padding, seq![number, data]) + rest,
            );
            let other = drive(
                c,
                Step::Read(4),
                frame(c.order, 2, padding, seq![data, number]) + rest,
            );
            &&& one == other
            &&& one matches Some((next, step, left)) && step == Step::Feed(pid, data.data) && left
                == rest
        }),
{
    law_write_carried_out(c, padding, seq![number, data], 0, 1, pid, rest);
    law_write_carried_out(c, padding, seq![data, number], 1, 0, pid, rest);
}

/// The words of a start are the texts of its attributes, in their order.
proof fn lemma_run_gathered(words: Seq<Seq<char>>, fields: Seq<Field>)
    requires
        forall|i: int| 0 <= i < fields.len() ==> 1 <= (#[trigger] fields[i]).name <= 4,
    ensures
        gathered(Request::Run(words), fields) == Request::Run(
            words + fields.map_values(|f: Field| text_of(f.data)),
        ),
    decreases fields.len(),
{
    let more = fields.map_values(|f: Field| text_of(f.data));
    if fields.len() == 0 {
        assert(words + more =~= words);
    } else {
        let others = fields.drop_first();
        assert forall|i: int| 0 <= i < others.len() implies 1 <= (#[trigger] others[i]).name
            <= 4 by {
            assert(others[i] == fields[i + 1]);
        }
        assert(1 <= fields[0].name <= 4);
        lemma_run_gathered(words.push(text_of(fields[0].data)), others);
        assert(words.push(text_of(fields[0].data)) + others.map_values(
            |f: Field| text_of(f.data),
        ) =~= words + more);
    }
}

/// A start whose attributes have names from 1 to 4 asks for the text of the
/// first to be started with the texts of all the others, in their order, and
/// leaves what follows it.
pub proof fn law_run_carried_out<P>(
    c: Course<P>,
    padding: u8,
    fields: Seq<Field>,
    rest: Seq<u8>,
)
    requires
        c.stage is Header,
        0 < fields.len() < 256,
        forall|i: int|
            0 <= i < fields.len() ==> (#[trigger] fields[i]).data.len() < 65536 && 1
                <= fields[i].name <= 4,
    ensures
        drive(c, Step::Read(4), frame(c.order, 1, padding, fields) + rest) matches Some(
            (next, step, left),
        ) && {
            &&& left == rest
            &&& next.order == c.order
            &&& next.processes == c.processes
            &&& next.stage is Spawning
            &&& step matches Step::Spawn(program, args) && {
                &&& program == text_of(fields[0].data)
                &&& args.len() == fields.len() - 1
                &&& forall|i: int|
                    0 <= i < args.len() ==> #[trigger] args[i] == text_of(fields[i + 1].data)
            }
        },
{
    lemma_run_gathered(Seq::empty(), fields);
    let words = fields.map_values(|f: Field| text_of(f.data));
    assert(Seq::<Seq<char>>::empty() + words =~= words);
    lemma_asked_taken(c, Asked { op: 1, padding, fields }, rest);
}

/// An attribute whose name is not known changes nothing where it stands.
proof fn lemma_unknown_inserted(request: Request, fields: Seq<Field>, at: int, f: Field)
    requires
        0 <= at <= fields.len(),
        !(1 <= f.name <= 4),
    ensures
        gathered(request, fields.insert(at, f)) == gathered(request, fields),
    decreases fields.len(),
{
    let longer = fields.insert(at, f);
    if at == 0 {
        assert(longer[0] == f);
        assert(longer.drop_first() =~= fields);
    } else {
        let next = request.with_code(fields[0].name, fields[0].data);
        assert(longer[0] == fields[0]);
        assert(longer.drop_first() =~= fields.drop_first().insert(at - 1, f));
        lemma_unknown_inserted(next, fields.drop_first(), at - 1, f);
    }
}

/// A request does the same with and without an attribute whose name is none of
/// 1 to 4, wherever that stands and whatever its body is.
pub proof fn law_unknown_attribute<P>(
    c: Course<P>,
    op: u16,
    padding: u8,
    fields: Seq<Field>,
    at: int,
    f: Field,
    rest: Seq<u8>,
)
    requires
        c.stage is Header,
        op != 3,
        0 <= at <= fields.len() < 255,
        !(1 <= f.name <= 4),
        f.data.len() < 65536,
        forall|i: int|
            0 <= i < fields.len() ==> {
                &&& (#[trigger] fields[i]).data.len() < 65536
                &&& op == 2 && fields[i].name == 3 ==> fields[i].data.len() == 4
                &&& op == 2 && (fields[i].name == 1 || fields[i].name == 2) ==> fields[i].data.len()
                    == 0
            },
    ensures
        drive(c, Step::Read(4), frame(c.order, op, padding, fields.insert(at, f)) + rest) == drive(
            c,
            Step::Read(4),
            frame(c.order, op, padding, fields) + rest,
        ),
        drive(c, Step::Read(4), frame(c.order, op, padding, fields) + rest) is Some,
{
    let longer = fields.insert(at, f);
    assert forall|i: int| 0 <= i < longer.len() implies #[trigger] longer[i] == (if i < at {
        fields[i]
    } else if i == at {
        f
    } else {
        fields[i - 1]
    }) by {}
    lemma_unknown_inserted(Request::start(op), fields, at, f);
    lemma_asked_taken(c, Asked { op, padding, fields }, rest);
    lemma_asked_taken(c, Asked { op, padding, fields: longer }, rest);
}

/// A request whose number is none of 1 to 3 is answered that it is not known,
/// with nothing more, whatever its attributes are, and leaves what follows it.
pub proof fn law_unknown_answered<P>(
    c: Course<P>,
    op: u16,
    padding: u8,
    fields: Seq<Field>,
    rest: Seq<u8>,
)
    requires
        c.stage is Header,
        !(1 <= op <= 3),
        fields.len() < 256,
        forall|i: int| 0 <= i < fields.len() ==> (#[trigger] fields[i]).data.len() < 65536,
    ensures
        drive(c, Step::Read(4), frame(c.order, op, padding, fields) + rest) matches Some(
            (next, step, left),
        ) && {
            &&& left == rest
            &&& next.order == c.order
            &&& next.processes == c.processes
            &&& next.stage is Replying
            &&& step matches Step::Send(m) && m.result is UnknownOp && m.attrs.len() == 0
        },
{
    law_unknown_request(c, op, padding, fields, rest);
}

/// A start without attributes that have names from 1 to 4, and a write without
/// one that has the name 3, are refused with a text that says what is missing,
/// and leave what follows them.
pub proof fn law_incomplete_refused<P>(
    c: Course<P>,
    op: u16,
    padding: u8,
    fields: Seq<Field>,
    rest: Seq<u8>,
)
    requires
        c.stage is Header,
        op == 1 || op == 2,
        fields.len() < 256,
        forall|i: int|
            0 <= i < fields.len() ==> {
                &&& (#[trigger] fields[i]).data.len() < 65536
                &&& op == 1 ==> !(1 <= fields[i].name <= 4)
                &&& op == 2 ==> fields[i].name != 3
                &&& op == 2 && (fields[i].name == 1 || fields[i].name == 2) ==> fields[i].data.len()
                    == 0
            },
    ensures
        drive(c, Step::Read(4), frame(c.order, op, padding, fields) + rest) matches Some(
            (next, step, left),
        ) && {
            &&& left == rest
            &&& next.order == c.order
            &&& next.processes == c.processes
            &&& next.stage is Replying
            &&& step matches Step::Send(m) && {
                &&& m.result is InvalidState
                &&& m.attrs.len() == 1
                &&& m.attrs[0].name == 2
                &&& valid_utf8(m.attrs[0].data)
                &&& op == 1 ==> decode_utf8(m.attrs[0].data) == "No arguments given"@
                &&& op == 2 ==> decode_utf8(m.attrs[0].data) == "No write target"@
            }
        },
{
    law_refusal("No arguments given"@);
    law_refusal("No write target"@);
    if op == 1 {
        law_run_refused(c, padding, fields, rest);
    } else {
        law_write_refused(c, padding, fields, rest);
    }
}

} // verus!
