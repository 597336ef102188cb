//! The stream to the peer, which a session and the writer of queued messages
//! share.

use crate::course::{
    answer_to, drive, known_after, law_answer_countable, law_session_follows_grammar,
    lemma_one_more_reply, reading, replies_to, Work,
};
use crate::message::{
    countable, law_messages_read_back, lemma_join, lemma_messages_wire_push, messages_wire,
    read_frames, reads, Message,
};
use crate::monitor::{writer_next, WriterEvent, WriterStep};
use crate::order::ByteOrder;
use crate::proto::{ResultCode, ATTR_LEN, COMMAND_LEN};
use crate::request::{about, parse_request, written};
use crate::session::{closing, Course, Outcome, Stage, Step};
use crate::state::ProcState;
use vstd::prelude::*;

verus! {

/// Who sends to the peer.
#[derive(PartialEq, Eq, Structural)]
pub enum Party {
    /// The session, which answers requests.
    Session,
    /// The writer of queued messages.
    Writer,
}

/// What can happen on a connection.
pub enum Turn<P> {
    /// The stream to the peer is locked for one of the two.
    Lock(Party),
    /// So many bytes more of the message in hand are accepted by the stream.
    Put(nat),
    /// The handle of the process that the session writes to changes to this.
    Handle(P),
    /// The session is told this.
    Session(Outcome<P>),
    /// The writer is told this.
    Writer(WriterEvent),
}

/// A connection.
#[verifier::ext_equal]
pub struct Connection<P> {
    /// The session, and what it does next.
    pub course: Course<P>,
    pub step: Step,
    /// What the writer does next.
    pub writer: WriterStep,
    /// Who has locked the stream to the peer.
    pub holder: Option<Party>,
    /// What the peer has sent and the session has not read.
    pub unread: Seq<u8>,
    /// How many bytes of the message in hand the stream has accepted.
    pub part: nat,
    /// The messages that have been sent, and by whom.
    pub done: Seq<(Party, Message)>,
    /// All the bytes that the stream has accepted.
    pub output: Seq<u8>,
}

impl<P> Connection<P> {
    /// A new connection, over which the peer sends `input`.
    pub open spec fn open(order: ByteOrder, input: Seq<u8>) -> Connection<P> {
        Connection {
            course: Course { order, stage: Stage::Header, processes: Map::empty() },
            step: Step::Read(COMMAND_LEN as nat),
            writer: WriterStep::Receive,
            holder: None,
            unread: input,
            part: 0,
            done: Seq::empty(),
            output: Seq::empty(),
        }
    }

    /// What `party` does next needs the lock.
    pub open spec fn wants_lock(self, party: Party) -> bool {
        match party {
            Party::Session => self.step.keeps_writer(),
            Party::Writer => self.writer is Send,
        }
    }

    /// The message that is being sent.
    pub open spec fn in_hand(self) -> Option<Message> {
        match (self.holder, self.step, self.writer) {
            (Some(Party::Session), Step::Send(m), _) => Some(m),
            (Some(Party::Writer), _, WriterStep::Send(m)) => Some(m@),
            _ => None,
        }
    }

    /// The bytes of the message in hand.
    pub open spec fn wire_in_hand(self) -> Seq<u8> {
        match self.in_hand() {
            Some(m) => m.wire(self.course.order),
            None => Seq::empty(),
        }
    }

    /// The bytes of the message in hand that the stream has accepted.
    pub open spec fn started(self) -> Seq<u8> {
        self.wire_in_hand().take(self.part as int)
    }

    /// `outcome` is one that what the peer has sent can have: a read gives all
    /// the bytes that it asks for, or none at the end of the stream.
    pub open spec fn reads(self, outcome: Outcome<P>) -> bool {
        match (self.step, outcome) {
            (Step::Read(n), Outcome::Bytes(s)) => {
                ||| n <= self.unread.len() && s == self.unread.take(n as int)
                ||| s.len() == 0 && self.unread.len() == 0
            },
            (Step::Discard(n), Outcome::Discarded) => n <= self.unread.len(),
            _ => true,
        }
    }

    /// `turn` can come next, where the stream to the peer does not fail. What
    /// needs the lock waits for it, and a message is sent when all its bytes
    /// have been accepted.
    pub open spec fn permits(self, turn: Turn<P>) -> bool {
        match turn {
            Turn::Lock(party) => self.holder is None && self.wants_lock(party),
            Turn::Put(n) => self.in_hand() is Some && self.part + n <= self.wire_in_hand().len(),
            Turn::Handle(_) => self.holder == Some(Party::Session) && self.step is Feed,
            Turn::Session(outcome) => {
                &&& self.course.accepts(outcome)
                &&& self.reads(outcome)
                &&& self.step.keeps_writer() ==> self.holder == Some(Party::Session)
                &&& self.step is Send ==> outcome is Sent && self.part == self.wire_in_hand().len()
            },
            Turn::Writer(event) => match self.writer {
                WriterStep::Receive => event is Received,
                WriterStep::Send(_) => {
                    &&& event == WriterEvent::Sent(true)
                    &&& self.holder == Some(Party::Writer)
                    &&& self.part == self.wire_in_hand().len()
                },
                WriterStep::Stop => false,
            },
        }
    }

    /// What is left of what the peer has sent, once the session is told
    /// `outcome`.
    pub open spec fn unread_after(self, outcome: Outcome<P>) -> Seq<u8> {
        match (self.step, outcome) {
            (Step::Read(_), Outcome::Bytes(s)) => self.unread.skip(s.len() as int),
            (Step::Discard(n), Outcome::Discarded) => self.unread.skip(n as int),
            _ => self.unread,
        }
    }

    /// The connection after `turn`. The session gives the lock back when it
    /// goes on to what does not need it, and the writer after each message.
    pub open spec fn after(self, turn: Turn<P>) -> Connection<P> {
        match turn {
            Turn::Lock(party) => Connection { holder: Some(party), ..self },
            Turn::Put(n) => Connection {
                part: self.part + n,
                output: self.output + self.wire_in_hand().subrange(
                    self.part as int,
                    (self.part + n) as int,
                ),
                ..self
            },
            Turn::Handle(stdin) => Connection {
                course: Course {
                    processes: self.course.processes.insert(
                        self.step->Feed_0,
                        (ProcState { stdin }),
                    ),
                    ..self.course
                },
                ..self
            },
            Turn::Session(outcome) => {
                let (course, step) = self.course.next(outcome);
                let gives_back = self.holder == Some(Party::Session) && !step.keeps_writer();
                let sends = self.step is Send;
                Connection {
                    course,
                    step,
                    holder: if gives_back {
                        None
                    } else {
                        self.holder
                    },
                    unread: self.unread_after(outcome),
                    part: if sends {
                        0
                    } else {
                        self.part
                    },
                    done: if sends {
                        self.done.push((Party::Session, self.step->Send_0))
                    } else {
                        self.done
                    },
                    ..self
                }
            },
            Turn::Writer(event) => match self.writer {
                WriterStep::Send(m) => Connection {
                    writer: writer_next(event),
                    holder: None,
                    part: 0,
                    done: self.done.push((Party::Writer, m@)),
                    ..self
                },
                _ => Connection { writer: writer_next(event), ..self },
            },
        }
    }

    /// `turns` can come one after the other.
    pub open spec fn permits_all(self, turns: Seq<Turn<P>>) -> bool
        decreases turns.len(),
    {
        turns.len() == 0 || self.permits(turns[0]) && self.after(turns[0]).permits_all(
            turns.drop_first(),
        )
    }

    /// The connection after `turns`.
    pub open spec fn after_all(self, turns: Seq<Turn<P>>) -> Connection<P>
        decreases turns.len(),
    {
        if turns.len() == 0 {
            self
        } else {
            self.after(turns[0]).after_all(turns.drop_first())
        }
    }
}

/// The messages that have been sent.
pub open spec fn messages(done: Seq<(Party, Message)>) -> Seq<Message> {
    done.map_values(|d: (Party, Message)| d.1)
}

/// The messages that `party` has sent.
pub open spec fn messages_of(done: Seq<(Party, Message)>, party: Party) -> Seq<Message>
    decreases done.len(),
{
    if done.len() == 0 {
        Seq::empty()
    } else if done.last().0 == party {
        messages_of(done.drop_last(), party).push(done.last().1)
    } else {
        messages_of(done.drop_last(), party)
    }
}

/// The messages that the writer takes from the queue in `turns`.
pub open spec fn queued<P>(turns: Seq<Turn<P>>) -> Seq<Message>
    decreases turns.len(),
{
    if turns.len() == 0 {
        Seq::empty()
    } else {
        match turns[0] {
            Turn::Writer(WriterEvent::Received(Some(m))) => seq![m@] + queued(turns.drop_first()),
            _ => queued(turns.drop_first()),
        }
    }
}

/// The message that the writer has taken from the queue and not sent.
pub open spec fn taken(writer: WriterStep) -> Seq<Message> {
    match writer {
        WriterStep::Send(m) => seq![m@],
        _ => Seq::empty(),
    }
}

/// The counts of all the messages fit their fields in the headers.
pub open spec fn all_countable(messages: Seq<Message>) -> bool {
    forall|i: int| 0 <= i < messages.len() ==> countable((#[trigger] messages[i]).attrs)
}

/// What is on the stream is the messages that have been sent and the start of
/// the one in hand; nobody has part of a message on the stream without the
/// lock.
spec fn tidy<P>(c: Connection<P>) -> bool {
    &&& c.output == messages_wire(c.course.order, messages(c.done)) + c.started()
    &&& c.part <= c.wire_in_hand().len()
    &&& all_countable(messages(c.done))
    &&& c.step matches Step::Send(m) ==> countable(m.attrs)
    &&& c.writer matches WriterStep::Send(m) ==> countable(m@.attrs)
}

/// With one more message that was in hand, the same bytes are on the stream,
/// all of them of messages that have been sent.
proof fn lemma_sent<P>(c: Connection<P>, party: Party, m: Message)
    requires
        tidy(c),
        c.in_hand() == Some(m),
        c.part == c.wire_in_hand().len(),
        countable(m.attrs),
    ensures
        c.output == messages_wire(c.course.order, messages(c.done.push((party, m)))),
        all_countable(messages(c.done.push((party, m)))),
{
    assert(messages(c.done.push((party, m))) =~= messages(c.done).push(m));
    lemma_messages_wire_push(c.course.order, messages(c.done), m);
    assert(c.started() =~= m.wire(c.course.order));
}

/// Every turn keeps the stream tidy.
proof fn lemma_turn_tidy<P>(c: Connection<P>, turn: Turn<P>)
    requires
        tidy(c),
        c.permits(turn),
        turn matches Turn::Writer(WriterEvent::Received(Some(m))) ==> countable(m@.attrs),
    ensures
        tidy(c.after(turn)),
        c.after(turn).course.order == c.course.order,
{
    let next = c.after(turn);
    let sent = messages_wire(c.course.order, messages(c.done));
    match turn {
        Turn::Put(n) => {
            let wire = c.wire_in_hand();
            let more = wire.subrange(c.part as int, (c.part + n) as int);
            lemma_join(sent, c.started(), more);
            assert(c.started() + more =~= next.started());
        },
        Turn::Session(outcome) => {
            law_answer_countable(c.course, outcome);
            if let Step::Send(m) = c.step {
                lemma_sent(c, Party::Session, m);
                assert(next.started() =~= Seq::empty());
                assert(next.output =~= next.output + next.started());
            } else if c.part == 0 {
                assert(next.started() =~= c.started());
            }
        },
        Turn::Writer(_) => {
            if let WriterStep::Send(m) = c.writer {
                lemma_sent(c, Party::Writer, m@);
                assert(next.started() =~= Seq::empty());
                assert(next.output =~= next.output + next.started());
            } else {
                assert(next.started() =~= c.started());
            }
        },
        _ => {
            assert(next.started() =~= c.started());
        },
    }
}

/// All turns keep the stream tidy.
proof fn lemma_turns_tidy<P>(c: Connection<P>, turns: Seq<Turn<P>>)
    requires
        tidy(c),
        c.permits_all(turns),
        all_countable(queued(turns)),
    ensures
        tidy(c.after_all(turns)),
        c.after_all(turns).course.order == c.course.order,
    decreases turns.len(),
{
    if turns.len() > 0 {
        let others = queued(turns.drop_first());
        if let Turn::Writer(WriterEvent::Received(Some(m))) = turns[0] {
            assert(queued(turns)[0] == m@);
            assert forall|i: int| 0 <= i < others.len() implies countable(
                (#[trigger] others[i]).attrs,
            ) by {
                assert(queued(turns)[i + 1] == others[i]);
            }
        }
        lemma_turn_tidy(c, turns[0]);
        lemma_turns_tidy(c.after(turns[0]), turns.drop_first());
    }
}

/// Whatever the session and the writer send, and however their turns fall, the
/// peer gets a sequence of whole frames: an answer and a queued message never
/// mix within a frame. A reader gets back all the messages that have been
/// sent, in the order in which they were, and then the start of the one in
/// hand; while nobody has the lock, there is nothing after the last frame.
pub proof fn law_whole_frames<P>(order: ByteOrder, input: Seq<u8>, turns: Seq<Turn<P>>)
    requires
        Connection::open(order, input).permits_all(turns),
        all_countable(queued(turns)),
    ensures
        ({
            let c = Connection::open(order, input).after_all(turns);
            &&& c.output == messages_wire(order, messages(c.done)) + c.started()
            &&& read_frames(order, c.done.len(), c.output) == Some(
                (reads(messages(c.done)), c.started()),
            )
            &&& c.holder is None ==> c.started().len() == 0
        }),
{
    let start = Connection::<P>::open(order, input);
    let c = start.after_all(turns);
    assert(messages(start.done) =~= Seq::empty());
    assert(start.output =~= messages_wire(order, messages(start.done)) + start.started());
    lemma_turns_tidy(start, turns);
    law_messages_read_back(order, messages(c.done), c.started());
}

/// The writer has sent what it was given, up to the message that it has taken
/// from the queue last.
proof fn lemma_queue_order<P>(c: Connection<P>, turns: Seq<Turn<P>>)
    requires
        c.permits_all(turns),
    ensures
        ({
            let end = c.after_all(turns);
            messages_of(c.done, Party::Writer) + taken(c.writer) + queued(turns) == messages_of(
                end.done,
                Party::Writer,
            ) + taken(end.writer)
        }),
    decreases turns.len(),
{
    let sent = messages_of(c.done, Party::Writer);
    if turns.len() == 0 {
        assert(sent + taken(c.writer) + queued(turns) =~= sent + taken(c.writer));
    } else {
        let next = c.after(turns[0]);
        let others = queued(turns.drop_first());
        lemma_queue_order(next, turns.drop_first());
        assert(next.done.len() > c.done.len() ==> next.done.drop_last() =~= c.done);
        assert(sent + taken(c.writer) + queued(turns) =~= messages_of(next.done, Party::Writer)
            + taken(next.writer) + others);
    }
}

/// Every message that is taken from the queue comes out once and in the order
/// of the queue: all of them have been sent but the one in hand.
pub proof fn law_queue_order<P>(order: ByteOrder, input: Seq<u8>, turns: Seq<Turn<P>>)
    requires
        Connection::open(order, input).permits_all(turns),
    ensures
        ({
            let c = Connection::open(order, input).after_all(turns);
            queued(turns) == messages_of(c.done, Party::Writer) + taken(c.writer)
        }),
{
    let start = Connection::<P>::open(order, input);
    lemma_queue_order(start, turns);
    assert(messages_of(start.done, Party::Writer) + taken(start.writer) + queued(turns)
        =~= queued(turns));
}

/// The session does at each stage what it says it does.
spec fn in_tune<P>(stage: Stage<P>, step: Step) -> bool {
    match stage {
        Stage::Header => step == Step::Read(COMMAND_LEN as nat),
        Stage::AttrHeader(_, _) => reading(stage) && step == Step::Read(ATTR_LEN as nat),
        Stage::AttrBody(_, _, _, need) => reading(stage) && step == Step::Read(need),
        Stage::Skip(_, _, need) => reading(stage) && step == Step::Discard(need),
        Stage::Spawning => step is Spawn,
        Stage::Announcing(_, _) => step is Send,
        Stage::Watching => step is Watch,
        Stage::Feeding => step is Feed,
        Stage::Replying => step is Send,
        Stage::Stopped => step is Stop,
    }
}

/// The session that waits for a request, while `known` are known.
spec fn waiting<P>(order: ByteOrder, known: Map<u32, ProcState<P>>) -> Course<P> {
    Course { order, stage: Stage::Header, processes: known }
}

/// After the answers to the requests before, the session is on its way with
/// the request at the start of `left`, while `known` are known.
spec fn on_its_way<P>(c: Connection<P>, known: Map<u32, ProcState<P>>, left: Seq<u8>) -> bool {
    let order = c.course.order;
    let asked = drive(waiting(order, known), Step::Read(COMMAND_LEN as nat), left);
    match c.course.stage {
        Stage::Stopped => true,
        Stage::Header => c.course.processes == known && c.unread == left,
        Stage::Watching => c.course.processes == known && c.unread == left,
        Stage::Feeding => feeds(c, known, asked, c.step),
        Stage::Replying => asked == Some((c.course, c.step, c.unread)) || exists|step: Step|
            #[trigger] feeds(c, known, asked, step) && (c.step == Step::Send(written(true))
                || c.step == Step::Send(written(false))),
        Stage::Announcing(pid, process) => {
            &&& asked matches Some((before, step, rest))
            &&& before == waiting(order, known).at(Stage::Spawning)
            &&& step is Spawn
            &&& rest == c.unread
            &&& c.course.processes == known
            &&& c.step == Step::Send(about(order, ResultCode::Success, pid))
        },
        _ => c.course.processes == known && asked == drive(c.course, c.step, c.unread),
    }
}

/// The request calls for a known process to be written to by `step`; of what
/// is known, only the handle of that process can have changed.
spec fn feeds<P>(
    c: Connection<P>,
    known: Map<u32, ProcState<P>>,
    asked: Option<(Course<P>, Step, Seq<u8>)>,
    step: Step,
) -> bool {
    let feeding = waiting(c.course.order, known).at(Stage::Feeding);
    &&& step is Feed
    &&& asked == Some((feeding, step, c.unread))
    &&& c.course.processes == known.insert(step->Feed_0, c.course.processes[step->Feed_0])
}

/// The session has answered the requests before with the answers to them, with
/// `works` as their work, and is on its way with the next.
spec fn answered<P>(
    c: Connection<P>,
    order: ByteOrder,
    input: Seq<u8>,
    works: Seq<Work<P>>,
) -> bool {
    &&& c.course.order == order
    &&& in_tune(c.course.stage, c.step)
    &&& replies_to(order, input, Map::empty(), works) matches Some((known, answers, left))
    &&& answers == messages_of(c.done, Party::Session)
    &&& on_its_way(c, known, left)
}

/// When an answer has been sent, it is the answer to the request that the
/// session was on its way with.
proof fn lemma_answer_sent<P>(
    c: Connection<P>,
    order: ByteOrder,
    input: Seq<u8>,
    works: Seq<Work<P>>,
) -> (more: Seq<Work<P>>)
    requires
        answered(c, order, input, works),
        c.step is Send,
        c.permits(Turn::Session(Outcome::Sent)),
    ensures
        answered(c.after(Turn::Session(Outcome::Sent)), order, input, more),
{
    let next = c.after(Turn::Session(Outcome::Sent));
    let m = c.step->Send_0;
    let (known, answers, left) = replies_to(order, input, Map::empty(), works)->Some_0;
    let before = waiting(order, known);
    let asked = drive(before, Step::Read(COMMAND_LEN as nat), left);
    let any = choose|w: Work<P>| #[trigger] w.pid == w.pid;
    let w = match (c.course.stage, asked) {
        (Stage::Announcing(pid, process), _) => Work { pid, stdin: process.stdin, ..any },
        (_, Some((_, Step::Feed(pid, _), _))) => Work {
            pid,
            stdin: c.course.processes[pid].stdin,
            written: c.step == Step::Send(written(true)),
        },
        _ => any,
    };
    assert(!(left.len() >= COMMAND_LEN && closing(order, left.take(COMMAND_LEN as int))));
    law_session_follows_grammar(before, left);
    let (request, rest) = parse_request(order, left)->Some_0;
    lemma_one_more_reply(order, input, Map::empty(), works, w);
    assert(next.done.drop_last() =~= c.done);
    assert(answer_to(order, request, known, w) == m);
    assert(known_after(order, request, known, w) == next.course.processes);
    works.push(w)
}

/// Reading takes the session further on its way with the same request.
proof fn lemma_read_on<P>(
    c: Connection<P>,
    outcome: Outcome<P>,
    order: ByteOrder,
    input: Seq<u8>,
    works: Seq<Work<P>>,
)
    requires
        answered(c, order, input, works),
        reading(c.course.stage),
        c.permits(Turn::Session(outcome)),
    ensures
        answered(c.after(Turn::Session(outcome)), order, input, works),
{
    let next = c.after(Turn::Session(outcome));
    let (known, answers, left) = replies_to(order, input, Map::empty(), works)->Some_0;
    if !(next.course.stage is Stopped) {
        match outcome {
            Outcome::Bytes(s) => {
                let n = c.step->Read_0;
                assert(s.len() == n);
                assert(s =~= c.unread.take(n as int));
            },
            _ => {},
        }
        assert(drive(c.course, c.step, c.unread) == drive(next.course, next.step, next.unread));
        assert(next.course.processes == known);
        assert(in_tune(next.course.stage, next.step));
        if next.course.stage is Feeding {
            lemma_asked_to_feed(next, known, left);
        }
    }
}

/// A request calls for no process to be written to but a known one.
proof fn lemma_asked_to_feed<P>(c: Connection<P>, known: Map<u32, ProcState<P>>, left: Seq<u8>)
    requires
        c.course.stage is Feeding,
        c.course.processes == known,
        drive(waiting(c.course.order, known), Step::Read(COMMAND_LEN as nat), left) == Some(
            (c.course, c.step, c.unread),
        ),
    ensures
        on_its_way(c, known, left),
{
    let before = waiting(c.course.order, known);
    assert(!(left.len() >= COMMAND_LEN && closing(
        c.course.order,
        left.take(COMMAND_LEN as int),
    )));
    law_session_follows_grammar(before, left);
    let pid = c.step->Feed_0;
    assert(known.contains_key(pid));
    assert(known.insert(pid, known[pid]) =~= known);
}

/// What the session does for a request, short of the answer, takes it further
/// on its way with it.
proof fn lemma_act_on<P>(
    c: Connection<P>,
    outcome: Outcome<P>,
    order: ByteOrder,
    input: Seq<u8>,
    works: Seq<Work<P>>,
)
    requires
        answered(c, order, input, works),
        !reading(c.course.stage),
        !(c.step is Send),
        c.permits(Turn::Session(outcome)),
    ensures
        answered(c.after(Turn::Session(outcome)), order, input, works),
{
    let next = c.after(Turn::Session(outcome));
    let (known, answers, left) = replies_to(order, input, Map::empty(), works)->Some_0;
    let asked = drive(waiting(order, known), Step::Read(COMMAND_LEN as nat), left);
    if c.course.stage is Feeding {
        assert(feeds(next, known, asked, c.step));
    }
}

/// Every turn leaves the session with the answers to the requests before.
proof fn lemma_turn_answered<P>(
    c: Connection<P>,
    turn: Turn<P>,
    order: ByteOrder,
    input: Seq<u8>,
    works: Seq<Work<P>>,
) -> (more: Seq<Work<P>>)
    requires
        answered(c, order, input, works),
        c.permits(turn),
    ensures
        answered(c.after(turn), order, input, more),
{
    let next = c.after(turn);
    match turn {
        Turn::Session(outcome) => if c.step is Send {
            lemma_answer_sent(c, order, input, works)
        } else {
            if reading(c.course.stage) {
                lemma_read_on(c, outcome, order, input, works);
            } else {
                lemma_act_on(c, outcome, order, input, works);
            }
            works
        },
        _ => {
            lemma_apart_from_session(c, turn, order, input, works);
            works
        },
    }
}

/// What the session is not told of does not change how far it has come.
proof fn lemma_apart_from_session<P>(
    c: Connection<P>,
    turn: Turn<P>,
    order: ByteOrder,
    input: Seq<u8>,
    works: Seq<Work<P>>,
)
    requires
        answered(c, order, input, works),
        c.permits(turn),
        !(turn is Session),
    ensures
        answered(c.after(turn), order, input, works),
{
    let next = c.after(turn);
    let (known, answers, left) = replies_to(order, input, Map::empty(), works)->Some_0;
    let asked = drive(waiting(order, known), Step::Read(COMMAND_LEN as nat), left);
    assert(next.done.len() > c.done.len() ==> next.done.drop_last() =~= c.done);
    assert(messages_of(next.done, Party::Session) == messages_of(c.done, Party::Session));
    if turn is Handle {
        let pid = c.step->Feed_0;
        assert(c.course.stage is Feeding);
        assert(next.course.processes =~= known.insert(pid, next.course.processes[pid]));
    } else {
        assert(next.course == c.course);
        if c.course.stage is Replying && asked != Some((c.course, c.step, c.unread)) {
            let step = choose|step: Step| #[trigger] feeds(c, known, asked, step);
            assert(feeds(next, known, asked, step));
        }
    }
}

/// All turns leave the session with the answers to the requests before.
proof fn lemma_turns_answered<P>(
    c: Connection<P>,
    turns: Seq<Turn<P>>,
    order: ByteOrder,
    input: Seq<u8>,
    works: Seq<Work<P>>,
) -> (more: Seq<Work<P>>)
    requires
        answered(c, order, input, works),
        c.permits_all(turns),
    ensures
        answered(c.after_all(turns), order, input, more),
    decreases turns.len(),
{
    if turns.len() == 0 {
        works
    } else {
        let next = lemma_turn_answered(c, turns[0], order, input, works);
        lemma_turns_answered(c.after(turns[0]), turns.drop_first(), order, input, next)
    }
}

/// Whatever the writer sends in between, the answers come in the order of the
/// requests: for some outcome of the work that they call for, the messages of
/// the session are the answers to the requests at the start of what the peer
/// has sent, one for each. While the session waits for a request, what is
/// unread and what is known are what those requests leave.
pub proof fn law_replies_in_order<P>(order: ByteOrder, input: Seq<u8>, turns: Seq<Turn<P>>)
    requires
        Connection::open(order, input).permits_all(turns),
    ensures
        ({
            let c = Connection::open(order, input).after_all(turns);
            exists|works: Seq<Work<P>>|
                {
                    &&& #[trigger] replies_to(order, input, Map::empty(), works) matches Some(
                        (known, answers, left),
                    )
                    &&& answers == messages_of(c.done, Party::Session)
                    &&& c.course.stage is Header ==> known == c.course.processes && left
                        == c.unread
                }
        }),
{
    let start = Connection::<P>::open(order, input);
    assert(answered(start, order, input, Seq::empty()));
    let works = lemma_turns_answered(start, turns, order, input, Seq::empty());
    assert(replies_to(order, input, Map::empty(), works) is Some);
}

} // verus!
