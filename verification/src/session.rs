//! The course of a connection.
//!
//! A `Session` never touches the connection itself. It asks for one thing at a
//! time, an `Action`, and is told what came of it, an `Event`; from the two
//! follows the next action.

use crate::message::{GenericError, Message};
use crate::order::ByteOrder;
use crate::proto::{
    law_command_layout, Attr, AttrName, Command, Opcode, ResultCode, ATTR_LEN, COMMAND_LEN,
};
use crate::request::{
    about, decide, law_about_a_process, texts, written, BodyPlan, Decision, FromAttrs, Op, Reaction,
    Request, RunOp, WriteOp, PID_LEN,
};
use crate::state::{ProcState, State};
use vstd::prelude::*;

verus! {

/// What the session asks for.
#[derive(Debug, PartialEq, Eq)]
pub enum Action {
    /// Read exactly this many bytes from the peer.
    Read(usize),
    /// Read exactly this many bytes from the peer and drop them.
    Discard(usize),
    /// Start this program with these arguments and pipes to its three streams.
    Spawn(String, Vec<String>),
    /// Write these bytes to the standard input of the process with this
    /// number.
    Feed(u32, Vec<u8>),
    /// Send this message to the peer.
    Send(GenericError),
    /// Watch over the two outputs and the end of the process with this number.
    Watch(u32),
    /// Nothing more: the connection is over.
    Stop,
}

/// What an action says.
#[verifier::ext_equal]
pub enum Step {
    Read(nat),
    Discard(nat),
    Spawn(Seq<char>, Seq<Seq<char>>),
    Feed(u32, Seq<u8>),
    Send(Message),
    Watch(u32),
    Stop,
}

impl View for Action {
    type V = Step;

    open spec fn view(&self) -> Step {
        match self {
            Action::Read(n) => Step::Read(*n as nat),
            Action::Discard(n) => Step::Discard(*n as nat),
            Action::Spawn(program, args) => Step::Spawn(program@, texts(args@)),
            Action::Feed(pid, data) => Step::Feed(*pid, data@),
            Action::Send(message) => Step::Send(message@),
            Action::Watch(pid) => Step::Watch(*pid),
            Action::Stop => Step::Stop,
        }
    }
}

impl Step {
    /// Nobody else may write to the peer while this is done. From the end of a
    /// request to the start of the next one, the session has the peer to
    /// itself.
    pub open spec fn keeps_writer(self) -> bool {
        !(self is Read || self is Discard || self is Stop)
    }
}

impl Action {
    /// Whether nobody else may write to the peer while this is done.
    pub fn keeps_writer(&self) -> (r: bool)
        ensures
            r == self@.keeps_writer(),
    {
        match self {
            Action::Read(_) => false,
            Action::Discard(_) => false,
            Action::Stop => false,
            _ => true,
        }
    }
}

/// What came of an action.
#[derive(Debug)]
pub enum Event<P> {
    /// These bytes were read.
    Bytes(Vec<u8>),
    /// The bytes were dropped.
    Discarded,
    /// The program runs as the process with this number, and is written to
    /// through this handle.
    Spawned(u32, P),
    /// The bytes were written to the process, or could not be.
    Fed(bool),
    /// The message was sent.
    Sent,
    /// The process is watched.
    Watched,
    /// The action failed.
    Failed,
}

/// What an event says.
#[verifier::ext_equal]
pub enum Outcome<P> {
    Bytes(Seq<u8>),
    Discarded,
    Spawned(u32, P),
    Fed(bool),
    Sent,
    Watched,
    Failed,
}

impl<P> View for Event<P> {
    type V = Outcome<P>;

    open spec fn view(&self) -> Outcome<P> {
        match self {
            Event::Bytes(bytes) => Outcome::Bytes(bytes@),
            Event::Discarded => Outcome::Discarded,
            Event::Spawned(pid, stdin) => Outcome::Spawned(*pid, *stdin),
            Event::Fed(ok) => Outcome::Fed(*ok),
            Event::Sent => Outcome::Sent,
            Event::Watched => Outcome::Watched,
            Event::Failed => Outcome::Failed,
        }
    }
}

/// How far a session has come.
#[verifier::ext_equal]
pub enum Stage<P> {
    /// The header of a request is to be read.
    Header,
    /// So many attributes of the request are still to come, and the header of
    /// the first of them is to be read.
    AttrHeader(Request, nat),
    /// The body of the first of so many attributes is to be read: the one with
    /// this name, of so many bytes.
    AttrBody(Request, nat, AttrName, nat),
    /// The body of the first of so many attributes is to be dropped.
    Skip(Request, nat, nat),
    /// A program is to be started.
    Spawning,
    /// The peer is to be told of a process that has been started.
    Announcing(u32, ProcState<P>),
    /// A process is to be watched.
    Watching,
    /// A process is to be written to.
    Feeding,
    /// The answer to the request is to be sent.
    Replying,
    /// The connection is over.
    Stopped,
}

/// A session: how far it has come, and the processes that it knows.
#[verifier::ext_equal]
pub struct Course<P> {
    pub order: ByteOrder,
    pub stage: Stage<P>,
    pub processes: Map<u32, ProcState<P>>,
}

/// The header `s` asks for something to be closed.
pub open spec fn closing(order: ByteOrder, s: Seq<u8>) -> bool {
    Opcode::of_code(Command::parse(order, s).op) == Ok::<Opcode, u16>(Opcode::Close)
}

impl<P> Course<P> {
    /// The session at another stage.
    pub open spec fn at(self, stage: Stage<P>) -> Course<P> {
        Course { order: self.order, stage, processes: self.processes }
    }

    /// The session does what `decision` says.
    pub open spec fn settle(self, decision: Decision) -> (Course<P>, Step) {
        match decision {
            Decision::Reply(message) => (self.at(Stage::Replying), Step::Send(message)),
            Decision::Spawn(program, args) => (
                self.at(Stage::Spawning),
                Step::Spawn(program, args),
            ),
            Decision::Feed(pid, data) => (self.at(Stage::Feeding), Step::Feed(pid, data)),
        }
    }

    /// The session has `left` attributes of `request` still to read; with none
    /// left, it does what the request calls for.
    pub open spec fn gather(self, request: Request, left: nat) -> (Course<P>, Step) {
        if left == 0 {
            self.settle(decide(self.order, request, self.processes.dom()))
        } else {
            (self.at(Stage::AttrHeader(request, left)), Step::Read(ATTR_LEN as nat))
        }
    }

    /// The session waits for the next request.
    pub open spec fn idle(self) -> (Course<P>, Step) {
        (self.at(Stage::Header), Step::Read(COMMAND_LEN as nat))
    }

    /// `outcome` is one that the action in hand can have. What it is to close
    /// something is left open, so a header that asks for it is not taken.
    pub open spec fn accepts(self, outcome: Outcome<P>) -> bool {
        match (self.stage, outcome) {
            (Stage::Header, Outcome::Bytes(s)) => s.len() == 0 || s.len() == COMMAND_LEN
                && !closing(self.order, s),
            (Stage::AttrHeader(_, _), Outcome::Bytes(s)) => s.len() == ATTR_LEN,
            (Stage::AttrBody(_, _, _, need), Outcome::Bytes(s)) => s.len() == need,
            (Stage::Skip(_, _, _), Outcome::Discarded) => true,
            (Stage::Spawning, Outcome::Spawned(_, _)) => true,
            (Stage::Announcing(_, _), Outcome::Sent) => true,
            (Stage::Watching, Outcome::Watched) => true,
            (Stage::Feeding, Outcome::Fed(_)) => true,
            (Stage::Replying, Outcome::Sent) => true,
            (Stage::Watching, Outcome::Failed) => false,
            (Stage::Feeding, Outcome::Failed) => false,
            (Stage::Stopped, Outcome::Failed) => false,
            (_, Outcome::Failed) => true,
            _ => false,
        }
    }

    /// The session after `outcome`, and what it asks for then.
    pub open spec fn next(self, outcome: Outcome<P>) -> (Course<P>, Step) {
        match (self.stage, outcome) {
            (_, Outcome::Failed) => (self.at(Stage::Stopped), Step::Stop),
            (Stage::Header, Outcome::Bytes(s)) => if s.len() == 0 {
                (self.at(Stage::Stopped), Step::Stop)
            } else {
                let c = Command::parse(self.order, s);
                self.gather(Request::start(c.op), c.num_attrs as nat)
            },
            (Stage::AttrHeader(request, left), Outcome::Bytes(s)) => {
                let a = Attr::parse(self.order, s);
                match (request.plan_code(a.attr, a.len), AttrName::of_code(a.attr)) {
                    (BodyPlan::Read(n), Ok(name)) => (
                        self.at(Stage::AttrBody(request, left, name, n as nat)),
                        Step::Read(n as nat),
                    ),
                    (plan, _) => (
                        self.at(Stage::Skip(request, left, plan.size())),
                        Step::Discard(plan.size()),
                    ),
                }
            },
            (Stage::AttrBody(request, left, name, _), Outcome::Bytes(s)) => self.gather(
                request.with(name, s),
                (left - 1) as nat,
            ),
            (Stage::Skip(request, left, _), _) => self.gather(request, (left - 1) as nat),
            (Stage::Spawning, Outcome::Spawned(pid, stdin)) => (
                self.at(Stage::Announcing(pid, (ProcState { stdin }))),
                Step::Send(about(self.order, ResultCode::Success, pid)),
            ),
            (Stage::Announcing(pid, process), _) => (
                Course {
                    order: self.order,
                    stage: Stage::Watching,
                    processes: self.processes.insert(pid, process),
                },
                Step::Watch(pid),
            ),
            (Stage::Feeding, Outcome::Fed(ok)) => (
                self.at(Stage::Replying),
                Step::Send(written(ok)),
            ),
            _ => self.idle(),
        }
    }
}

/// How far a session has come, with what it has gathered.
#[derive(Debug)]
enum Phase<P> {
    Header,
    AttrHeader { op: Op, left: u8 },
    AttrBody { op: Op, left: u8, name: AttrName, need: usize },
    Skip { op: Op, left: u8, need: usize },
    Spawning,
    Announcing { pid: u32, process: ProcState<P> },
    Watching,
    Feeding,
    Replying,
    Stopped,
}

impl<P> View for Phase<P> {
    type V = Stage<P>;

    closed spec fn view(&self) -> Stage<P> {
        match self {
            Phase::Header => Stage::Header,
            Phase::AttrHeader { op, left } => Stage::AttrHeader(op.request(), *left as nat),
            Phase::AttrBody { op, left, name, need } => Stage::AttrBody(
                op.request(),
                *left as nat,
                *name,
                *need as nat,
            ),
            Phase::Skip { op, left, need } => Stage::Skip(op.request(), *left as nat, *need as nat),
            Phase::Spawning => Stage::Spawning,
            Phase::Announcing { pid, process } => Stage::Announcing(*pid, *process),
            Phase::Watching => Stage::Watching,
            Phase::Feeding => Stage::Feeding,
            Phase::Replying => Stage::Replying,
            Phase::Stopped => Stage::Stopped,
        }
    }
}

impl<P> Phase<P> {
    /// What is left to read of a request is what its attributes call for.
    #[verifier::type_invariant]
    spec fn wf(self) -> bool {
        match self {
            Phase::AttrHeader { op, left } => left > 0,
            Phase::AttrBody { op, left, name, need } => left > 0 && (op.request() is Write && name
                is Pid ==> need == PID_LEN),
            Phase::Skip { op, left, need } => left > 0,
            _ => true,
        }
    }
}

/// One connection. Its processes are written to through handles of the type
/// `P`, which is not looked into.
#[derive(Debug)]
pub struct Session<P> {
    order: ByteOrder,
    phase: Phase<P>,
    state: State<P>,
}

impl<P> View for Session<P> {
    type V = Course<P>;

    closed spec fn view(&self) -> Course<P> {
        Course { order: self.order, stage: self.phase@, processes: self.state@ }
    }
}

impl<P> Session<P> {
    /// A session with a peer that has asked for nothing yet, and its first
    /// action.
    pub fn open(order: ByteOrder) -> (r: (Session<P>, Action))
        ensures
            r.0@ == (Course { order, stage: Stage::<P>::Header, processes: Map::empty() }),
            r.1@ == Step::Read(COMMAND_LEN as nat),
    {
        (
            Session { order, phase: Phase::Header, state: State::new() },
            Action::Read(COMMAND_LEN),
        )
    }

    /// Whether `bytes`, taken now, are a header that asks for something to be
    /// closed.
    pub fn asks_close(&self, bytes: &[u8]) -> (r: bool)
        ensures
            r == (self@.stage is Header && bytes@.len() == COMMAND_LEN && closing(
                self@.order,
                bytes@,
            )),
    {
        match (&self.phase, Command::read_from_bytes(self.order, bytes)) {
            (Phase::Header, Some(command)) => match Opcode::try_from(command.op) {
                Ok(Opcode::Close) => true,
                _ => false,
            },
            _ => false,
        }
    }

    /// The handle to write to a process with, where the process is known.
    /// Nothing but what it stands for can be changed through it.
    pub fn stdin_mut(&mut self, pid: u32) -> (r: Option<&mut P>)
        ensures
            final(self)@.order == old(self)@.order,
            final(self)@.stage == old(self)@.stage,
            match r {
                Some(stdin) => {
                    &&& old(self)@.processes.contains_key(pid)
                    &&& *stdin == old(self)@.processes[pid].stdin
                    &&& final(self)@.processes == old(self)@.processes.insert(
                        pid,
                        (ProcState { stdin: *final(stdin) }),
                    )
                },
                None => {
                    &&& !old(self)@.processes.contains_key(pid)
                    &&& final(self)@.processes == old(self)@.processes
                },
            },
    {
        self.state.stdin_mut(pid)
    }

    /// Takes in what came of the last action, and says what to do next.
    pub fn step(&mut self, event: Event<P>) -> (r: Action)
        requires
            old(self)@.accepts(event@),
        ensures
            (final(self)@, r@) == old(self)@.next(event@),
    {
        let mut phase = Phase::Stopped;
        std::mem::swap(&mut phase, &mut self.phase);
        proof {
            use_type_invariant(&phase);
        }
        match (phase, event) {
            (_, Event::Failed) => Action::Stop,
            (Phase::Header, Event::Bytes(bytes)) => {
                match Command::read_from_bytes(self.order, bytes.as_slice()) {
                    Some(h) => self.parse_attrs(Op::start(h.op), h.num_attrs),
                    None => Action::Stop,
                }
            },
            (Phase::AttrHeader { op, left }, Event::Bytes(bytes)) => {
                match Attr::read_from_bytes(self.order, bytes.as_slice()) {
                    Some(attr) => self.plan_body(op, left, attr),
                    None => Action::Stop,
                }
            },
            (Phase::AttrBody { mut op, left, name, need: _ }, Event::Bytes(bytes)) => {
                op.set_attr(name, bytes.as_slice());
                self.parse_attrs(op, left - 1)
            },
            (Phase::Skip { op, left, need: _ }, Event::Discarded) => self.parse_attrs(op, left - 1),
            (Phase::Spawning, Event::Spawned(pid, stdin)) => {
                self.phase = Phase::Announcing { pid, process: ProcState::new(stdin) };
                Action::Send(RunOp::started(pid, self.order))
            },
            (Phase::Announcing { pid, process }, Event::Sent) => {
                self.state.insert(pid, process);
                self.phase = Phase::Watching;
                Action::Watch(pid)
            },
            (Phase::Feeding, Event::Fed(ok)) => {
                self.phase = Phase::Replying;
                Action::Send(WriteOp::finished(ok))
            },
            _ => {
                self.phase = Phase::Header;
                Action::Read(COMMAND_LEN)
            },
        }
    }

    /// Goes on to the next attribute of a request, or, after the last one, to
    /// what the request calls for.
    fn parse_attrs(&mut self, op: Op, left: u8) -> (r: Action)
        ensures
            (final(self)@, r@) == old(self)@.gather(op.request(), left as nat),
    {
        if left > 0 {
            self.phase = Phase::AttrHeader { op, left };
            return Action::Read(ATTR_LEN);
        }
        match op.update_state(&self.state, self.order) {
            Reaction::Reply(message) => {
                self.phase = Phase::Replying;
                Action::Send(message)
            },
            Reaction::Spawn(program, args) => {
                self.phase = Phase::Spawning;
                Action::Spawn(program, args)
            },
            Reaction::Feed(pid, data) => {
                self.phase = Phase::Feeding;
                Action::Feed(pid, data)
            },
        }
    }

    /// Turns to the body of an attribute whose header has been read.
    fn plan_body(&mut self, op: Op, left: u8, attr: Attr) -> (r: Action)
        requires
            left > 0,
        ensures
            final(self)@.order == old(self)@.order,
            final(self)@.processes == old(self)@.processes,
            match (op.request().plan_code(attr.attr, attr.len), AttrName::of_code(attr.attr)) {
                (BodyPlan::Read(n), Ok(name)) => {
                    &&& final(self)@.stage == Stage::<P>::AttrBody(
                        op.request(),
                        left as nat,
                        name,
                        n as nat,
                    )
                    &&& r@ == Step::Read(n as nat)
                },
                (plan, _) => {
                    &&& final(self)@.stage == Stage::<P>::Skip(
                        op.request(),
                        left as nat,
                        plan.size(),
                    )
                    &&& r@ == Step::Discard(plan.size())
                },
            },
    {
        match AttrName::try_from(attr.attr) {
            Ok(name) => match op.plan_attr(name, attr.len) {
                BodyPlan::Read(need) => {
                    self.phase = Phase::AttrBody { op, left, name, need };
                    Action::Read(need)
                },
                BodyPlan::Discard(need) => {
                    self.phase = Phase::Skip { op, left, need };
                    Action::Discard(need)
                },
            },
            Err(_) => {
                let need: usize = attr.len as usize;
                self.phase = Phase::Skip { op, left, need };
                Action::Discard(need)
            },
        }
    }
}

/// An action says what is done, with all that it is done with.
pub proof fn law_action_says(a: Action)
    ensures
        match a {
            Action::Read(n) => a@ matches Step::Read(k) && k == n,
            Action::Discard(n) => a@ matches Step::Discard(k) && k == n,
            Action::Spawn(program, args) => a@ matches Step::Spawn(name, words) && name == program@
                && words.len() == args@.len() && forall|i: int|
                0 <= i < words.len() ==> #[trigger] words[i] == args@[i]@,
            Action::Feed(pid, data) => a@ matches Step::Feed(to, bytes) && to == pid && bytes
                == data@,
            Action::Send(message) => a@ matches Step::Send(m) && m == message@,
            Action::Watch(pid) => a@ matches Step::Watch(of) && of == pid,
            Action::Stop => a@ is Stop,
        },
{
}

/// An event says what came of an action, with all that came of it.
pub proof fn law_event_says<P>(e: Event<P>)
    ensures
        match e {
            Event::Bytes(bytes) => e@ matches Outcome::Bytes(s) && s == bytes@,
            Event::Discarded => e@ is Discarded,
            Event::Spawned(pid, stdin) => e@ matches Outcome::Spawned(number, handle) && number
                == pid && handle == stdin,
            Event::Fed(ok) => e@ matches Outcome::Fed(done) && done == ok,
            Event::Sent => e@ is Sent,
            Event::Watched => e@ is Watched,
            Event::Failed => e@ is Failed,
        },
{
}

/// Others may write to the peer while the session reads, drops what it reads,
/// or has stopped, and at no other time.
pub proof fn law_keeps_writer(a: Action, r: bool)
    requires
        call_ensures(Action::keeps_writer, (&a,), r),
    ensures
        r <==> a is Spawn || a is Feed || a is Send || a is Watch,
{
}

/// A session begins with no processes, by reading the four bytes of a header.
pub proof fn law_opened<P>(order: ByteOrder, r: (Session<P>, Action))
    requires
        call_ensures(Session::<P>::open, (order,), r),
    ensures
        r.0@.order == order,
        r.0@.stage is Header,
        forall|pid: u32| !(#[trigger] r.0@.processes.contains_key(pid)),
        r.1 matches Action::Read(n) && n == 4,
{
}

/// A session is asked to close something by the four bytes of a header with the
/// number 3, where it waits for a header, and by nothing else.
pub proof fn law_asks_close<P>(s: Session<P>, bytes: &[u8], r: bool)
    requires
        call_ensures(Session::<P>::asks_close, (&s, bytes), r),
    ensures
        r <==> {
            &&& s@.stage is Header
            &&& bytes@.len() == 4
            &&& s@.order is Little ==> bytes@[0] + 256 * bytes@[1] == 3
            &&& s@.order is Big ==> 256 * bytes@[0] + bytes@[1] == 3
        },
{
    law_closing(s@.order, bytes@);
}

/// A header asks for something to be closed if and only if its number is 3.
pub proof fn law_closing(order: ByteOrder, s: Seq<u8>)
    ensures
        s.len() == 4 && order is Little ==> (closing(order, s) <==> s[0] + 256 * s[1] == 3),
        s.len() == 4 && order is Big ==> (closing(order, s) <==> 256 * s[0] + s[1] == 3),
{
    law_command_layout(order, Command { op: 0, num_attrs: 0, padding: 0 }, s);
}

/// The handle of a process is given out if and only if the process is known,
/// and what is done through it touches no other process and does not move the
/// session.
pub proof fn law_handle_of_session<P>(pid: u32, other: u32)
    ensures
        forall|s: &mut Session<P>, r: Option<&mut P>|
            #[trigger] call_ensures(Session::<P>::stdin_mut, (s, pid), r) ==> {
                let old_known = s@.processes;
                let known = final(s)@.processes;
                &&& final(s)@.order == s@.order
                &&& final(s)@.stage == s@.stage
                &&& r is Some <==> old_known.contains_key(pid)
                &&& r matches Some(stdin) ==> *stdin == old_known[pid].stdin && known.contains_key(
                    pid,
                ) && known[pid].stdin == *final(stdin)
                &&& known.contains_key(other) <==> old_known.contains_key(other)
                &&& other != pid && old_known.contains_key(other) ==> known[other]
                    == old_known[other]
            },
{
}

/// A session does what a decision says, and what it knows stays the same.
pub proof fn law_settled<P>(c: Course<P>, decision: Decision)
    ensures
        ({
            let (next, step) = c.settle(decision);
            &&& next.order == c.order
            &&& next.processes == c.processes
            &&& match decision {
                Decision::Reply(m) => next.stage is Replying && (step matches Step::Send(sent)
                    && sent == m),
                Decision::Spawn(program, args) => next.stage is Spawning && (step matches Step::Spawn(
                    name,
                    words,
                ) && name == program && words == args),
                Decision::Feed(pid, data) => next.stage is Feeding && (step matches Step::Feed(
                    to,
                    bytes,
                ) && to == pid && bytes == data),
            }
        }),
{
}

/// When a program runs, the peer is told the number of its process, which can
/// be read back from the answer. Then that process and no other becomes known,
/// with the handle that it came with, and is watched; then the session waits
/// for the four bytes of the next header.
pub proof fn law_spawned<P>(c: Course<P>, pid: u32, stdin: P, other: u32)
    requires
        c.stage is Spawning,
    ensures
        c.accepts(Outcome::Spawned(pid, stdin)),
        ({
            let (c1, step1) = c.next(Outcome::Spawned(pid, stdin));
            let (c2, step2) = c1.next(Outcome::Sent);
            let (c3, step3) = c2.next(Outcome::Watched);
            &&& c1.order == c.order && c2.order == c.order && c3.order == c.order
            &&& c1.processes == c.processes
            &&& step1 matches Step::Send(m) && {
                let b = m.attrs[0].data;
                &&& m.result is Success
                &&& m.attrs.len() == 1
                &&& m.attrs[0].name == 3
                &&& b.len() == 4
                &&& c.order is Little ==> b[0] + 256 * b[1] + 65536 * b[2] + 16777216 * b[3] == pid
                &&& c.order is Big ==> 16777216 * b[0] + 65536 * b[1] + 256 * b[2] + b[3] == pid
            }
            &&& c1.accepts(Outcome::Sent)
            &&& step2 matches Step::Watch(of) && of == pid
            &&& c2.processes.contains_key(pid) && c2.processes[pid].stdin == stdin
            &&& other != pid ==> (c2.processes.contains_key(other) <==> c.processes.contains_key(
                other,
            ))
            &&& other != pid && c.processes.contains_key(other) ==> c2.processes[other]
                == c.processes[other]
            &&& c2.accepts(Outcome::Watched)
            &&& c3.processes == c2.processes
            &&& c3.stage is Header
            &&& step3 matches Step::Read(n) && n == 4
        }),
{
    law_about_a_process(c.order, ResultCode::Success, pid);
}

/// When bytes have been written to a process, or could not be, the peer is told
/// which, and then the session waits for the four bytes of the next header;
/// what it knows stays the same.
pub proof fn law_fed<P>(c: Course<P>, ok: bool)
    requires
        c.stage is Feeding,
    ensures
        c.accepts(Outcome::Fed(ok)),
        ({
            let (c1, step1) = c.next(Outcome::Fed(ok));
            &&& c1.order == c.order
            &&& c1.processes == c.processes
            &&& c1.stage is Replying
            &&& step1 matches Step::Send(m) && m.attrs.len() == 0 && (m.result is Success <==> ok)
                && (m.result is Failed <==> !ok)
        }),
{
}

/// When an answer has been sent, the session waits for the four bytes of the
/// next header, and what it knows stays the same.
pub proof fn law_replied<P>(c: Course<P>)
    requires
        c.stage is Replying,
    ensures
        c.accepts(Outcome::Sent),
        ({
            let (c1, step1) = c.next(Outcome::Sent);
            &&& c1.order == c.order
            &&& c1.processes == c.processes
            &&& c1.stage is Header
            &&& step1 matches Step::Read(n) && n == 4
        }),
{
}

/// Where a session waits for a header, it takes any four bytes but those of a
/// header with the number 3, and, at the end of the stream, none; where it
/// waits for the header of an attribute, any four; where it waits for a body,
/// any bytes of its length.
pub proof fn law_bytes_taken<P>(c: Course<P>, s: Seq<u8>)
    ensures
        c.stage is Header ==> (c.accepts(Outcome::Bytes(s)) <==> s.len() == 0 || s.len() == 4 && !{
            &&& c.order is Little ==> s[0] + 256 * s[1] == 3
            &&& c.order is Big ==> 256 * s[0] + s[1] == 3
        }),
        c.stage is AttrHeader ==> (c.accepts(Outcome::Bytes(s)) <==> s.len() == 4),
        c.stage matches Stage::AttrBody(_, _, _, need) ==> (c.accepts(Outcome::Bytes(s)) <==> s.len()
            == need),
        c.stage is Skip ==> c.accepts(Outcome::Discarded),
        c.accepts(Outcome::Failed) <==> !(c.stage is Watching || c.stage is Feeding || c.stage
            is Stopped),
{
    law_closing(c.order, s);
}

/// A session told that the program runs answers with the number of the
/// process, one told of a write answers how it went, and one told of a failure
/// stops.
pub proof fn law_step_answers<P>(pid: u32, stdin: P, ok: bool)
    ensures
        forall|s: &mut Session<P>, r: Action|
            #[trigger] call_ensures(Session::<P>::step, (s, Event::Spawned(pid, stdin)), r)
                && s@.stage is Spawning ==> (r matches Action::Send(m) && {
                let b = m@.attrs[0].data;
                &&& m@.result is Success
                &&& m@.attrs.len() == 1
                &&& m@.attrs[0].name == 3
                &&& b.len() == 4
                &&& s@.order is Little ==> b[0] + 256 * b[1] + 65536 * b[2] + 16777216 * b[3] == pid
                &&& s@.order is Big ==> 16777216 * b[0] + 65536 * b[1] + 256 * b[2] + b[3] == pid
            }),
        forall|s: &mut Session<P>, r: Action|
            #[trigger] call_ensures(Session::<P>::step, (s, Event::Fed(ok)), r) && s@.stage
                is Feeding ==> (r matches Action::Send(m) && m@.attrs.len() == 0 && (m@.result
                is Success <==> ok) && (m@.result is Failed <==> !ok)),
        forall|s: &mut Session<P>, r: Action|
            #[trigger] call_ensures(Session::<P>::step, (s, Event::Failed), r) && s@.accepts(
                Outcome::Failed,
            ) ==> r is Stop && final(s)@.processes == s@.processes,
{
    law_about_a_process(ByteOrder::Little, ResultCode::Success, pid);
    law_about_a_process(ByteOrder::Big, ResultCode::Success, pid);
}

} // verus!
