//! What a peer can ask for, how it is gathered from attributes, and what is
//! done about it.

use crate::message::{field, GenericError, Message};
use crate::order::{law_u32_weights, ByteOrder};
use crate::proto::{
    law_attr_layout, law_command_layout, Attr, AttrName, Command, Opcode, ResultCode, ATTR_LEN,
    COMMAND_LEN,
};
use crate::state::State;
use crate::text::{read_string, text_of};
use vstd::prelude::*;
use vstd::slice::slice_to_vec;
use vstd::utf8::{
    decode_utf8, encode_utf8, encode_utf8_decode_utf8, encode_utf8_valid_utf8, valid_utf8,
};

verus! {

/// How many bytes the number of a process takes up in a request.
pub const PID_LEN: usize = 4;

/// Where a request wants to write.
#[derive(Debug, Clone, Copy, PartialEq, Eq, Structural)]
pub enum StreamTarget {
    /// To the standard input of the process with this number.
    PidStream(u32),
}

/// What is done with the body of an attribute.
#[derive(Debug, Clone, Copy, PartialEq, Eq, Structural)]
pub enum BodyPlan {
    /// This many bytes are read and kept.
    Read(usize),
    /// This many bytes are read and dropped.
    Discard(usize),
}

impl BodyPlan {
    /// How many bytes are taken from the stream.
    pub open spec fn size(self) -> nat {
        match self {
            BodyPlan::Read(n) => n as nat,
            BodyPlan::Discard(n) => n as nat,
        }
    }
}

/// A request, as far as its attributes have been read.
#[verifier::ext_equal]
pub enum Request {
    /// Start the program that these words name.
    Run(Seq<Seq<char>>),
    /// Write these bytes to that target.
    Write(Option<StreamTarget>, Seq<u8>),
    /// Something else.
    Unknown,
}

impl Request {
    /// The request with the number `code`, before its first attribute.
    ///
    /// Closing is not supported: a session takes no header that asks for it,
    /// so what stands here for it means nothing.
    pub open spec fn start(code: u16) -> Request {
        match Opcode::of_code(code) {
            Ok(Opcode::Run) => Request::Run(Seq::empty()),
            Ok(Opcode::Write) => Request::Write(None, Seq::empty()),
            _ => Request::Unknown,
        }
    }

    /// What is done with the body of the attribute `name`, which its header
    /// says to have `len` bytes.
    ///
    /// Writing goes by the name: it takes four bytes for the number of a
    /// process, whatever the header says, and none for a word or a text.
    pub open spec fn plan(self, name: AttrName, len: u16) -> BodyPlan {
        match self {
            Request::Run(_) => BodyPlan::Read(len as usize),
            Request::Write(_, _) => match name {
                AttrName::Pid => BodyPlan::Read(PID_LEN),
                AttrName::Data => BodyPlan::Read(len as usize),
                _ => BodyPlan::Read(0),
            },
            Request::Unknown => BodyPlan::Discard(len as usize),
        }
    }

    /// The request after the attribute `name` with the given body.
    pub open spec fn with(self, name: AttrName, body: Seq<u8>) -> Request {
        match self {
            Request::Run(args) => Request::Run(args.push(text_of(body))),
            Request::Write(target, buf) => match name {
                AttrName::Pid => Request::Write(
                    Some(StreamTarget::PidStream(ByteOrder::Big.u32_value(body))),
                    buf,
                ),
                AttrName::Data => Request::Write(target, body),
                _ => self,
            },
            Request::Unknown => self,
        }
    }

    /// The same as `plan`, for an attribute whose name has the number `code`.
    /// The body of one that is not known is dropped.
    pub open spec fn plan_code(self, code: u16, len: u16) -> BodyPlan {
        match AttrName::of_code(code) {
            Ok(name) => self.plan(name, len),
            Err(_) => BodyPlan::Discard(len as usize),
        }
    }

    /// The same as `with`, for an attribute whose name has the number `code`.
    pub open spec fn with_code(self, code: u16, body: Seq<u8>) -> Request {
        match AttrName::of_code(code) {
            Ok(name) => self.with(name, body),
            Err(_) => self,
        }
    }
}

/// `request` after the next `n` attributes of `s`, and the bytes after them,
/// if they are all there.
pub open spec fn parse_attrs(order: ByteOrder, request: Request, n: nat, s: Seq<u8>) -> Option<
    (Request, Seq<u8>),
>
    decreases n,
{
    if n == 0 {
        Some((request, s))
    } else if s.len() < ATTR_LEN {
        None
    } else {
        let a = Attr::parse(order, s.take(ATTR_LEN as int));
        let end = ATTR_LEN + request.plan_code(a.attr, a.len).size();
        if s.len() < end {
            None
        } else {
            parse_attrs(
                order,
                request.with_code(a.attr, s.subrange(ATTR_LEN as int, end as int)),
                (n - 1) as nat,
                s.skip(end as int),
            )
        }
    }
}

/// The request at the start of `s`, and the bytes after it, if it is all
/// there.
pub open spec fn parse_request(order: ByteOrder, s: Seq<u8>) -> Option<(Request, Seq<u8>)> {
    if s.len() < COMMAND_LEN {
        None
    } else {
        let c = Command::parse(order, s.take(COMMAND_LEN as int));
        parse_attrs(order, Request::start(c.op), c.num_attrs as nat, s.skip(COMMAND_LEN as int))
    }
}

/// What a complete request calls for.
#[verifier::ext_equal]
pub enum Decision {
    /// This answer, and nothing else.
    Reply(Message),
    /// This program to be started with these arguments.
    Spawn(Seq<char>, Seq<Seq<char>>),
    /// These bytes to be written to the process with this number.
    Feed(u32, Seq<u8>),
}

/// The answer to a request that lacks something.
pub open spec fn invalid(text: Seq<char>) -> Message {
    Message {
        result: ResultCode::InvalidState,
        attrs: seq![field(AttrName::Message, encode_utf8(text))],
    }
}

/// The message `result` about the process `pid`.
pub open spec fn about(order: ByteOrder, result: ResultCode, pid: u32) -> Message {
    Message { result, attrs: seq![field(AttrName::Pid, order.u32_bytes(pid))] }
}

/// The message `result`, with nothing more to say.
pub open spec fn plain(result: ResultCode) -> Message {
    Message { result, attrs: Seq::empty() }
}

/// What `request` calls for while `known` are the processes that can be
/// written to.
pub open spec fn decide(order: ByteOrder, request: Request, known: Set<u32>) -> Decision {
    match request {
        Request::Run(args) => if args.len() == 0 {
            Decision::Reply(invalid("No arguments given"@))
        } else {
            Decision::Spawn(args[0], args.drop_first())
        },
        Request::Write(None, _) => Decision::Reply(invalid("No write target"@)),
        Request::Write(Some(StreamTarget::PidStream(pid)), buf) => if known.contains(pid) {
            Decision::Feed(pid, buf)
        } else {
            Decision::Reply(about(order, ResultCode::NotFound, pid))
        },
        Request::Unknown => Decision::Reply(plain(ResultCode::UnknownOp)),
    }
}

/// What a complete request calls for, as a value to act on.
#[derive(Debug, PartialEq, Eq)]
pub enum Reaction {
    /// This answer, and nothing else.
    Reply(GenericError),
    /// This program to be started with these arguments.
    Spawn(String, Vec<String>),
    /// These bytes to be written to the process with this number.
    Feed(u32, Vec<u8>),
}

/// The texts of `words`.
pub open spec fn texts(words: Seq<String>) -> Seq<Seq<char>> {
    words.map_values(|word: String| word@)
}

impl View for Reaction {
    type V = Decision;

    open spec fn view(&self) -> Decision {
        match self {
            Reaction::Reply(message) => Decision::Reply(message@),
            Reaction::Spawn(program, args) => Decision::Spawn(program@, texts(args@)),
            Reaction::Feed(pid, data) => Decision::Feed(*pid, data@),
        }
    }
}

/// A request that is gathered from attributes.
pub trait FromAttrs: Sized {
    /// The request as it stands.
    spec fn request(&self) -> Request;

    /// What to do with the body of an attribute.
    fn plan_attr(&self, attr: AttrName, len: u16) -> (r: BodyPlan)
        ensures
            r == self.request().plan(attr, len),
    ;

    /// Takes an attribute in.
    fn set_attr(&mut self, attr: AttrName, body: &[u8])
        requires
            old(self).request() is Write && attr is Pid ==> body@.len() == PID_LEN,
        ensures
            final(self).request() == old(self).request().with(attr, body@),
    ;

    /// What the request calls for, once it is complete.
    fn update_state<P>(self, state: &State<P>, order: ByteOrder) -> (r: Reaction)
        ensures
            r@ == decide(order, self.request(), state@.dom()),
    ;
}

/// A request to start a program.
#[derive(Debug)]
pub struct RunOp {
    pub args: Vec<String>,
}

impl Default for RunOp {
    fn default() -> (r: RunOp)
        ensures
            r.request() == Request::Run(Seq::empty()),
    {
        let r = RunOp { args: Vec::new() };
        assert(texts(r.args@) =~= Seq::empty());
        r
    }
}

impl FromAttrs for RunOp {
    open spec fn request(&self) -> Request {
        Request::Run(texts(self.args@))
    }

    fn plan_attr(&self, attr: AttrName, len: u16) -> (r: BodyPlan) {
        BodyPlan::Read(len as usize)
    }

    fn set_attr(&mut self, attr: AttrName, body: &[u8]) {
        let ghost before = self.args@;
        self.args.push(read_string(body));
        assert(texts(self.args@) =~= texts(before).push(text_of(body@)));
    }

    fn update_state<P>(self, state: &State<P>, order: ByteOrder) -> (r: Reaction) {
        let mut args = self.args;
        if args.len() == 0 {
            let r = Reaction::Reply(
                GenericError::new(ResultCode::InvalidState).attr(
                    AttrName::Message,
                    &"No arguments given",
                    order,
                ),
            );
            assert(r@->Reply_0.attrs =~= invalid("No arguments given"@).attrs);
            r
        } else {
            let program = args.remove(0);
            assert(texts(args@) =~= texts(self.args@).drop_first());
            Reaction::Spawn(program, args)
        }
    }
}

impl RunOp {
    /// The answer once the program runs as the process `pid`.
    pub fn started(pid: u32, order: ByteOrder) -> (r: GenericError)
        ensures
            r@ == about(order, ResultCode::Success, pid),
    {
        let r = GenericError::new(ResultCode::Success).attr(AttrName::Pid, &pid, order);
        assert(r@.attrs =~= about(order, ResultCode::Success, pid).attrs);
        r
    }
}

/// A request to write to a process.
#[derive(Debug)]
pub struct WriteOp {
    pub target: Option<StreamTarget>,
    pub buf: Vec<u8>,
}

impl Default for WriteOp {
    fn default() -> (r: WriteOp)
        ensures
            r.request() == Request::Write(None, Seq::empty()),
    {
        WriteOp { target: None, buf: Vec::new() }
    }
}

impl FromAttrs for WriteOp {
    open spec fn request(&self) -> Request {
        Request::Write(self.target, self.buf@)
    }

    fn plan_attr(&self, attr: AttrName, len: u16) -> (r: BodyPlan) {
        match attr {
            AttrName::Pid => BodyPlan::Read(PID_LEN),
            AttrName::Data => BodyPlan::Read(len as usize),
            _ => BodyPlan::Read(0),
        }
    }

    fn set_attr(&mut self, attr: AttrName, body: &[u8]) {
        match attr {
            AttrName::Pid => {
                if let Some(pid) = ByteOrder::Big.get_u32(body) {
                    self.target = Some(StreamTarget::PidStream(pid));
                }
            },
            AttrName::Data => {
                self.buf = slice_to_vec(body);
            },
            _ => (),
        }
    }

    fn update_state<P>(self, state: &State<P>, order: ByteOrder) -> (r: Reaction) {
        match self.target {
            None => {
                let r = Reaction::Reply(
                    GenericError::new(ResultCode::InvalidState).attr(
                        AttrName::Message,
                        &"No write target",
                        order,
                    ),
                );
                assert(r@->Reply_0.attrs =~= invalid("No write target"@).attrs);
                r
            },
            Some(StreamTarget::PidStream(pid)) => {
                if state.knows(pid) {
                    Reaction::Feed(pid, self.buf)
                } else {
                    let r = Reaction::Reply(
                        GenericError::new(ResultCode::NotFound).attr(AttrName::Pid, &pid, order),
                    );
                    assert(r@->Reply_0.attrs =~= about(order, ResultCode::NotFound, pid).attrs);
                    r
                }
            },
        }
    }
}

/// The answer to a write that was tried.
pub open spec fn written(ok: bool) -> Message {
    if ok {
        plain(ResultCode::Success)
    } else {
        plain(ResultCode::Failed)
    }
}

impl WriteOp {
    /// The answer once the bytes have been written, or could not be.
    pub fn finished(ok: bool) -> (r: GenericError)
        ensures
            r@ == written(ok),
    {
        if ok {
            GenericError::new(ResultCode::Success)
        } else {
            GenericError::new(ResultCode::Failed)
        }
    }
}

/// A request that is not known.
#[derive(Debug)]
pub struct NoOp {}

impl Default for NoOp {
    fn default() -> (r: NoOp)
        ensures
            r.request() == Request::Unknown,
    {
        NoOp {  }
    }
}

impl FromAttrs for NoOp {
    open spec fn request(&self) -> Request {
        Request::Unknown
    }

    fn plan_attr(&self, attr: AttrName, len: u16) -> (r: BodyPlan) {
        BodyPlan::Discard(len as usize)
    }

    fn set_attr(&mut self, attr: AttrName, body: &[u8]) {
    }

    fn update_state<P>(self, state: &State<P>, order: ByteOrder) -> (r: Reaction) {
        Reaction::Reply(GenericError::new(ResultCode::UnknownOp))
    }
}

/// A request of any kind.
#[derive(Debug)]
pub enum Op {
    Run(RunOp),
    Write(WriteOp),
    Unknown(NoOp),
}

impl Op {
    /// The request with the number `code`, before its first attribute.
    /// Closing is not among the requests that are gathered.
    pub fn start(code: u16) -> (r: Op)
        requires
            Opcode::of_code(code) != Ok::<Opcode, u16>(Opcode::Close),
        ensures
            r.request() == Request::start(code),
    {
        match Opcode::try_from(code) {
            Ok(Opcode::Run) => Op::Run(RunOp::default()),
            Ok(Opcode::Write) => Op::Write(WriteOp::default()),
            _ => Op::Unknown(NoOp::default()),
        }
    }
}

impl FromAttrs for Op {
    open spec fn request(&self) -> Request {
        match self {
            Op::Run(op) => op.request(),
            Op::Write(op) => op.request(),
            Op::Unknown(op) => op.request(),
        }
    }

    fn plan_attr(&self, attr: AttrName, len: u16) -> (r: BodyPlan) {
        match self {
            Op::Run(op) => op.plan_attr(attr, len),
            Op::Write(op) => op.plan_attr(attr, len),
            Op::Unknown(op) => op.plan_attr(attr, len),
        }
    }

    fn set_attr(&mut self, attr: AttrName, body: &[u8]) {
        match self {
            Op::Run(op) => op.set_attr(attr, body),
            Op::Write(op) => op.set_attr(attr, body),
            Op::Unknown(op) => op.set_attr(attr, body),
        }
    }

    fn update_state<P>(self, state: &State<P>, order: ByteOrder) -> (r: Reaction) {
        match self {
            Op::Run(op) => op.update_state(state, order),
            Op::Write(op) => op.update_state(state, order),
            Op::Unknown(op) => op.update_state(state, order),
        }
    }
}

/// A message about a process has one attribute, the number of the process,
/// which adds up by the weights of its four bytes.
pub proof fn law_about_a_process(order: ByteOrder, result: ResultCode, pid: u32)
    ensures
        ({
            let m = about(order, result, pid);
            let b = m.attrs[0].data;
            &&& m.result == result
            &&& m.attrs.len() == 1
            &&& m.attrs[0].name == 3
            &&& b.len() == 4
            &&& order is Little ==> b[0] + 256 * b[1] + 65536 * b[2] + 16777216 * b[3] == pid
            &&& order is Big ==> 16777216 * b[0] + 65536 * b[1] + 256 * b[2] + b[3] == pid
        }),
{
    law_u32_weights(order, pid, Seq::empty());
}

/// A refusal has one attribute, the text that says why, and the text can be
/// read back.
pub proof fn law_refusal(text: Seq<char>)
    ensures
        invalid(text).result is InvalidState,
        invalid(text).attrs.len() == 1,
        invalid(text).attrs[0].name == 2,
        valid_utf8(invalid(text).attrs[0].data),
        decode_utf8(invalid(text).attrs[0].data) == text,
{
    encode_utf8_valid_utf8(text);
    encode_utf8_decode_utf8(text);
}

/// The answer to a program that was started is a success with one attribute,
/// the number of the process, which can be read back for every number.
pub proof fn law_started_told(pid: u32, order: ByteOrder, r: GenericError)
    requires
        call_ensures(RunOp::started, (pid, order), r),
    ensures
        ({
            let b = r@.attrs[0].data;
            &&& r@.result is Success
            &&& r@.attrs.len() == 1
            &&& r@.attrs[0].name == 3
            &&& b.len() == 4
            &&& order is Little ==> b[0] + 256 * b[1] + 65536 * b[2] + 16777216 * b[3] == pid
            &&& order is Big ==> 16777216 * b[0] + 65536 * b[1] + 256 * b[2] + b[3] == pid
        }),
{
    law_about_a_process(order, ResultCode::Success, pid);
}

/// The answers to the starts of two programs differ if the numbers of the
/// processes do.
pub proof fn law_started_told_apart(
    order: ByteOrder,
    pid1: u32,
    r1: GenericError,
    pid2: u32,
    r2: GenericError,
)
    requires
        call_ensures(RunOp::started, (pid1, order), r1),
        call_ensures(RunOp::started, (pid2, order), r2),
        r1@ == r2@,
    ensures
        pid1 == pid2,
{
    law_started_told(pid1, order, r1);
    law_started_told(pid2, order, r2);
}

/// A write that was tried is answered without attributes, as a success if and
/// only if it was one, and as a failure otherwise.
pub proof fn law_write_answered(ok: bool, r: GenericError)
    requires
        call_ensures(WriteOp::finished, (ok,), r),
    ensures
        r@ == written(ok),
        r@.attrs.len() == 0,
        r@.result is Success <==> ok,
        r@.result is Failed <==> !ok,
{
}

/// A request starts empty, as what its number says: 1 a start, 2 a write, and
/// anything else unknown.
pub proof fn law_request_begun(code: u16, r: Op)
    requires
        code != 3,
        call_ensures(Op::start, (code,), r),
    ensures
        code == 1 <==> r.request() is Run,
        code == 2 <==> r.request() is Write,
        r.request() matches Request::Run(words) ==> words.len() == 0,
        r.request() matches Request::Write(target, buf) ==> target is None && buf.len() == 0,
{
}

/// What a request stands for is what it has gathered, word for word and byte
/// for byte.
pub proof fn law_gathered_as_is(run: RunOp, write: WriteOp, none: NoOp)
    ensures
        run.request() matches Request::Run(words) && words.len() == run.args@.len() && forall|i: int|
            0 <= i < words.len() ==> #[trigger] words[i] == run.args@[i]@,
        write.request() matches Request::Write(target, buf) && target == write.target && buf
            == write.buf@,
        none.request() is Unknown,
        Op::Run(run).request() == run.request(),
        Op::Write(write).request() == write.request(),
        Op::Unknown(none).request() is Unknown,
{
}

/// A start keeps the body of every attribute, of the length that its header
/// says.
pub proof fn law_run_plan(op: RunOp, attr: AttrName, len: u16, r: BodyPlan)
    requires
        call_ensures(RunOp::plan_attr, (&op, attr, len), r),
    ensures
        r matches BodyPlan::Read(n) && n == len,
{
}

/// A write keeps four bytes of the number of a process whatever the header
/// says, as many bytes of data as it says, and nothing of any other attribute.
pub proof fn law_write_plan(op: WriteOp, attr: AttrName, len: u16, r: BodyPlan)
    requires
        call_ensures(WriteOp::plan_attr, (&op, attr, len), r),
    ensures
        r matches BodyPlan::Read(n) && {
            &&& attr is Pid ==> n == 4
            &&& attr is Data ==> n == len
            &&& !(attr is Pid || attr is Data) ==> n == 0
        },
{
}

/// An unknown request drops the body of every attribute, of the length that
/// its header says.
pub proof fn law_unknown_plan(op: NoOp, attr: AttrName, len: u16, r: BodyPlan)
    requires
        call_ensures(NoOp::plan_attr, (&op, attr, len), r),
    ensures
        r matches BodyPlan::Discard(n) && n == len,
{
}

/// An attribute of a start, whatever its name, is its next word, and the words
/// before it stay as they are.
pub proof fn law_run_attr(attr: AttrName, body: &[u8])
    ensures
        forall|op: &mut RunOp|
            #[trigger] call_ensures(RunOp::set_attr, (op, attr, body), ()) ==> {
                &&& final(op).args@.len() == op.args@.len() + 1
                &&& final(op).args@[op.args@.len() as int]@ == text_of(body@)
                &&& forall|i: int|
                    0 <= i < op.args@.len() ==> (#[trigger] final(op).args@[i])@ == op.args@[i]@
            },
{
    assert forall|op: &mut RunOp|
        #[trigger] call_ensures(RunOp::set_attr, (op, attr, body), ()) implies {
        &&& final(op).args@.len() == op.args@.len() + 1
        &&& final(op).args@[op.args@.len() as int]@ == text_of(body@)
        &&& forall|i: int|
            0 <= i < op.args@.len() ==> (#[trigger] final(op).args@[i])@ == op.args@[i]@
    } by {
        let before = texts(op.args@);
        let now = texts(final(op).args@);
        assert(now == before.push(text_of(body@)));
        assert(now.len() == final(op).args@.len());
        assert(now[before.len() as int] == final(op).args@[before.len() as int]@);
        assert forall|i: int| 0 <= i < op.args@.len() implies (#[trigger] final(op).args@[i])@
            == op.args@[i]@ by {
            assert(now[i] == final(op).args@[i]@);
            assert(before[i] == op.args@[i]@);
        }
    }
}

/// The number of a process sets the target of a write and leaves its data; data
/// set the data and leave the target; any other attribute leaves both. The
/// number goes most significant byte first.
pub proof fn law_write_attr(attr: AttrName, body: &[u8])
    requires
        attr is Pid ==> body@.len() == 4,
    ensures
        forall|op: &mut WriteOp|
            #[trigger] call_ensures(WriteOp::set_attr, (op, attr, body), ()) ==> {
                &&& attr is Data ==> final(op).buf@ == body@
                &&& !(attr is Data) ==> final(op).buf@ == op.buf@
                &&& attr is Pid ==> (final(op).target matches Some(StreamTarget::PidStream(pid))
                    && pid == 16777216 * body@[0] + 65536 * body@[1] + 256 * body@[2] + body@[3])
                &&& !(attr is Pid) ==> final(op).target == op.target
            },
{
    if attr is Pid {
        law_u32_weights(ByteOrder::Big, 0, body@);
    }
}

/// A start without words is refused, and says that it has no arguments. Any
/// other asks for its first word to be started with the others as they come.
pub proof fn law_run_decided<P>(op: RunOp, state: State<P>, order: ByteOrder, r: Reaction)
    requires
        call_ensures(RunOp::update_state::<P>, (op, &state, order), r),
    ensures
        op.args@.len() == 0 ==> (r matches Reaction::Reply(m) && {
            &&& m@.result is InvalidState
            &&& m@.attrs.len() == 1
            &&& m@.attrs[0].name == 2
            &&& valid_utf8(m@.attrs[0].data)
            &&& decode_utf8(m@.attrs[0].data) == "No arguments given"@
        }),
        op.args@.len() > 0 ==> (r matches Reaction::Spawn(program, args) && {
            &&& program@ == op.args@[0]@
            &&& args@.len() == op.args@.len() - 1
            &&& forall|i: int| 0 <= i < args@.len() ==> (#[trigger] args@[i])@ == op.args@[i + 1]@
        }),
{
    law_refusal("No arguments given"@);
    if let Reaction::Spawn(program, args) = r {
        let words = texts(op.args@);
        assert(words[0] == op.args@[0]@);
        assert(texts(args@) == words.drop_first());
        assert(texts(args@).len() == args@.len());
        assert forall|i: int| 0 <= i < args@.len() implies (#[trigger] args@[i])@ == op.args@[i
            + 1]@ by {
            assert(texts(args@)[i] == args@[i]@);
            assert(words[i + 1] == op.args@[i + 1]@);
        }
    }
}

/// A write without a target is refused, and says that it has none. One to a
/// process that is known asks for all of its data to be written to that
/// process; one to any other is answered that the process is not found, with
/// its number.
pub proof fn law_write_decided<P>(op: WriteOp, state: State<P>, order: ByteOrder, r: Reaction)
    requires
        call_ensures(WriteOp::update_state::<P>, (op, &state, order), r),
    ensures
        op.target is None ==> (r matches Reaction::Reply(m) && {
            &&& m@.result is InvalidState
            &&& m@.attrs.len() == 1
            &&& m@.attrs[0].name == 2
            &&& valid_utf8(m@.attrs[0].data)
            &&& decode_utf8(m@.attrs[0].data) == "No write target"@
        }),
        op.target matches Some(StreamTarget::PidStream(pid)) ==> {
            &&& state@.contains_key(pid) ==> (r matches Reaction::Feed(to, data) && to == pid
                && data@ == op.buf@)
            &&& !state@.contains_key(pid) ==> (r matches Reaction::Reply(m) && {
                let b = m@.attrs[0].data;
                &&& m@.result is NotFound
                &&& m@.attrs.len() == 1
                &&& m@.attrs[0].name == 3
                &&& b.len() == 4
                &&& order is Little ==> b[0] + 256 * b[1] + 65536 * b[2] + 16777216 * b[3] == pid
                &&& order is Big ==> 16777216 * b[0] + 65536 * b[1] + 256 * b[2] + b[3] == pid
            })
        },
{
    law_refusal("No write target"@);
    if let Some(StreamTarget::PidStream(pid)) = op.target {
        law_about_a_process(order, ResultCode::NotFound, pid);
    }
}

/// An unknown request is answered so, and with nothing more.
pub proof fn law_unknown_decided<P>(op: NoOp, state: State<P>, order: ByteOrder, r: Reaction)
    requires
        call_ensures(NoOp::update_state::<P>, (op, &state, order), r),
    ensures
        r matches Reaction::Reply(m) && m@.result is UnknownOp && m@.attrs.len() == 0,
{
}

/// What a request calls for, whichever kind it is of, is told by its words, or
/// by its target and data, in the same way.
pub proof fn law_decided(order: ByteOrder, request: Request, known: Set<u32>)
    ensures
        request matches Request::Run(words) ==> if words.len() > 0 {
            decide(order, request, known) matches Decision::Spawn(program, args) && program
                == words[0] && args.len() == words.len() - 1 && forall|i: int|
                0 <= i < args.len() ==> #[trigger] args[i] == words[i + 1]
        } else {
            decide(order, request, known) matches Decision::Reply(m) && m == invalid(
                "No arguments given"@,
            )
        },
        request matches Request::Write(target, buf) ==> match target {
            None => decide(order, request, known) matches Decision::Reply(m) && m == invalid(
                "No write target"@,
            ),
            Some(StreamTarget::PidStream(pid)) => {
                &&& known.contains(pid) ==> decide(order, request, known) == Decision::Feed(pid, buf)
                &&& !known.contains(pid) ==> (decide(order, request, known) matches Decision::Reply(
                    m,
                ) && m == about(order, ResultCode::NotFound, pid))
            },
        },
        request is Unknown ==> (decide(order, request, known) matches Decision::Reply(m) && m.result
            is UnknownOp && m.attrs.len() == 0),
{
}

/// A request begins with four bytes, of which the first two are the number of
/// what is asked for and the third is the number of attributes that follow;
/// the fourth means nothing.
pub proof fn law_header_read(order: ByteOrder, s: Seq<u8>, start: Request)
    requires
        s.len() >= 4 ==> {
            let number = if order is Little {
                s[0] + 256 * s[1]
            } else {
                256 * s[0] + s[1]
            };
            &&& number == 1 ==> start == Request::Run(Seq::empty())
            &&& number == 2 ==> start == Request::Write(None, Seq::empty())
            &&& number != 1 && number != 2 ==> start is Unknown
        },
    ensures
        s.len() < 4 ==> parse_request(order, s) is None,
        s.len() >= 4 ==> parse_request(order, s) == parse_attrs(
            order,
            start,
            s[2] as nat,
            s.skip(4),
        ),
{
    if s.len() >= 4 {
        let h = s.take(4);
        law_command_layout(order, Command { op: 0, num_attrs: 0, padding: 0 }, h);
        assert(h[0] == s[0] && h[1] == s[1] && h[2] == s[2]);
    }
}

/// An attribute begins with four bytes, of which the first two are the number
/// of its name and the others the length of its body. So many bytes of body
/// follow, but for a write, for which it is four after the number of a process
/// and none after a word or a text. `next` is the request with the attribute: a
/// name other than 1 to 4 changes nothing, a start gets one more word, and a
/// write gets its target from a 3 and its data from a 4.
pub proof fn law_attr_read_in_request(
    order: ByteOrder,
    request: Request,
    n: nat,
    s: Seq<u8>,
    next: Request,
)
    requires
        n > 0,
        s.len() >= 4,
    ensures
        ({
            let (code, len) = if order is Little {
                (s[0] + 256 * s[1], s[2] + 256 * s[3])
            } else {
                (256 * s[0] + s[1], 256 * s[2] + s[3])
            };
            let size = if request is Write && code == 3 {
                4
            } else if request is Write && (code == 1 || code == 2) {
                0
            } else {
                len
            };
            let b = s.subrange(4, 4 + size);
            let is_next = if !(1 <= code <= 4) {
                next == request
            } else {
                match request {
                    Request::Run(words) => next == Request::Run(words.push(text_of(b))),
                    Request::Write(target, buf) => if code == 4 {
                        next == Request::Write(target, b)
                    } else if code == 3 {
                        next matches Request::Write(Some(StreamTarget::PidStream(pid)), data) && data
                            == buf && pid == 16777216 * b[0] + 65536 * b[1] + 256 * b[2] + b[3]
                    } else {
                        next == request
                    },
                    Request::Unknown => next is Unknown,
                }
            };
            if s.len() < 4 + size {
                parse_attrs(order, request, n, s) is None
            } else {
                is_next ==> parse_attrs(order, request, n, s) == parse_attrs(
                    order,
                    next,
                    (n - 1) as nat,
                    s.skip(4 + size),
                )
            }
        }),
        parse_attrs(order, request, 0, s) == Some((request, s)),
{
    let h = s.take(4);
    law_attr_layout(order, Attr { attr: 0, len: 0 }, h);
    assert(h[0] == s[0] && h[1] == s[1] && h[2] == s[2] && h[3] == s[3]);
    if s.len() >= 8 {
        law_u32_weights(ByteOrder::Big, 0, s.subrange(4, 8));
    }
}

} // verus!
