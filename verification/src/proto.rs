//! The numbers and the two headers of the protocol.
//!
//! A peer's request and the server's message have one shape: a `Command`
//! header, then as many attributes as it counts, each an `Attr` header and a
//! body.

use crate::order::{law_u16_round_trip, law_u16_weights, ByteOrder};
use vstd::prelude::*;
use vstd::slice::slice_subrange;

verus! {

/// How many bytes a `Command` takes up.
pub const COMMAND_LEN: usize = 4;

/// How many bytes an `Attr` takes up.
pub const ATTR_LEN: usize = 4;

/// What a peer asks for.
#[derive(Debug, Clone, Copy, PartialEq, Eq, Structural)]
pub enum Opcode {
    /// Start a program.
    Run,
    /// Write to the standard input of a program.
    Write,
    /// Close the standard input of a program.
    Close,
}

impl Opcode {
    /// The number that stands for this operation.
    pub open spec fn spec_code(self) -> u16 {
        match self {
            Opcode::Run => 1,
            Opcode::Write => 2,
            Opcode::Close => 3,
        }
    }

    /// The operation that `value` stands for, or `value` itself.
    pub open spec fn of_code(value: u16) -> Result<Opcode, u16> {
        if value == 1 {
            Ok(Opcode::Run)
        } else if value == 2 {
            Ok(Opcode::Write)
        } else if value == 3 {
            Ok(Opcode::Close)
        } else {
            Err(value)
        }
    }
}

impl TryFrom<u16> for Opcode {
    type Error = u16;

    fn try_from(value: u16) -> (r: Result<Self, u16>) {
        match value {
            1 => Ok(Opcode::Run),
            2 => Ok(Opcode::Write),
            3 => Ok(Opcode::Close),
            _ => Err(value),
        }
    }
}

impl vstd::std_specs::convert::TryFromSpecImpl<u16> for Opcode {
    open spec fn obeys_try_from_spec() -> bool {
        true
    }

    open spec fn try_from_spec(value: u16) -> Result<Self, u16> {
        Opcode::of_code(value)
    }
}

/// What the server tells a peer.
#[derive(Debug, Clone, Copy, PartialEq, Eq, Structural)]
pub enum ResultCode {
    /// The request was carried out.
    Success,
    /// The request lacks something that it needs.
    InvalidState,
    /// The request names a process that is not known.
    NotFound,
    /// The target has been closed.
    Closed,
    /// The request was tried and failed.
    Failed,
    /// The operation is not known.
    UnknownOp,
    /// A process has printed something.
    Output,
    /// A process has ended.
    Sigchild,
    /// A process has closed one of its outputs.
    Close,
}

impl ResultCode {
    /// The number that stands for this result.
    pub open spec fn spec_code(self) -> u16 {
        match self {
            ResultCode::Success => 1,
            ResultCode::InvalidState => 2,
            ResultCode::NotFound => 3,
            ResultCode::Closed => 4,
            ResultCode::Failed => 5,
            ResultCode::UnknownOp => 6,
            ResultCode::Output => 7,
            ResultCode::Sigchild => 8,
            ResultCode::Close => 9,
        }
    }

    /// The number that stands for this result.
    pub fn code(self) -> (r: u16)
        ensures
            r == self.spec_code(),
    {
        match self {
            ResultCode::Success => 1,
            ResultCode::InvalidState => 2,
            ResultCode::NotFound => 3,
            ResultCode::Closed => 4,
            ResultCode::Failed => 5,
            ResultCode::UnknownOp => 6,
            ResultCode::Output => 7,
            ResultCode::Sigchild => 8,
            ResultCode::Close => 9,
        }
    }
}

/// What an attribute is about.
#[derive(Debug, Clone, Copy, PartialEq, Eq, Structural)]
pub enum AttrName {
    /// A word of a command line.
    Command,
    /// A text for a reader.
    Message,
    /// The number of a process.
    Pid,
    /// Bytes that go into, or came out of, a process.
    Data,
    /// The output in question is standard error.
    Stderr,
    /// What a process ended with.
    ExitCode,
}

impl AttrName {
    /// The number that stands for this name.
    pub open spec fn spec_code(self) -> u16 {
        match self {
            AttrName::Command => 1,
            AttrName::Message => 2,
            AttrName::Pid => 3,
            AttrName::Data => 4,
            AttrName::Stderr => 5,
            AttrName::ExitCode => 6,
        }
    }

    /// The number that stands for this name.
    pub fn code(self) -> (r: u16)
        ensures
            r == self.spec_code(),
    {
        match self {
            AttrName::Command => 1,
            AttrName::Message => 2,
            AttrName::Pid => 3,
            AttrName::Data => 4,
            AttrName::Stderr => 5,
            AttrName::ExitCode => 6,
        }
    }

    /// The name that `value` stands for in a request. The names that only the
    /// server uses are not among them.
    pub open spec fn of_code(value: u16) -> Result<AttrName, ()> {
        if value == 1 {
            Ok(AttrName::Command)
        } else if value == 2 {
            Ok(AttrName::Message)
        } else if value == 3 {
            Ok(AttrName::Pid)
        } else if value == 4 {
            Ok(AttrName::Data)
        } else {
            Err(())
        }
    }
}

impl TryFrom<u16> for AttrName {
    type Error = ();

    fn try_from(value: u16) -> (r: Result<Self, ()>) {
        match value {
            1 => Ok(AttrName::Command),
            2 => Ok(AttrName::Message),
            3 => Ok(AttrName::Pid),
            4 => Ok(AttrName::Data),
            _ => Err(()),
        }
    }
}

impl vstd::std_specs::convert::TryFromSpecImpl<u16> for AttrName {
    open spec fn obeys_try_from_spec() -> bool {
        true
    }

    open spec fn try_from_spec(value: u16) -> Result<Self, ()> {
        AttrName::of_code(value)
    }
}

/// The header of a request or of a message.
#[derive(Debug, Clone, Copy, PartialEq, Eq, Structural)]
pub struct Command {
    /// The number of the operation or of the result.
    pub op: u16,
    /// How many attributes follow.
    pub num_attrs: u8,
    /// Fills the header up to its length.
    pub padding: u8,
}

impl Command {
    /// The bytes of this header.
    pub open spec fn bytes(self, order: ByteOrder) -> Seq<u8> {
        order.u16_bytes(self.op) + seq![self.num_attrs, self.padding]
    }

    /// The header that the four bytes `s` stand for.
    pub open spec fn parse(order: ByteOrder, s: Seq<u8>) -> Command {
        Command { op: order.u16_value(s.take(2)), num_attrs: s[2], padding: s[3] }
    }

    /// Lays the header out.
    pub fn as_bytes(&self, order: ByteOrder) -> (r: Vec<u8>)
        ensures
            r@ == self.bytes(order),
    {
        let mut r = order.put_u16(self.op);
        r.push(self.num_attrs);
        r.push(self.padding);
        assert(r@ =~= self.bytes(order));
        r
    }

    /// Reads a header out of exactly as many bytes as it has.
    pub fn read_from_bytes(order: ByteOrder, bytes: &[u8]) -> (r: Option<Command>)
        ensures
            r == (if bytes@.len() == COMMAND_LEN {
                Some(Command::parse(order, bytes@))
            } else {
                None
            }),
    {
        if bytes.len() != COMMAND_LEN {
            return None;
        }
        assert(bytes@.subrange(0, 2) =~= bytes@.take(2));
        match order.get_u16(slice_subrange(bytes, 0, 2)) {
            Some(op) => Some(Command { op, num_attrs: bytes[2], padding: bytes[3] }),
            None => None,
        }
    }
}

/// The header of an attribute.
#[derive(Debug, Clone, Copy, PartialEq, Eq, Structural)]
pub struct Attr {
    /// The number of the attribute's name.
    pub attr: u16,
    /// How many bytes the body has.
    pub len: u16,
}

impl Attr {
    /// The bytes of this header.
    pub open spec fn bytes(self, order: ByteOrder) -> Seq<u8> {
        order.u16_bytes(self.attr) + order.u16_bytes(self.len)
    }

    /// The header that the four bytes `s` stand for.
    pub open spec fn parse(order: ByteOrder, s: Seq<u8>) -> Attr {
        Attr { attr: order.u16_value(s.take(2)), len: order.u16_value(s.skip(2)) }
    }

    /// Lays the header out.
    pub fn as_bytes(&self, order: ByteOrder) -> (r: Vec<u8>)
        ensures
            r@ == self.bytes(order),
    {
        let mut r = order.put_u16(self.attr);
        let mut len = order.put_u16(self.len);
        r.append(&mut len);
        r
    }

    /// Reads a header out of exactly as many bytes as it has.
    pub fn read_from_bytes(order: ByteOrder, bytes: &[u8]) -> (r: Option<Attr>)
        ensures
            r == (if bytes@.len() == ATTR_LEN {
                Some(Attr::parse(order, bytes@))
            } else {
                None
            }),
    {
        if bytes.len() != ATTR_LEN {
            return None;
        }
        assert(bytes@.subrange(0, 2) =~= bytes@.take(2));
        assert(bytes@.subrange(2, 4) =~= bytes@.skip(2));
        let attr = order.get_u16(slice_subrange(bytes, 0, 2));
        let len = order.get_u16(slice_subrange(bytes, 2, 4));
        match (attr, len) {
            (Some(attr), Some(len)) => Some(Attr { attr, len }),
            _ => None,
        }
    }
}

/// An operation is read back from its number, and a number that stands for an
/// operation is that operation's.
pub proof fn law_opcode_round_trip(op: Opcode, value: u16)
    ensures
        Opcode::of_code(op.spec_code()) == Ok::<Opcode, u16>(op),
        Opcode::of_code(value) matches Ok(read) ==> read.spec_code() == value,
        Opcode::of_code(value) matches Err(kept) ==> kept == value,
{
}

/// A name that a request may use is read back from its number; the two names
/// that only the server uses are not.
pub proof fn law_attr_name_round_trip(name: AttrName, value: u16)
    ensures
        AttrName::of_code(name.spec_code()) == (if name is Stderr || name is ExitCode {
            Err::<AttrName, ()>(())
        } else {
            Ok(name)
        }),
        AttrName::of_code(value) matches Ok(read) ==> read.spec_code() == value,
{
}

/// No two results, and no two names, share a number.
pub proof fn law_codes_distinct(r1: ResultCode, r2: ResultCode, n1: AttrName, n2: AttrName)
    ensures
        r1.spec_code() == r2.spec_code() ==> r1 == r2,
        n1.spec_code() == n2.spec_code() ==> n1 == n2,
{
}

/// A command header is read back from its bytes, and its bytes are those it
/// was read from.
pub proof fn law_command_round_trip(order: ByteOrder, c: Command, s: Seq<u8>)
    ensures
        c.bytes(order).len() == COMMAND_LEN,
        Command::parse(order, c.bytes(order)) == c,
        s.len() == COMMAND_LEN ==> Command::parse(order, s).bytes(order) == s,
{
    law_u16_round_trip(order, c.op, s.take(2));
    assert(c.bytes(order).take(2) =~= order.u16_bytes(c.op));
    if s.len() == COMMAND_LEN {
        assert(Command::parse(order, s).bytes(order) =~= s);
    }
}

/// An attribute header is read back from its bytes, and its bytes are those it
/// was read from.
pub proof fn law_attr_round_trip(order: ByteOrder, a: Attr, s: Seq<u8>)
    ensures
        a.bytes(order).len() == ATTR_LEN,
        Attr::parse(order, a.bytes(order)) == a,
        s.len() == ATTR_LEN ==> Attr::parse(order, s).bytes(order) == s,
{
    law_u16_round_trip(order, a.attr, s.take(2));
    law_u16_round_trip(order, a.len, s.skip(2));
    assert(a.bytes(order).take(2) =~= order.u16_bytes(a.attr));
    assert(a.bytes(order).skip(2) =~= order.u16_bytes(a.len));
    if s.len() == ATTR_LEN {
        assert(Attr::parse(order, s).bytes(order) =~= s);
    }
}

/// The numbers of the operations: 1 starts a program, 2 writes to one, 3
/// closes its input, and no other number means anything.
pub proof fn law_opcode_numbers(value: u16, r: Result<Opcode, u16>)
    requires
        call_ensures(Opcode::try_from, (value,), r),
    ensures
        r == Ok::<Opcode, u16>(Opcode::Run) <==> value == 1,
        r == Ok::<Opcode, u16>(Opcode::Write) <==> value == 2,
        r == Ok::<Opcode, u16>(Opcode::Close) <==> value == 3,
        r is Err ==> r == Err::<Opcode, u16>(value),
{
}

/// The numbers of the operations, as they are spoken of.
pub proof fn law_opcode_meaning(value: u16, op: Opcode)
    ensures
        Opcode::of_code(value) == Ok::<Opcode, u16>(Opcode::Run) <==> value == 1,
        Opcode::of_code(value) == Ok::<Opcode, u16>(Opcode::Write) <==> value == 2,
        Opcode::of_code(value) == Ok::<Opcode, u16>(Opcode::Close) <==> value == 3,
        op is Run <==> op.spec_code() == 1,
        op is Write <==> op.spec_code() == 2,
        op is Close <==> op.spec_code() == 3,
{
}

/// The numbers of the results: each has its place in the list, from 1 on.
pub proof fn law_result_numbers(result: ResultCode, r: u16)
    requires
        call_ensures(ResultCode::code, (result,), r),
    ensures
        r == result.spec_code(),
        1 <= r <= 9,
        result is Success <==> r == 1,
        result is InvalidState <==> r == 2,
        result is NotFound <==> r == 3,
        result is Closed <==> r == 4,
        result is Failed <==> r == 5,
        result is UnknownOp <==> r == 6,
        result is Output <==> r == 7,
        result is Sigchild <==> r == 8,
        result is Close <==> r == 9,
{
}

/// The numbers of the names: each has its place in the list, from 1 on.
pub proof fn law_name_numbers(name: AttrName, r: u16)
    requires
        call_ensures(AttrName::code, (name,), r),
    ensures
        r == name.spec_code(),
        1 <= r <= 6,
        name is Command <==> r == 1,
        name is Message <==> r == 2,
        name is Pid <==> r == 3,
        name is Data <==> r == 4,
        name is Stderr <==> r == 5,
        name is ExitCode <==> r == 6,
{
}

/// The names that a request can use: the first four, by their numbers, and no
/// others.
pub proof fn law_name_numbers_in_request(value: u16, r: Result<AttrName, ()>)
    requires
        call_ensures(AttrName::try_from, (value,), r),
    ensures
        r == AttrName::of_code(value),
        r == Ok::<AttrName, ()>(AttrName::Command) <==> value == 1,
        r == Ok::<AttrName, ()>(AttrName::Message) <==> value == 2,
        r == Ok::<AttrName, ()>(AttrName::Pid) <==> value == 3,
        r == Ok::<AttrName, ()>(AttrName::Data) <==> value == 4,
        r is Ok <==> 1 <= value <= 4,
{
}

/// The layout of a command header: the number by the weights of its two bytes,
/// then the count as it is, then the padding as it is.
pub proof fn law_command_layout(order: ByteOrder, c: Command, s: Seq<u8>)
    ensures
        c.bytes(order).len() == 4,
        order is Little ==> c.bytes(order)[0] + 256 * c.bytes(order)[1] == c.op,
        order is Big ==> 256 * c.bytes(order)[0] + c.bytes(order)[1] == c.op,
        c.bytes(order)[2] == c.num_attrs,
        c.bytes(order)[3] == c.padding,
        s.len() == 4 ==> {
            let read = Command::parse(order, s);
            &&& order is Little ==> read.op == s[0] + 256 * s[1]
            &&& order is Big ==> read.op == 256 * s[0] + s[1]
            &&& read.num_attrs == s[2]
            &&& read.padding == s[3]
        },
{
    law_u16_weights(order, c.op, s.take(2));
}

/// What `as_bytes` gives of a command header has that layout.
pub proof fn law_command_as_bytes(c: Command, order: ByteOrder, r: Vec<u8>)
    requires
        call_ensures(Command::as_bytes, (&c, order), r),
    ensures
        r@.len() == 4,
        order is Little ==> r@[0] + 256 * r@[1] == c.op,
        order is Big ==> 256 * r@[0] + r@[1] == c.op,
        r@[2] == c.num_attrs,
        r@[3] == c.padding,
{
    law_command_layout(order, c, r@);
}

/// A command header is read out of four bytes and no other number of them: the
/// count is the third byte and the padding the fourth.
pub proof fn law_command_read(order: ByteOrder, bytes: &[u8], r: Option<Command>)
    requires
        call_ensures(Command::read_from_bytes, (order, bytes), r),
    ensures
        r is Some <==> bytes@.len() == 4,
        r matches Some(c) ==> {
            &&& order is Little ==> c.op == bytes@[0] + 256 * bytes@[1]
            &&& order is Big ==> c.op == 256 * bytes@[0] + bytes@[1]
            &&& c.num_attrs == bytes@[2]
            &&& c.padding == bytes@[3]
        },
{
    if let Some(c) = r {
        law_command_layout(order, c, bytes@);
    }
}

/// The layout of an attribute header: the number of the name by the weights of
/// its two bytes, then the length in the same way.
pub proof fn law_attr_layout(order: ByteOrder, a: Attr, s: Seq<u8>)
    ensures
        ({
            let b = a.bytes(order);
            &&& b.len() == 4
            &&& order is Little ==> b[0] + 256 * b[1] == a.attr && b[2] + 256 * b[3] == a.len
            &&& order is Big ==> 256 * b[0] + b[1] == a.attr && 256 * b[2] + b[3] == a.len
        }),
        s.len() == 4 ==> {
            let read = Attr::parse(order, s);
            &&& order is Little ==> read.attr == s[0] + 256 * s[1] && read.len == s[2] + 256 * s[3]
            &&& order is Big ==> read.attr == 256 * s[0] + s[1] && read.len == 256 * s[2] + s[3]
        },
{
    law_u16_weights(order, a.attr, s.take(2));
    law_u16_weights(order, a.len, s.skip(2));
}

/// What `as_bytes` gives of an attribute header has that layout.
pub proof fn law_attr_as_bytes(a: Attr, order: ByteOrder, r: Vec<u8>)
    requires
        call_ensures(Attr::as_bytes, (&a, order), r),
    ensures
        r@.len() == 4,
        order is Little ==> r@[0] + 256 * r@[1] == a.attr && r@[2] + 256 * r@[3] == a.len,
        order is Big ==> 256 * r@[0] + r@[1] == a.attr && 256 * r@[2] + r@[3] == a.len,
{
    law_attr_layout(order, a, r@);
}

/// An attribute header is read out of four bytes and no other number of them,
/// two for the name and two for the length.
pub proof fn law_attr_read(order: ByteOrder, bytes: &[u8], r: Option<Attr>)
    requires
        call_ensures(Attr::read_from_bytes, (order, bytes), r),
    ensures
        r is Some <==> bytes@.len() == 4,
        r matches Some(a) ==> {
            &&& order is Little ==> a.attr == bytes@[0] + 256 * bytes@[1] && a.len == bytes@[2] + 256
                * bytes@[3]
            &&& order is Big ==> a.attr == 256 * bytes@[0] + bytes@[1] && a.len == 256 * bytes@[2]
                + bytes@[3]
        },
{
    if let Some(a) = r {
        law_attr_layout(order, a, bytes@);
    }
}

} // verus!
