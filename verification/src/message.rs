//! What the server sends, and how it is put into bytes.

use crate::order::{i32_bits, law_bits_of_signed, law_u32_weights, ByteOrder};
use crate::proto::{
    law_attr_layout, law_attr_round_trip, law_command_layout, law_command_round_trip, Attr,
    AttrName, Command, ResultCode, ATTR_LEN, COMMAND_LEN,
};
use vstd::prelude::*;
use vstd::slice::slice_to_vec;
use vstd::utf8::{
    decode_utf8, encode_utf8, encode_utf8_decode_utf8, encode_utf8_valid_utf8, valid_utf8,
};

verus! {

/// A value that can be the body of an attribute.
pub trait ToAttr {
    /// The body that stands for this value.
    spec fn attr_bytes(&self, order: ByteOrder) -> Seq<u8>;

    /// Makes the body that stands for this value.
    fn encode_attr(&self, order: ByteOrder) -> (r: Vec<u8>)
        ensures
            r@ == self.attr_bytes(order),
    ;
}

/// The value of an attribute that says all by being there.
#[derive(Debug, Clone, Copy, PartialEq, Eq, Structural)]
pub struct Empty {}

impl ToAttr for Empty {
    open spec fn attr_bytes(&self, order: ByteOrder) -> Seq<u8> {
        Seq::empty()
    }

    fn encode_attr(&self, order: ByteOrder) -> (r: Vec<u8>) {
        Vec::new()
    }
}

impl ToAttr for i32 {
    open spec fn attr_bytes(&self, order: ByteOrder) -> Seq<u8> {
        order.u32_bytes(i32_bits(*self))
    }

    fn encode_attr(&self, order: ByteOrder) -> (r: Vec<u8>) {
        order.put_i32(*self)
    }
}

impl ToAttr for u32 {
    open spec fn attr_bytes(&self, order: ByteOrder) -> Seq<u8> {
        order.u32_bytes(*self)
    }

    fn encode_attr(&self, order: ByteOrder) -> (r: Vec<u8>) {
        order.put_u32(*self)
    }
}

impl ToAttr for &str {
    open spec fn attr_bytes(&self, order: ByteOrder) -> Seq<u8> {
        encode_utf8(self@)
    }

    fn encode_attr(&self, order: ByteOrder) -> (r: Vec<u8>) {
        slice_to_vec(self.as_bytes())
    }
}

impl ToAttr for String {
    open spec fn attr_bytes(&self, order: ByteOrder) -> Seq<u8> {
        encode_utf8(self@)
    }

    fn encode_attr(&self, order: ByteOrder) -> (r: Vec<u8>) {
        slice_to_vec(self.as_str().as_bytes())
    }
}

impl ToAttr for [u8] {
    open spec fn attr_bytes(&self, order: ByteOrder) -> Seq<u8> {
        self@
    }

    fn encode_attr(&self, order: ByteOrder) -> (r: Vec<u8>) {
        slice_to_vec(self)
    }
}

/// An attribute: the number of its name, and its body.
#[verifier::ext_equal]
pub struct Field {
    pub name: u16,
    pub data: Seq<u8>,
}

impl Field {
    /// The header that goes before the body. It has sixteen bits for the
    /// length and keeps the lowest ones of a longer body's.
    pub open spec fn header(self) -> Attr {
        Attr { attr: self.name, len: (self.data.len() % 0x1_0000) as u16 }
    }

    /// The bytes of the attribute.
    pub open spec fn wire(self, order: ByteOrder) -> Seq<u8> {
        self.header().bytes(order) + self.data
    }
}

/// The attribute `name` with the body `data`.
pub open spec fn field(name: AttrName, data: Seq<u8>) -> Field {
    Field { name: name.spec_code(), data }
}

/// The bytes of `fields`, one after the other.
pub open spec fn fields_wire(order: ByteOrder, fields: Seq<Field>) -> Seq<u8>
    decreases fields.len(),
{
    if fields.len() == 0 {
        Seq::empty()
    } else {
        fields[0].wire(order) + fields_wire(order, fields.drop_first())
    }
}

/// The bytes of a header with `op` and `padding`, and of `fields`. The header has
/// eight bits for their count and keeps the lowest ones of a larger count.
pub open spec fn frame(order: ByteOrder, op: u16, padding: u8, fields: Seq<Field>) -> Seq<u8> {
    Command { op, num_attrs: (fields.len() % 0x100) as u8, padding }.bytes(order) + fields_wire(
        order,
        fields,
    )
}

/// The header has room for the count of `fields`, and each of theirs for the
/// length of its body.
pub open spec fn countable(fields: Seq<Field>) -> bool {
    &&& fields.len() < 0x100
    &&& forall|i: int| 0 <= i < fields.len() ==> #[trigger] fields[i].data.len() < 0x1_0000
}

/// The `n` attributes at the start of `s`, and the bytes after them, if they
/// are all there.
pub open spec fn read_fields(order: ByteOrder, n: nat, s: Seq<u8>) -> Option<(Seq<Field>, Seq<u8>)>
    decreases n,
{
    if n == 0 {
        Some((Seq::empty(), s))
    } else if s.len() < ATTR_LEN {
        None
    } else {
        let a = Attr::parse(order, s.take(ATTR_LEN as int));
        let end = ATTR_LEN + a.len;
        if s.len() < end {
            None
        } else {
            let first = Field { name: a.attr, data: s.subrange(ATTR_LEN as int, end) };
            match read_fields(order, (n - 1) as nat, s.skip(end)) {
                Some((others, rest)) => Some((seq![first] + others, rest)),
                None => None,
            }
        }
    }
}

/// The frame at the start of `s`: the number in its header, its attributes,
/// and the bytes after it.
pub open spec fn read_frame(order: ByteOrder, s: Seq<u8>) -> Option<(u16, Seq<Field>, Seq<u8>)> {
    if s.len() < COMMAND_LEN {
        None
    } else {
        let c = Command::parse(order, s.take(COMMAND_LEN as int));
        match read_fields(order, c.num_attrs as nat, s.skip(COMMAND_LEN as int)) {
            Some((fields, rest)) => Some((c.op, fields, rest)),
            None => None,
        }
    }
}

/// What a message says.
#[verifier::ext_equal]
pub struct Message {
    pub result: ResultCode,
    pub attrs: Seq<Field>,
}

impl Message {
    /// The bytes of the message. Its padding is zero.
    pub open spec fn wire(self, order: ByteOrder) -> Seq<u8> {
        frame(order, self.result.spec_code(), 0, self.attrs)
    }

    /// What a reader gets back of the message: the number of its result, and
    /// its attributes.
    pub open spec fn read(self) -> (u16, Seq<Field>) {
        (self.result.spec_code(), self.attrs)
    }
}

/// A message of the server: an answer to a request, or news of a process.
#[derive(Debug, PartialEq, Eq)]
pub struct GenericError {
    result: ResultCode,
    attrs: Vec<(Attr, Vec<u8>)>,
}

impl View for GenericError {
    type V = Message;

    closed spec fn view(&self) -> Message {
        Message { result: self.result, attrs: fields_of(self.attrs@) }
    }
}

spec fn field_of(pair: (Attr, Vec<u8>)) -> Field {
    Field { name: pair.0.attr, data: pair.1@ }
}

spec fn fields_of(attrs: Seq<(Attr, Vec<u8>)>) -> Seq<Field> {
    attrs.map_values(|pair: (Attr, Vec<u8>)| field_of(pair))
}

impl GenericError {
    /// Every attribute has the header that its body asks for.
    #[verifier::type_invariant]
    spec fn wf(self) -> bool {
        forall|i: int|
            0 <= i < self.attrs@.len() ==> (#[trigger] self.attrs@[i]).0 == field_of(
                self.attrs@[i],
            ).header()
    }

    /// A message without attributes.
    pub fn new(result: ResultCode) -> (r: GenericError)
        ensures
            r@ == (Message { result, attrs: Seq::empty() }),
    {
        let r = GenericError { result, attrs: Vec::new() };
        assert(fields_of(r.attrs@) =~= Seq::empty());
        r
    }

    /// The message with one more attribute, after those that it has.
    pub fn attr<T: ToAttr + ?Sized>(self, name: AttrName, val: &T, order: ByteOrder) -> (r:
        GenericError)
        ensures
            r@ == (Message {
                result: self@.result,
                attrs: self@.attrs.push(field(name, val.attr_bytes(order))),
            }),
    {
        proof {
            use_type_invariant(&self);
        }
        let ghost before = self.attrs@;
        let GenericError { result, mut attrs } = self;
        let buf = val.encode_attr(order);
        let attr = Attr { attr: name.code(), len: (buf.len() % 0x1_0000) as u16 };
        attrs.push((attr, buf));
        assert(fields_of(attrs@) =~= fields_of(before).push(field(name, val.attr_bytes(order))));
        GenericError { result, attrs }
    }

    /// Puts the message into the bytes that are sent.
    pub fn to_bytes(&self, order: ByteOrder) -> (r: Vec<u8>)
        ensures
            r@ == self@.wire(order),
    {
        proof {
            use_type_invariant(self);
        }
        let cmd = Command {
            op: self.result.code(),
            num_attrs: (self.attrs.len() % 0x100) as u8,
            padding: 0,
        };
        let mut r = cmd.as_bytes(order);
        let ghost fields = self@.attrs;
        let ghost whole = self@.wire(order);
        assert(fields.skip(0) =~= fields);
        let mut i: usize = 0;
        while i < self.attrs.len()
            invariant
                i <= self.attrs.len(),
                fields == fields_of(self.attrs@),
                self.wf(),
                whole == r@ + fields_wire(order, fields.skip(i as int)),
            decreases self.attrs.len() - i,
        {
            let ghost before = r@;
            let mut head = self.attrs[i].0.as_bytes(order);
            let mut body = slice_to_vec(self.attrs[i].1.as_slice());
            r.append(&mut head);
            r.append(&mut body);
            proof {
                let left = fields.skip(i as int);
                assert(left[0] == field_of(self.attrs@[i as int]));
                assert(left.drop_first() =~= fields.skip(i + 1));
                assert(r@ =~= before + left[0].wire(order));
                assert(before + fields_wire(order, left) =~= r@ + fields_wire(
                    order,
                    fields.skip(i + 1),
                ));
            }
            i += 1;
        }
        assert(fields.skip(i as int).len() == 0);
        assert(r@ =~= r@ + fields_wire(order, fields.skip(i as int)));
        r
    }
}

/// It does not matter which two of three sequences are joined first.
pub proof fn lemma_join(a: Seq<u8>, b: Seq<u8>, c: Seq<u8>)
    ensures
        (a + b) + c == a + (b + c),
{
    assert((a + b) + c =~= a + (b + c));
}

/// An attribute at the start of a stream is found there with its body.
pub proof fn lemma_field_in_front(order: ByteOrder, f: Field, tail: Seq<u8>)
    requires
        f.data.len() < 0x1_0000,
    ensures
        ({
            let s = f.wire(order) + tail;
            let end = ATTR_LEN + f.data.len();
            &&& s.len() == end + tail.len()
            &&& Attr::parse(order, s.take(ATTR_LEN as int)) == f.header()
            &&& f.header().len == f.data.len()
            &&& s.subrange(ATTR_LEN as int, end as int) == f.data
            &&& s.skip(end as int) == tail
        }),
{
    let s = f.wire(order) + tail;
    let end = ATTR_LEN + f.data.len();
    law_attr_round_trip(order, f.header(), f.header().bytes(order));
    assert(s.take(ATTR_LEN as int) =~= f.header().bytes(order));
    assert(s.subrange(ATTR_LEN as int, end as int) =~= f.data);
    assert(s.skip(end as int) =~= tail);
}

/// Attributes are read back from their bytes, and what follows is left.
proof fn lemma_fields_read_back(order: ByteOrder, fields: Seq<Field>, rest: Seq<u8>)
    requires
        forall|i: int| 0 <= i < fields.len() ==> #[trigger] fields[i].data.len() < 0x1_0000,
    ensures
        read_fields(order, fields.len(), fields_wire(order, fields) + rest) == Some((fields, rest)),
    decreases fields.len(),
{
    let s = fields_wire(order, fields) + rest;
    if fields.len() == 0 {
        assert(s =~= rest);
        assert(fields =~= Seq::empty());
    } else {
        let first = fields[0];
        let others = fields.drop_first();
        let tail = fields_wire(order, others) + rest;
        lemma_field_in_front(order, first, tail);
        lemma_fields_read_back(order, others, rest);
        assert(s == first.wire(order) + tail) by {
            lemma_join(first.wire(order), fields_wire(order, others), rest);
        }
        let a = Attr::parse(order, s.take(ATTR_LEN as int));
        assert(a.attr == first.name && a.len == first.data.len());
        assert(seq![first] + others =~= fields);
    }
}

/// A frame is read back from its bytes, and what follows is left, as long as
/// its counts fit their fields in the headers.
pub proof fn law_frame_read_back(
    order: ByteOrder,
    op: u16,
    padding: u8,
    fields: Seq<Field>,
    rest: Seq<u8>,
)
    requires
        countable(fields),
    ensures
        read_frame(order, frame(order, op, padding, fields) + rest) == Some((op, fields, rest)),
{
    let c = Command { op, num_attrs: (fields.len() % 0x100) as u8, padding };
    let s = frame(order, op, padding, fields) + rest;
    law_command_round_trip(order, c, c.bytes(order));
    assert(s.take(COMMAND_LEN as int) =~= c.bytes(order));
    assert(s.skip(COMMAND_LEN as int) =~= fields_wire(order, fields) + rest);
    lemma_fields_read_back(order, fields, rest);
}

/// A reader of the stream of messages gets back each message, its result and
/// its attributes in their order, and finds the next one right behind it.
pub proof fn law_message_read_back(order: ByteOrder, m: Message, rest: Seq<u8>)
    requires
        countable(m.attrs),
    ensures
        read_frame(order, m.wire(order) + rest) == Some((m.result.spec_code(), m.attrs, rest)),
{
    law_frame_read_back(order, m.result.spec_code(), 0, m.attrs, rest);
}

/// The bytes of `messages`, one after the other.
pub open spec fn messages_wire(order: ByteOrder, messages: Seq<Message>) -> Seq<u8>
    decreases messages.len(),
{
    if messages.len() == 0 {
        Seq::empty()
    } else {
        messages[0].wire(order) + messages_wire(order, messages.drop_first())
    }
}

/// The `n` frames at the start of `s`, and the bytes after them, if they are
/// all there.
pub open spec fn read_frames(order: ByteOrder, n: nat, s: Seq<u8>) -> Option<
    (Seq<(u16, Seq<Field>)>, Seq<u8>),
>
    decreases n,
{
    if n == 0 {
        Some((Seq::empty(), s))
    } else {
        match read_frame(order, s) {
            Some((op, fields, tail)) => match read_frames(order, (n - 1) as nat, tail) {
                Some((others, rest)) => Some((seq![(op, fields)] + others, rest)),
                None => None,
            },
            None => None,
        }
    }
}

/// What a reader gets back of `messages`.
pub open spec fn reads(messages: Seq<Message>) -> Seq<(u16, Seq<Field>)> {
    messages.map_values(|m: Message| m.read())
}

/// A reader of a stream of messages gets back all of them, in their order, and
/// what follows them is left.
pub proof fn law_messages_read_back(order: ByteOrder, messages: Seq<Message>, rest: Seq<u8>)
    requires
        forall|i: int| 0 <= i < messages.len() ==> countable((#[trigger] messages[i]).attrs),
    ensures
        read_frames(order, messages.len(), messages_wire(order, messages) + rest) == Some(
            (reads(messages), rest),
        ),
    decreases messages.len(),
{
    if messages.len() == 0 {
        assert(messages_wire(order, messages) + rest =~= rest);
        assert(reads(messages) =~= Seq::empty());
    } else {
        let first = messages[0];
        let others = messages.drop_first();
        let tail = messages_wire(order, others) + rest;
        assert forall|i: int| 0 <= i < others.len() implies countable(
            (#[trigger] others[i]).attrs,
        ) by {
            assert(others[i] == messages[i + 1]);
        }
        law_messages_read_back(order, others, rest);
        assert(messages_wire(order, messages) + rest == first.wire(order) + tail) by {
            lemma_join(first.wire(order), messages_wire(order, others), rest);
        }
        assert(read_frame(order, first.wire(order) + tail) == Some(
            (first.result.spec_code(), first.attrs, tail),
        )) by {
            assert(countable(messages[0].attrs));
            law_message_read_back(order, first, tail);
        }
        assert(seq![first.read()] + reads(others) =~= reads(messages));
    }
}

/// One more message at the end of a stream adds its bytes at the end.
pub proof fn lemma_messages_wire_push(order: ByteOrder, messages: Seq<Message>, last: Message)
    ensures
        messages_wire(order, messages.push(last)) == messages_wire(order, messages) + last.wire(
            order,
        ),
    decreases messages.len(),
{
    let longer = messages.push(last);
    if messages.len() == 0 {
        reveal_with_fuel(messages_wire, 2);
        assert(messages_wire(order, longer) =~= last.wire(order));
        assert(messages_wire(order, messages) + last.wire(order) =~= last.wire(order));
    } else {
        let others = messages.drop_first();
        lemma_messages_wire_push(order, others, last);
        assert(longer.drop_first() =~= others.push(last));
        lemma_join(messages[0].wire(order), messages_wire(order, others), last.wire(order));
    }
}

/// The body of a number of a process adds up to the number, by the weights of
/// its four bytes.
pub proof fn law_unsigned_body(x: u32, order: ByteOrder, r: Vec<u8>)
    requires
        call_ensures(u32::encode_attr, (&x, order), r),
    ensures
        r@.len() == 4,
        order is Little ==> r@[0] + 256 * r@[1] + 65536 * r@[2] + 16777216 * r@[3] == x,
        order is Big ==> 16777216 * r@[0] + 65536 * r@[1] + 256 * r@[2] + r@[3] == x,
{
    law_u32_weights(order, x, r@);
}

/// The body of a signed number adds up, by the weights of its four bytes, to
/// the number or, where that is negative, to the number and two to the power
/// of 32.
pub proof fn law_signed_body(x: i32, order: ByteOrder, r: Vec<u8>)
    requires
        call_ensures(i32::encode_attr, (&x, order), r),
    ensures
        r@.len() == 4,
        ({
            let up = r@[0] + 256 * r@[1] + 65536 * r@[2] + 16777216 * r@[3];
            let down = 16777216 * r@[0] + 65536 * r@[1] + 256 * r@[2] + r@[3];
            &&& order is Little ==> up - x == 0 || up - x == 4294967296
            &&& order is Big ==> down - x == 0 || down - x == 4294967296
        }),
{
    law_u32_weights(order, i32_bits(x), r@);
    law_bits_of_signed(x);
}

/// The body of a text is UTF-8 and decodes to the text, in either order.
pub proof fn law_text_body(x: &str, y: String, order: ByteOrder, a: Vec<u8>, b: Vec<u8>)
    requires
        call_ensures(<&str as ToAttr>::encode_attr, (&x, order), a),
        call_ensures(String::encode_attr, (&y, order), b),
    ensures
        valid_utf8(a@) && decode_utf8(a@) == x@,
        valid_utf8(b@) && decode_utf8(b@) == y@,
{
    encode_utf8_valid_utf8(x@);
    encode_utf8_decode_utf8(x@);
    encode_utf8_valid_utf8(y@);
    encode_utf8_decode_utf8(y@);
}

/// The body of bytes is those bytes, and the body of what says all by being
/// there has none.
pub proof fn law_plain_bodies(x: &[u8], y: Empty, order: ByteOrder, a: Vec<u8>, b: Vec<u8>)
    requires
        call_ensures(<[u8]>::encode_attr, (x, order), a),
        call_ensures(Empty::encode_attr, (&y, order), b),
    ensures
        a@ == x@,
        b@.len() == 0,
{
}

/// One more attribute at the end adds its bytes at the end.
proof fn lemma_fields_wire_push(order: ByteOrder, fields: Seq<Field>, last: Field)
    ensures
        fields_wire(order, fields.push(last)) == fields_wire(order, fields) + last.wire(order),
    decreases fields.len(),
{
    let longer = fields.push(last);
    if fields.len() == 0 {
        reveal_with_fuel(fields_wire, 2);
        assert(fields_wire(order, longer) =~= last.wire(order));
        assert(fields_wire(order, fields) + last.wire(order) =~= last.wire(order));
    } else {
        let others = fields.drop_first();
        lemma_fields_wire_push(order, others, last);
        assert(longer.drop_first() =~= others.push(last));
        lemma_join(fields[0].wire(order), fields_wire(order, others), last.wire(order));
    }
}

/// A message without attributes is four bytes: the number of its result, and
/// two zeros.
pub proof fn law_bare_message_bytes(
    result: ResultCode,
    m: GenericError,
    order: ByteOrder,
    r: Vec<u8>,
)
    requires
        call_ensures(GenericError::new, (result,), m),
        call_ensures(GenericError::to_bytes, (&m, order), r),
    ensures
        m@.result == result,
        m@.attrs.len() == 0,
        r@.len() == 4,
        r@[2] == 0,
        r@[3] == 0,
        ({
            let number = if order is Little {
                r@[0] + 256 * r@[1]
            } else {
                256 * r@[0] + r@[1]
            };
            &&& 1 <= number <= 9
            &&& result is Success <==> number == 1
            &&& result is InvalidState <==> number == 2
            &&& result is NotFound <==> number == 3
            &&& result is Closed <==> number == 4
            &&& result is Failed <==> number == 5
            &&& result is UnknownOp <==> number == 6
            &&& result is Output <==> number == 7
            &&& result is Sigchild <==> number == 8
            &&& result is Close <==> number == 9
        }),
{
    let c = Command { op: result.spec_code(), num_attrs: 0, padding: 0 };
    law_command_layout(order, c, r@);
    assert(fields_wire(order, m@.attrs) =~= Seq::empty());
    assert(r@ =~= c.bytes(order));
}

/// One more attribute changes a message in two places: the count goes up by
/// one, up to where it starts again from zero, and four bytes of header and
/// the body come at the end. The header has the number of the name, and the
/// length of the body as far as sixteen bits go.
pub proof fn law_attribute_added<T: ToAttr + ?Sized>(
    m: GenericError,
    name: AttrName,
    val: &T,
    order: ByteOrder,
    body: Vec<u8>,
    more: GenericError,
    a: Vec<u8>,
    b: Vec<u8>,
)
    requires
        call_ensures(T::encode_attr, (val, order), body),
        call_ensures(GenericError::attr::<T>, (m, name, val, order), more),
        call_ensures(GenericError::to_bytes, (&m, order), a),
        call_ensures(GenericError::to_bytes, (&more, order), b),
    ensures
        more@.result == m@.result,
        more@.attrs.len() == m@.attrs.len() + 1,
        more@.attrs.drop_last() == m@.attrs,
        more@.attrs.last().data == body@,
        a@.len() >= 4,
        b@.len() == a@.len() + 4 + body@.len(),
        forall|i: int| 0 <= i < a@.len() && i != 2 ==> b@[i] == #[trigger] a@[i],
        b@[2] == a@[2] + 1 || (b@[2] == 0 && a@[2] == 255),
        b@.skip((a@.len() + 4) as int) == body@,
        ({
            let at = a@.len() as int;
            let (number, length) = if order is Little {
                (b@[at] + 256 * b@[at + 1], b@[at + 2] + 256 * b@[at + 3])
            } else {
                (256 * b@[at] + b@[at + 1], 256 * b@[at + 2] + b@[at + 3])
            };
            &&& number == more@.attrs.last().name
            &&& name is Command <==> number == 1
            &&& name is Message <==> number == 2
            &&& name is Pid <==> number == 3
            &&& name is Data <==> number == 4
            &&& name is Stderr <==> number == 5
            &&& name is ExitCode <==> number == 6
            &&& (body@.len() - length) % 65536 == 0
        }),
{
    let n = m@.attrs.len();
    let f = field(name, body@);
    let op = m@.result.spec_code();
    let c = Command { op, num_attrs: (n % 0x100) as u8, padding: 0 };
    let d = Command { op, num_attrs: ((n + 1) % 0x100) as u8, padding: 0 };
    lemma_fields_wire_push(order, m@.attrs, f);
    law_command_layout(order, c, c.bytes(order));
    law_command_layout(order, d, d.bytes(order));
    law_attr_layout(order, f.header(), f.header().bytes(order));
    let before = fields_wire(order, m@.attrs);
    assert(a@ == c.bytes(order) + before);
    assert(b@ == d.bytes(order) + (before + f.wire(order)));
    let at = a@.len() as int;
    let head = f.header().bytes(order);
    assert(b@ =~= d.bytes(order) + before + head + body@);
    assert(b@.skip(at + 4) =~= body@);
    assert(c.bytes(order)[0] == d.bytes(order)[0] && c.bytes(order)[1] == d.bytes(order)[1]) by {
        assert(c.bytes(order).take(2) =~= order.u16_bytes(op));
        assert(d.bytes(order).take(2) =~= order.u16_bytes(op));
        assert(c.bytes(order).take(2)[0] == c.bytes(order)[0]);
        assert(c.bytes(order).take(2)[1] == c.bytes(order)[1]);
    }
    assert(b@[at] == head[0] && b@[at + 1] == head[1] && b@[at + 2] == head[2] && b@[at + 3]
        == head[3]);
    assert(more@.attrs.drop_last() =~= m@.attrs);
}

} // verus!
