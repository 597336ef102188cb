//! Byte orders, and how integers are laid out in each.
//!
//! The protocol writes its integers in the byte order of the machine the
//! server runs on, so everything that lays out or reads an integer takes the
//! order as an argument.

use vstd::endian::{endianness, Endian};
use vstd::prelude::*;
use zerocopy::{FromBytes, IntoBytes};

verus! {

/// The order in which the bytes of an integer are stored.
#[derive(Debug, Clone, Copy, PartialEq, Eq, Structural)]
pub enum ByteOrder {
    /// Least significant byte first.
    Little,
    /// Most significant byte first.
    Big,
}

/// The byte of `x` that counts multiples of `weight`.
pub open spec fn digit(x: int, weight: int) -> u8 {
    ((x / weight) % 256) as u8
}

/// The unsigned number that has the same 32 bits as `x`.
pub open spec fn i32_bits(x: i32) -> u32 {
    if x >= 0 {
        x as u32
    } else {
        (x + 0x1_0000_0000) as u32
    }
}

impl ByteOrder {
    /// The two bytes of `x`.
    pub open spec fn u16_bytes(self, x: u16) -> Seq<u8> {
        match self {
            ByteOrder::Little => seq![digit(x as int, 1), digit(x as int, 0x100)],
            ByteOrder::Big => seq![digit(x as int, 0x100), digit(x as int, 1)],
        }
    }

    /// The number that the two bytes `s` stand for.
    pub open spec fn u16_value(self, s: Seq<u8>) -> u16 {
        match self {
            ByteOrder::Little => (s[0] + 0x100 * s[1]) as u16,
            ByteOrder::Big => (0x100 * s[0] + s[1]) as u16,
        }
    }

    /// The four bytes of `x`.
    pub open spec fn u32_bytes(self, x: u32) -> Seq<u8> {
        match self {
            ByteOrder::Little => seq![
                digit(x as int, 1),
                digit(x as int, 0x100),
                digit(x as int, 0x1_0000),
                digit(x as int, 0x100_0000),
            ],
            ByteOrder::Big => seq![
                digit(x as int, 0x100_0000),
                digit(x as int, 0x1_0000),
                digit(x as int, 0x100),
                digit(x as int, 1),
            ],
        }
    }

    /// The number that the four bytes `s` stand for.
    pub open spec fn u32_value(self, s: Seq<u8>) -> u32 {
        match self {
            ByteOrder::Little => (s[0] + 0x100 * s[1] + 0x1_0000 * s[2] + 0x100_0000 * s[3]) as u32,
            ByteOrder::Big => (0x100_0000 * s[0] + 0x1_0000 * s[1] + 0x100 * s[2] + s[3]) as u32,
        }
    }

    /// Lays `x` out in two bytes.
    pub fn put_u16(self, x: u16) -> (r: Vec<u8>)
        ensures
            r@ == self.u16_bytes(x),
    {
        match self {
            ByteOrder::Little => little_u16_bytes(x),
            ByteOrder::Big => big_u16_bytes(x),
        }
    }

    /// Reads a number out of exactly two bytes.
    pub fn get_u16(self, bytes: &[u8]) -> (r: Option<u16>)
        ensures
            r == (if bytes@.len() == 2 {
                Some(self.u16_value(bytes@))
            } else {
                None
            }),
    {
        match self {
            ByteOrder::Little => read_little_u16(bytes),
            ByteOrder::Big => read_big_u16(bytes),
        }
    }

    /// Lays `x` out in four bytes.
    pub fn put_u32(self, x: u32) -> (r: Vec<u8>)
        ensures
            r@ == self.u32_bytes(x),
    {
        let b0: u8 = (x % 0x100) as u8;
        let b1: u8 = ((x / 0x100) % 0x100) as u8;
        let b2: u8 = ((x / 0x1_0000) % 0x100) as u8;
        let b3: u8 = ((x / 0x100_0000) % 0x100) as u8;
        let r = match self {
            ByteOrder::Little => vec![b0, b1, b2, b3],
            ByteOrder::Big => vec![b3, b2, b1, b0],
        };
        assert(r@ =~= self.u32_bytes(x));
        r
    }

    /// Lays the bits of `x` out in four bytes.
    pub fn put_i32(self, x: i32) -> (r: Vec<u8>)
        ensures
            r@ == self.u32_bytes(i32_bits(x)),
    {
        let bits: u32 = #[verifier::truncate]
        (x as u32);
        assert(x < 0 ==> x as u32 == x + 0x1_0000_0000) by (bit_vector);
        self.put_u32(bits)
    }

    /// Reads a number out of exactly four bytes.
    pub fn get_u32(self, bytes: &[u8]) -> (r: Option<u32>)
        ensures
            r == (if bytes@.len() == 4 {
                Some(self.u32_value(bytes@))
            } else {
                None
            }),
    {
        if bytes.len() != 4 {
            return None;
        }
        let b0: u32 = bytes[0] as u32;
        let b1: u32 = bytes[1] as u32;
        let b2: u32 = bytes[2] as u32;
        let b3: u32 = bytes[3] as u32;
        match self {
            ByteOrder::Little => Some(b0 + 0x100 * b1 + 0x1_0000 * b2 + 0x100_0000 * b3),
            ByteOrder::Big => Some(0x100_0000 * b0 + 0x1_0000 * b1 + 0x100 * b2 + b3),
        }
    }

    /// The order that stores `sample` as `bytes`, if either does.
    ///
    /// A sample whose two bytes are equal is stored alike in both orders and
    /// is answered with `Little`.
    pub fn of_sample(sample: u16, bytes: &[u8]) -> (r: Option<ByteOrder>)
        ensures
            r == (if bytes@ == ByteOrder::Little.u16_bytes(sample) {
                Some(ByteOrder::Little)
            } else if bytes@ == ByteOrder::Big.u16_bytes(sample) {
                Some(ByteOrder::Big)
            } else {
                None
            }),
    {
        let low: u8 = (sample % 0x100) as u8;
        let high: u8 = (sample / 0x100) as u8;
        if bytes.len() != 2 {
            None
        } else if bytes[0] == low && bytes[1] == high {
            assert(bytes@ =~= ByteOrder::Little.u16_bytes(sample));
            Some(ByteOrder::Little)
        } else if bytes[0] == high && bytes[1] == low {
            assert(bytes@ =~= ByteOrder::Big.u16_bytes(sample));
            assert(ByteOrder::Little.u16_bytes(sample)[0] == low);
            assert(ByteOrder::Little.u16_bytes(sample)[1] == high);
            Some(ByteOrder::Big)
        } else {
            assert(ByteOrder::Little.u16_bytes(sample)[0] == low);
            assert(ByteOrder::Little.u16_bytes(sample)[1] == high);
            assert(ByteOrder::Big.u16_bytes(sample)[0] == high);
            assert(ByteOrder::Big.u16_bytes(sample)[1] == low);
            None
        }
    }

    /// The byte order of the machine that the server runs on.
    pub open spec fn of_machine() -> ByteOrder {
        match endianness() {
            Endian::Little => ByteOrder::Little,
            Endian::Big => ByteOrder::Big,
        }
    }

    /// The byte order of the machine that the server runs on.
    ///
    /// It is told from how the machine stores a number whose bytes differ.
    pub fn native() -> (r: ByteOrder)
        ensures
            r == ByteOrder::of_machine(),
    {
        let stored = native_u16_bytes(1);
        assert(ByteOrder::Little.u16_bytes(1)[0] == 1);
        assert(ByteOrder::Big.u16_bytes(1)[0] == 0);
        ByteOrder::of_sample(1, stored.as_slice()).unwrap()
    }
}

/// `zerocopy::FromBytes::read_from_bytes` on a little-endian 16-bit number:
/// it succeeds on two bytes and on no other length, and the number has those
/// bytes, least significant first.
#[verifier::external_body]
fn read_little_u16(bytes: &[u8]) -> (r: Option<u16>)
    ensures
        r == (if bytes@.len() == 2 {
            Some(ByteOrder::Little.u16_value(bytes@))
        } else {
            None
        }),
{
    match zerocopy::little_endian::U16::read_from_bytes(bytes) {
        Ok(number) => Some(number.get()),
        Err(_) => None,
    }
}

/// `zerocopy::FromBytes::read_from_bytes` on a big-endian 16-bit number: it
/// succeeds on two bytes and on no other length, and the number has those
/// bytes, most significant first.
#[verifier::external_body]
fn read_big_u16(bytes: &[u8]) -> (r: Option<u16>)
    ensures
        r == (if bytes@.len() == 2 {
            Some(ByteOrder::Big.u16_value(bytes@))
        } else {
            None
        }),
{
    match zerocopy::big_endian::U16::read_from_bytes(bytes) {
        Ok(number) => Some(number.get()),
        Err(_) => None,
    }
}

/// `zerocopy::IntoBytes::as_bytes` on a little-endian 16-bit number: the two
/// bytes of the number, least significant first.
#[verifier::external_body]
fn little_u16_bytes(x: u16) -> (r: Vec<u8>)
    ensures
        r@ == ByteOrder::Little.u16_bytes(x),
{
    zerocopy::little_endian::U16::new(x).as_bytes().to_vec()
}

/// `zerocopy::IntoBytes::as_bytes` on a big-endian 16-bit number: the two
/// bytes of the number, most significant first.
#[verifier::external_body]
fn big_u16_bytes(x: u16) -> (r: Vec<u8>)
    ensures
        r@ == ByteOrder::Big.u16_bytes(x),
{
    zerocopy::big_endian::U16::new(x).as_bytes().to_vec()
}

/// `zerocopy::IntoBytes::as_bytes` on a plain 16-bit number: its two bytes as
/// they lie in memory, which is in the byte order of the machine that runs
/// this. Which of the two orders that is, is not claimed.
#[verifier::external_body]
fn native_u16_bytes(x: u16) -> (r: Vec<u8>)
    ensures
        r@ == ByteOrder::of_machine().u16_bytes(x),
{
    x.as_bytes().to_vec()
}

/// Reading back a 16-bit number gives the number that was laid out, and
/// laying out a number that was read gives back its bytes.
pub proof fn law_u16_round_trip(order: ByteOrder, x: u16, s: Seq<u8>)
    ensures
        order.u16_bytes(x).len() == 2,
        order.u16_value(order.u16_bytes(x)) == x,
        s.len() == 2 ==> order.u16_bytes(order.u16_value(s)) == s,
{
    assert(x == (x % 256) + 256 * ((x / 256) % 256));
    if s.len() == 2 {
        assert(order.u16_bytes(order.u16_value(s)) =~= s);
    }
}

/// The four base-256 digits of a 32-bit number add up to it.
proof fn lemma_digits_of_u32(x: int)
    requires
        0 <= x < 0x1_0000_0000,
    ensures
        x == digit(x, 1) + 0x100 * digit(x, 0x100) + 0x1_0000 * digit(x, 0x1_0000) + 0x100_0000
            * digit(x, 0x100_0000),
{
    let q1 = x / 0x100;
    let q2 = q1 / 0x100;
    let q3 = q2 / 0x100;
    assert(x / 0x1_0000 == q2);
    assert(x / 0x100_0000 == q3);
    assert(x == x % 0x100 + 0x100 * q1);
    assert(q1 == q1 % 0x100 + 0x100 * q2);
    assert(q2 == q2 % 0x100 + 0x100 * q3);
}

/// A number put together from four bytes has them as its digits.
proof fn lemma_u32_of_digits(a: u8, b: u8, c: u8, d: u8)
    ensures
        ({
            let x = a + 0x100 * b + 0x1_0000 * c + 0x100_0000 * d;
            &&& 0 <= x < 0x1_0000_0000
            &&& digit(x, 1) == a
            &&& digit(x, 0x100) == b
            &&& digit(x, 0x1_0000) == c
            &&& digit(x, 0x100_0000) == d
        }),
{
    let x = a + 0x100 * b + 0x1_0000 * c + 0x100_0000 * d;
    let q1 = b + 0x100 * c + 0x1_0000 * d;
    let q2 = c + 0x100 * d;
    assert(x / 0x100 == q1);
    assert(q1 / 0x100 == q2);
    assert(x / 0x1_0000 == q2);
    assert(x / 0x100_0000 == d);
}

/// Reading back a 32-bit number gives the number that was laid out, and
/// laying out a number that was read gives back its bytes.
pub proof fn law_u32_round_trip(order: ByteOrder, x: u32, s: Seq<u8>)
    ensures
        order.u32_bytes(x).len() == 4,
        order.u32_value(order.u32_bytes(x)) == x,
        s.len() == 4 ==> order.u32_bytes(order.u32_value(s)) == s,
{
    lemma_digits_of_u32(x as int);
    if s.len() == 4 {
        match order {
            ByteOrder::Little => {
                lemma_u32_of_digits(s[0], s[1], s[2], s[3]);
            },
            ByteOrder::Big => {
                lemma_u32_of_digits(s[3], s[2], s[1], s[0]);
            },
        }
        assert(order.u32_bytes(order.u32_value(s)) =~= s);
    }
}

/// The two orders store a number in opposite sequences of bytes.
pub proof fn law_orders_mirror(x: u16, y: u32)
    ensures
        ByteOrder::Big.u16_bytes(x) == ByteOrder::Little.u16_bytes(x).reverse(),
        ByteOrder::Big.u32_bytes(y) == ByteOrder::Little.u32_bytes(y).reverse(),
{
    assert(ByteOrder::Big.u16_bytes(x) =~= ByteOrder::Little.u16_bytes(x).reverse());
    assert(ByteOrder::Big.u32_bytes(y) =~= ByteOrder::Little.u32_bytes(y).reverse());
}

/// In the two bytes of a 16-bit number each byte has its weight: the first
/// counts ones in little-endian order and multiples of 256 in big-endian
/// order, and the second the other way round.
pub proof fn law_u16_weights(order: ByteOrder, x: u16, s: Seq<u8>)
    ensures
        order.u16_bytes(x).len() == 2,
        order is Little ==> order.u16_bytes(x)[0] + 256 * order.u16_bytes(x)[1] == x,
        order is Big ==> 256 * order.u16_bytes(x)[0] + order.u16_bytes(x)[1] == x,
        order is Little && s.len() == 2 ==> order.u16_value(s) == s[0] + 256 * s[1],
        order is Big && s.len() == 2 ==> order.u16_value(s) == 256 * s[0] + s[1],
{
    law_u16_round_trip(order, x, s);
}

/// In the four bytes of a 32-bit number each byte has its weight, which grows
/// by the factor 256 from the first byte to the last in little-endian order,
/// and from the last to the first in big-endian order.
pub proof fn law_u32_weights(order: ByteOrder, x: u32, s: Seq<u8>)
    ensures
        order.u32_bytes(x).len() == 4,
        ({
            let b = order.u32_bytes(x);
            &&& order is Little ==> b[0] + 256 * b[1] + 65536 * b[2] + 16777216 * b[3] == x
            &&& order is Big ==> 16777216 * b[0] + 65536 * b[1] + 256 * b[2] + b[3] == x
        }),
        order is Little && s.len() == 4 ==> order.u32_value(s) == s[0] + 256 * s[1] + 65536 * s[2]
            + 16777216 * s[3],
        order is Big && s.len() == 4 ==> order.u32_value(s) == 16777216 * s[0] + 65536 * s[1] + 256
            * s[2] + s[3],
{
    lemma_digits_of_u32(x as int);
    if s.len() == 4 {
        lemma_u32_of_digits(s[0], s[1], s[2], s[3]);
        lemma_u32_of_digits(s[3], s[2], s[1], s[0]);
    }
}

/// A signed number and the unsigned one that has its bits are equal, or differ
/// by two to the power of 32.
pub proof fn law_bits_of_signed(x: i32)
    ensures
        i32_bits(x) - x == 0 || i32_bits(x) - x == 4294967296,
{
}

/// What `put_u16` gives adds up to the number, by the weights of its bytes.
pub proof fn law_put_u16(order: ByteOrder, x: u16, r: Vec<u8>)
    requires
        call_ensures(ByteOrder::put_u16, (order, x), r),
    ensures
        r@.len() == 2,
        order is Little ==> r@[0] + 256 * r@[1] == x,
        order is Big ==> 256 * r@[0] + r@[1] == x,
{
    law_u16_weights(order, x, r@);
}

/// `get_u16` takes two bytes and no other number of them, and adds them up by
/// their weights.
pub proof fn law_get_u16(order: ByteOrder, bytes: &[u8], r: Option<u16>)
    requires
        call_ensures(ByteOrder::get_u16, (order, bytes), r),
    ensures
        r is Some <==> bytes@.len() == 2,
        order is Little ==> (r matches Some(x) ==> x == bytes@[0] + 256 * bytes@[1]),
        order is Big ==> (r matches Some(x) ==> x == 256 * bytes@[0] + bytes@[1]),
{
    law_u16_weights(order, 0, bytes@);
}

/// What `put_u32` gives adds up to the number, by the weights of its bytes.
pub proof fn law_put_u32(order: ByteOrder, x: u32, r: Vec<u8>)
    requires
        call_ensures(ByteOrder::put_u32, (order, x), r),
    ensures
        r@.len() == 4,
        order is Little ==> r@[0] + 256 * r@[1] + 65536 * r@[2] + 16777216 * r@[3] == x,
        order is Big ==> 16777216 * r@[0] + 65536 * r@[1] + 256 * r@[2] + r@[3] == x,
{
    law_u32_weights(order, x, r@);
}

/// What `put_i32` gives adds up, by the weights of its bytes, to the number or,
/// where that is negative, to the number and two to the power of 32.
pub proof fn law_put_i32(order: ByteOrder, x: i32, r: Vec<u8>)
    requires
        call_ensures(ByteOrder::put_i32, (order, x), r),
    ensures
        r@.len() == 4,
        ({
            let up = r@[0] + 256 * r@[1] + 65536 * r@[2] + 16777216 * r@[3];
            let down = 16777216 * r@[0] + 65536 * r@[1] + 256 * r@[2] + r@[3];
            &&& order is Little ==> up - x == 0 || up - x == 4294967296
            &&& order is Big ==> down - x == 0 || down - x == 4294967296
        }),
{
    law_u32_weights(order, i32_bits(x), r@);
    law_bits_of_signed(x);
}

/// `get_u32` takes four bytes and no other number of them, and adds them up by
/// their weights.
pub proof fn law_get_u32(order: ByteOrder, bytes: &[u8], r: Option<u32>)
    requires
        call_ensures(ByteOrder::get_u32, (order, bytes), r),
    ensures
        r is Some <==> bytes@.len() == 4,
        order is Little ==> (r matches Some(x) ==> x == bytes@[0] + 256 * bytes@[1] + 65536
            * bytes@[2] + 16777216 * bytes@[3]),
        order is Big ==> (r matches Some(x) ==> x == 16777216 * bytes@[0] + 65536 * bytes@[1] + 256
            * bytes@[2] + bytes@[3]),
{
    law_u32_weights(order, 0, bytes@);
}

/// `of_sample` finds an order if and only if the bytes add up to the sample in
/// one of them, and then one in which they do; little-endian if they do in
/// both.
pub proof fn law_of_sample(sample: u16, bytes: &[u8], r: Option<ByteOrder>)
    requires
        call_ensures(ByteOrder::of_sample, (sample, bytes), r),
    ensures
        ({
            let up = bytes@.len() == 2 && bytes@[0] + 256 * bytes@[1] == sample;
            let down = bytes@.len() == 2 && 256 * bytes@[0] + bytes@[1] == sample;
            &&& r == Some(ByteOrder::Little) <==> up
            &&& r == Some(ByteOrder::Big) <==> down && !up
        }),
{
    law_u16_weights(ByteOrder::Little, sample, bytes@);
    law_u16_weights(ByteOrder::Big, sample, bytes@);
    law_u16_round_trip(ByteOrder::Little, sample, bytes@);
    law_u16_round_trip(ByteOrder::Big, sample, bytes@);
}

/// `native` gives the order of the machine.
pub proof fn law_native(r: ByteOrder)
    requires
        call_ensures(ByteOrder::native, (), r),
    ensures
        r is Little <==> endianness() == Endian::Little,
        r is Big <==> endianness() == Endian::Big,
{
}

} // verus!
