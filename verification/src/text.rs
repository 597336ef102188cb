//! Text out of a stream that is read piece by piece.

use vstd::prelude::*;
use vstd::slice::slice_subrange;
use vstd::utf8::{
    decode_utf8, decode_utf8_split, encode_utf8, encode_utf8_decode_utf8, encode_utf8_valid_utf8,
    is_ascii_chars, is_ascii_chars_encode_utf8, is_char_boundary,
    is_char_boundary_iff_not_is_continuation_byte,
    is_char_boundary_start_end_of_seq, length_of_first_scalar, pop_first_scalar, valid_utf8,
    valid_utf8_split,
};

verus! {

/// How many bytes are taken from a stream at a time.
pub const CHUNK_LEN: usize = 4096;

/// How long the next piece is when `left` bytes are to come.
pub open spec fn spec_chunk_len(left: nat) -> nat {
    if left < CHUNK_LEN {
        left
    } else {
        CHUNK_LEN as nat
    }
}

/// How long the next piece is when `left` bytes are to come.
pub fn chunk_len(left: usize) -> (r: usize)
    ensures
        r == spec_chunk_len(left as nat),
{
    if left < CHUNK_LEN {
        left
    } else {
        CHUNK_LEN
    }
}

/// The lengths of the pieces in which `left` bytes are taken.
pub open spec fn pieces(left: nat) -> Seq<nat>
    decreases left,
{
    if left == 0 {
        Seq::empty()
    } else {
        let k = spec_chunk_len(left);
        seq![k] + pieces((left - k) as nat)
    }
}

/// The sum of `lengths`.
pub open spec fn total(lengths: Seq<nat>) -> nat
    decreases lengths.len(),
{
    if lengths.len() == 0 {
        0
    } else {
        lengths[0] + total(lengths.drop_first())
    }
}

/// However many bytes are to be taken, the pieces are so many together, and
/// each is neither empty nor longer than a piece can be.
pub proof fn law_pieces_add_up(left: nat)
    ensures
        total(pieces(left)) == left,
        forall|i: int| 0 <= i < pieces(left).len() ==> 0 < #[trigger] pieces(left)[i] <= CHUNK_LEN,
    decreases left,
{
    if left > 0 {
        let k = spec_chunk_len(left);
        let others = pieces((left - k) as nat);
        law_pieces_add_up((left - k) as nat);
        assert(pieces(left).drop_first() =~= others);
        assert forall|i: int| 0 <= i < pieces(left).len() implies 0 < #[trigger] pieces(left)[i]
            <= CHUNK_LEN by {
            if i > 0 {
                assert(pieces(left)[i] == others[i - 1]);
            }
        }
    }
}

/// The text of one piece: what it decodes to, or nothing where it is not
/// UTF-8.
pub open spec fn chunk_text(chunk: Seq<u8>) -> Seq<char> {
    if valid_utf8(chunk) {
        decode_utf8(chunk)
    } else {
        Seq::empty()
    }
}

/// The text of all the pieces of `s`.
pub open spec fn text_of(s: Seq<u8>) -> Seq<char>
    decreases s.len(),
{
    if s.len() == 0 {
        Seq::empty()
    } else {
        let k = spec_chunk_len(s.len()) as int;
        chunk_text(s.take(k)) + text_of(s.skip(k))
    }
}

/// The error of `core::str::from_utf8`; nothing is said of it.
#[verifier::external_type_specification]
#[verifier::external_body]
pub struct ExUtf8Error(core::str::Utf8Error);

/// `core::str::from_utf8` succeeds on UTF-8 and on nothing else, and the text
/// is what the bytes decode to.
pub assume_specification[ core::str::from_utf8 ](v: &[u8]) -> (r: Result<
    &str,
    core::str::Utf8Error,
>)
    ensures
        r is Ok <==> valid_utf8(v@),
        r matches Ok(text) ==> text@ == decode_utf8(v@),
;

/// Decodes `bytes` piece by piece. A piece that is not UTF-8 by itself is left
/// out, and the others are kept.
pub fn read_string(bytes: &[u8]) -> (r: String)
    ensures
        r@ == text_of(bytes@),
{
    let mut x = String::new();
    let mut at: usize = 0;
    assert(bytes@.skip(0) =~= bytes@);
    while at < bytes.len()
        invariant
            at <= bytes@.len(),
            text_of(bytes@) == x@ + text_of(bytes@.skip(at as int)),
        decreases bytes@.len() - at,
    {
        let want = chunk_len(bytes.len() - at);
        let chunk = slice_subrange(bytes, at, at + want);
        let ghost before = x@;
        match core::str::from_utf8(chunk) {
            Ok(text) => x.append(text),
            Err(_) => (),
        }
        proof {
            let left = bytes@.skip(at as int);
            assert(chunk@ =~= left.take(want as int));
            assert(left.skip(want as int) =~= bytes@.skip(at + want));
            assert(x@ =~= before + chunk_text(chunk@));
            assert(before + text_of(left) =~= x@ + text_of(bytes@.skip(at + want)));
        }
        at += want;
    }
    assert(x@ + text_of(bytes@.skip(at as int)) =~= x@);
    x
}

/// The text of a stream that is cut after a whole number of full pieces is
/// that of the two parts.
pub proof fn law_text_of_parts(a: Seq<u8>, b: Seq<u8>)
    requires
        a.len() % (CHUNK_LEN as nat) == 0,
    ensures
        text_of(a + b) == text_of(a) + text_of(b),
    decreases a.len(),
{
    if a.len() == 0 {
        assert(a + b =~= b);
        assert(text_of(a) + text_of(b) =~= text_of(b));
    } else {
        let k = CHUNK_LEN as int;
        assert(a.len() >= k);
        law_text_of_parts(a.skip(k), b);
        assert((a + b).take(k) =~= a.take(k));
        assert((a + b).skip(k) =~= a.skip(k) + b);
        assert(text_of(a + b) =~= text_of(a) + text_of(b));
    }
}

/// The pieces of `s` all end at the end of a character.
pub open spec fn pieces_whole(s: Seq<u8>) -> bool {
    forall|i: int|
        0 <= i <= s.len() && i % (CHUNK_LEN as int) == 0 ==> #[trigger] is_char_boundary(s, i)
}

/// Where every piece ends at the end of a character, the text is what the
/// whole decodes to.
pub proof fn law_text_whole(s: Seq<u8>)
    requires
        valid_utf8(s),
        pieces_whole(s),
    ensures
        text_of(s) == decode_utf8(s),
    decreases s.len(),
{
    if s.len() == 0 {
    } else if s.len() <= CHUNK_LEN {
        assert(s.take(s.len() as int) =~= s);
        assert(text_of(s.skip(s.len() as int)) =~= Seq::empty());
        assert(text_of(s) =~= decode_utf8(s));
    } else {
        let k = CHUNK_LEN as int;
        let t = s.skip(k);
        assert(is_char_boundary(s, k));
        valid_utf8_split(s, k);
        decode_utf8_split(s, k);
        assert(s.subrange(0, k) =~= s.take(k));
        assert(s.subrange(k, s.len() as int) =~= t);
        assert forall|i: int|
            0 <= i <= t.len() && i % (CHUNK_LEN as int) == 0 implies #[trigger] is_char_boundary(
            t,
            i,
        ) by {
            if i == t.len() {
                is_char_boundary_start_end_of_seq(t);
            } else {
                assert(is_char_boundary(s, i + k));
                assert(t[i] == s[i + k]);
                is_char_boundary_iff_not_is_continuation_byte(s, i + k);
                is_char_boundary_iff_not_is_continuation_byte(t, i);
            }
        }
        law_text_whole(t);
    }
}

/// The pieces of an ASCII text of any length all end at the end of a character.
pub proof fn law_ascii_pieces_whole(text: Seq<char>)
    requires
        is_ascii_chars(text),
    ensures
        pieces_whole(encode_utf8(text)),
{
    let s = encode_utf8(text);
    encode_utf8_valid_utf8(text);
    is_ascii_chars_encode_utf8(text);
    is_char_boundary_start_end_of_seq(s);
    assert forall|i: int|
        0 <= i <= s.len() && i % (CHUNK_LEN as int) == 0 implies #[trigger] is_char_boundary(
        s,
        i,
    ) by {
        if i < s.len() {
            assert(s[i] == text[i] as u8);
            is_char_boundary_iff_not_is_continuation_byte(s, i);
        }
    }
}

/// A text of at most one piece is read back from its bytes; so is a longer one
/// whose pieces all end at the end of a character, and so is every ASCII text.
pub proof fn law_text_read_back(text: Seq<char>)
    requires
        encode_utf8(text).len() <= CHUNK_LEN || pieces_whole(encode_utf8(text)) || is_ascii_chars(
            text,
        ),
    ensures
        text_of(encode_utf8(text)) == text,
{
    let s = encode_utf8(text);
    encode_utf8_valid_utf8(text);
    encode_utf8_decode_utf8(text);
    is_char_boundary_start_end_of_seq(s);
    if s.len() <= CHUNK_LEN {
        assert forall|i: int|
            0 <= i <= s.len() && i % (CHUNK_LEN as int) == 0 implies #[trigger] is_char_boundary(
            s,
            i,
        ) by {
            assert(i == 0 || i == s.len());
        }
    } else if is_ascii_chars(text) {
        law_ascii_pieces_whole(text);
    }
    law_text_whole(s);
}

/// A start of a valid text that is valid by itself ends at the end of a
/// character.
proof fn lemma_valid_start_is_boundary(s: Seq<u8>, k: int)
    requires
        valid_utf8(s),
        0 <= k <= s.len(),
        valid_utf8(s.take(k)),
    ensures
        is_char_boundary(s, k),
    decreases s.len(),
{
    if k > 0 {
        let n = length_of_first_scalar(s);
        assert(s.take(k)[0] == s[0]);
        assert(pop_first_scalar(s.take(k)) =~= pop_first_scalar(s).take(k - n));
        lemma_valid_start_is_boundary(pop_first_scalar(s), k - n);
    }
}

/// The first piece of a longer text is kept if and only if it ends at the end
/// of a character; where it cuts one in two, all of it is lost.
pub proof fn law_first_piece(s: Seq<u8>)
    requires
        valid_utf8(s),
        s.len() > CHUNK_LEN,
    ensures
        is_char_boundary(s, CHUNK_LEN as int) ==> text_of(s) == decode_utf8(
            s.take(CHUNK_LEN as int),
        ) + text_of(s.skip(CHUNK_LEN as int)),
        !is_char_boundary(s, CHUNK_LEN as int) ==> text_of(s) == text_of(s.skip(CHUNK_LEN as int)),
{
    let k = CHUNK_LEN as int;
    assert(s.subrange(0, k) =~= s.take(k));
    if is_char_boundary(s, k) {
        valid_utf8_split(s, k);
    } else {
        if valid_utf8(s.take(k)) {
            lemma_valid_start_is_boundary(s, k);
        }
        assert(text_of(s) =~= text_of(s.skip(k)));
    }
}

/// A piece is never longer than what is to come, nor than 4096 bytes, and it
/// is as long as one of the two.
pub proof fn law_chunk_len(left: usize, r: usize)
    requires
        call_ensures(chunk_len, (left,), r),
    ensures
        CHUNK_LEN == 4096,
        r <= left,
        r <= 4096,
        r == left || r == 4096,
{
}

/// Up to 4096 bytes are decoded as a whole: UTF-8 gives the text that it
/// stands for, and anything else gives none.
pub proof fn law_one_piece_read(bytes: &[u8], r: String)
    requires
        call_ensures(read_string, (bytes,), r),
        bytes@.len() <= 4096,
    ensures
        valid_utf8(bytes@) ==> r@ == decode_utf8(bytes@),
        !valid_utf8(bytes@) ==> r@.len() == 0,
{
    let s = bytes@;
    assert(s.take(s.len() as int) =~= s);
    assert(text_of(s.skip(s.len() as int)) =~= Seq::empty());
    assert(text_of(s) =~= chunk_text(s));
    if s.len() == 0 {
        assert(decode_utf8(s) =~= Seq::empty());
    }
}

/// Longer text is decoded in parts of 4096 bytes: cut at a multiple of that,
/// the two parts give by themselves what they give together.
pub proof fn law_parts_read(a: &[u8], b: &[u8], ab: &[u8], ra: String, rb: String, rab: String)
    requires
        call_ensures(read_string, (a,), ra),
        call_ensures(read_string, (b,), rb),
        call_ensures(read_string, (ab,), rab),
        ab@ == a@ + b@,
        a@.len() % 4096 == 0,
    ensures
        rab@ == ra@ + rb@,
{
    law_text_of_parts(a@, b@);
}

} // verus!
