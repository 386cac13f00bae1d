//! Text seen both as characters and as UTF-8 bytes.

use vstd::prelude::*;
use vstd::string::StringSliceAdditionalSpecFns;
use vstd::utf8::*;

verus! {

/// How often `c` occurs in `s`.
pub open spec fn occurrences(s: Seq<char>, c: char) -> nat
    decreases s.len(),
{
    if s.len() == 0 {
        0
    } else {
        occurrences(s.drop_first(), c) + if s[0] == c {
            1nat
        } else {
            0nat
        }
    }
}

/// A character occurs in a text exactly if it does so more than zero times.
pub(crate) proof fn lemma_occurrences_contains(s: Seq<char>, c: char)
    ensures
        occurrences(s, c) > 0 <==> s.contains(c),
    decreases s.len(),
{
    if s.len() > 0 {
        let rest = s.drop_first();
        lemma_occurrences_contains(rest, c);
        assert(s =~= seq![s[0]] + rest);
        if rest.contains(c) {
            let i = choose|i: int| 0 <= i < rest.len() && rest[i] == c;
            assert(s[i + 1] == c);
        } else if s.contains(c) {
            let i = choose|i: int| 0 <= i < s.len() && s[i] == c;
            assert(i > 0 ==> rest[i - 1] == c);
        }
        assert(s[0] == c ==> s.contains(c));
    }
}

/// How often the byte `b` occurs in `s`.
pub open spec fn byte_occurrences(s: Seq<u8>, b: u8) -> nat
    decreases s.len(),
{
    if s.len() == 0 {
        0
    } else {
        byte_occurrences(s.drop_first(), b) + if s[0] == b {
            1nat
        } else {
            0nat
        }
    }
}

/// `c` is a single byte in UTF-8.
pub open spec fn is_ascii_char(c: char) -> bool {
    c <= '\u{7f}'
}

/// `c` is one of `0` to `9`.
pub open spec fn is_ascii_digit_char(c: char) -> bool {
    '0' <= c <= '9'
}

pub(crate) proof fn lemma_byte_occurrences_concat(a: Seq<u8>, b: Seq<u8>, x: u8)
    ensures
        byte_occurrences(a + b, x) == byte_occurrences(a, x) + byte_occurrences(b, x),
    decreases a.len(),
{
    if a.len() == 0 {
        assert(a + b =~= b);
    } else {
        assert((a + b).drop_first() =~= a.drop_first() + b);
        lemma_byte_occurrences_concat(a.drop_first(), b, x);
    }
}

/// The encoding of an ASCII character is its one byte; that of any other character has no
/// ASCII byte in it.
pub(crate) proof fn lemma_encode_scalar(c: char)
    ensures
        is_ascii_char(c) ==> encode_scalar(c as u32) =~= seq![c as u8] && (c as u8) as char == c,
        !is_ascii_char(c) ==> encode_scalar(c as u32).len() > 0 && forall|i: int|
            0 <= i < encode_scalar(c as u32).len() ==> #[trigger] encode_scalar(c as u32)[i] >= 0x80,
{
    broadcast use char_is_scalar;

    let x = c as u32;
    if is_ascii_char(c) {
        assert(leading_byte_width_1(x) == x as u8 && x as u8 == x) by (bit_vector)
            requires
                x <= 0x7f,
        ;
    } else {
        assert(x > 0x7f);
        assert(leading_byte_width_2(x) >= 0x80) by (bit_vector);
        assert(leading_byte_width_3(x) >= 0x80) by (bit_vector);
        assert(leading_byte_width_4(x) >= 0x80) by (bit_vector);
        assert(last_continuation_byte(x) >= 0x80) by (bit_vector);
        assert(second_last_continuation_byte(x) >= 0x80) by (bit_vector);
        assert(third_last_continuation_byte(x) >= 0x80) by (bit_vector);
    }
}

proof fn lemma_no_ascii_byte(s: Seq<u8>, b: u8)
    requires
        b < 0x80,
        forall|i: int| 0 <= i < s.len() ==> s[i] >= 0x80,
    ensures
        byte_occurrences(s, b) == 0,
    decreases s.len(),
{
    if s.len() > 0 {
        assert forall|i: int| 0 <= i < s.drop_first().len() implies s.drop_first()[i] >= 0x80 by {
            assert(s.drop_first()[i] == s[i + 1]);
        }
        lemma_no_ascii_byte(s.drop_first(), b);
    }
}

/// An ASCII character occurs in a text as often as its byte does in the text's encoding.
pub(crate) proof fn lemma_occurrences_encoded(s: Seq<char>, c: char)
    requires
        is_ascii_char(c),
    ensures
        byte_occurrences(encode_utf8(s), c as u8) == occurrences(s, c),
    decreases s.len(),
{
    if s.len() > 0 {
        let first = encode_scalar(s[0] as u32);
        lemma_occurrences_encoded(s.drop_first(), c);
        lemma_byte_occurrences_concat(first, encode_utf8(s.drop_first()), c as u8);
        lemma_encode_scalar(s[0]);
        lemma_encode_scalar(c);
        if is_ascii_char(s[0]) {
            assert(first.drop_first() =~= seq![]);
            assert(byte_occurrences(first.drop_first(), c as u8) == 0);
        } else {
            lemma_no_ascii_byte(first, c as u8);
        }
    }
}

pub(crate) proof fn lemma_encode_concat(a: Seq<char>, b: Seq<char>)
    ensures
        encode_utf8(a + b) =~= encode_utf8(a) + encode_utf8(b),
    decreases a.len(),
{
    if a.len() == 0 {
        assert(a + b =~= b);
    } else {
        assert((a + b).drop_first() =~= a.drop_first() + b);
        lemma_encode_concat(a.drop_first(), b);
    }
}

/// Texts with the same encoding are the same text.
pub(crate) proof fn lemma_encode_injective(a: Seq<char>, b: Seq<char>)
    requires
        encode_utf8(a) == encode_utf8(b),
    ensures
        a == b,
{
    encode_utf8_decode_utf8(a);
    encode_utf8_decode_utf8(b);
}

/// Whether the text begins with one of the digits `0` to `9`.
pub fn starts_with_digit(s: &str) -> (r: bool)
    ensures
        r == (s@.len() > 0 && is_ascii_digit_char(s@[0])),
{
    proof {
        if s@.len() > 0 {
            lemma_encode_scalar(s@[0]);
        }
    }
    let bytes = s.as_bytes();
    bytes.len() > 0 && bytes[0] >= 48 && bytes[0] <= 57
}

/// Whether two texts are equal.
pub fn same_text(a: &str, b: &str) -> (r: bool)
    ensures
        r == (a@ == b@),
{
    let x = a.as_bytes();
    let y = b.as_bytes();
    if x.len() != y.len() {
        return false;
    }
    let n: usize = x.len();
    let mut i: usize = 0;
    while i < n
        invariant
            i <= n,
            n == x@.len() == y@.len(),
            x@ == encode_utf8(a@),
            y@ == encode_utf8(b@),
            x@.take(i as int) =~= y@.take(i as int),
        decreases n - i,
    {
        if x[i] != y[i] {
            return false;
        }
        proof {
            assert(x@.take(i + 1) =~= x@.take(i as int).push(x@[i as int]));
            assert(y@.take(i + 1) =~= y@.take(i as int).push(y@[i as int]));
        }
        i = i + 1;
    }
    proof {
        assert(x@.take(n as int) =~= x@);
        assert(y@.take(n as int) =~= y@);
        lemma_encode_injective(a@, b@);
    }
    true
}

/// The text between its first and its last character, where both are ASCII.
pub fn between_ends(s: &str) -> (r: &str)
    requires
        s@.len() >= 2,
        is_ascii_char(s@[0]),
        is_ascii_char(s@.last()),
    ensures
        r@ == s@.subrange(1, s@.len() - 1),
{
    let ghost inner = s@.subrange(1, s@.len() - 1);
    let ghost rest = s@.drop_first();
    let ghost bytes = encode_utf8(s@);
    proof {
        encode_utf8_valid_utf8(s@);
        encode_utf8_valid_utf8(rest);
        lemma_encode_scalar(s@[0]);
        lemma_encode_scalar(s@.last());
        let last = seq![s@.last()];
        assert(rest =~= inner + last);
        lemma_encode_concat(inner, last);
        assert(last.drop_first() =~= seq![]);
        assert(encode_utf8(last) =~= seq![s@.last() as u8]) by {
            assert(encode_utf8(last.drop_first()) =~= seq![]);
        }
        assert(bytes =~= seq![s@[0] as u8] + encode_utf8(rest));
        assert(bytes.subrange(1, bytes.len() as int) =~= encode_utf8(rest));
        reveal_with_fuel(is_char_boundary, 2);
        assert(is_char_boundary(bytes, 1));
    }
    let tail = s.split_at(1).1;
    let n: usize = tail.as_bytes().len() - 1;
    proof {
        let tb = encode_utf8(rest);
        assert(tail.spec_bytes() == tb);
        assert(tb[n as int] == s@.last() as u8);
        is_char_boundary_iff_not_is_continuation_byte(tb, n as int);
        assert(tb.subrange(0, n as int) =~= encode_utf8(inner));
    }
    let r = tail.split_at(n).0;
    proof {
        lemma_encode_injective(r@, inner);
    }
    r
}

/// The part of a text between two bytes of it, each of which starts a character or is the end.
pub(crate) fn byte_range(s: &str, from: usize, to: usize) -> (r: &str)
    requires
        from <= to <= encode_utf8(s@).len(),
        from < encode_utf8(s@).len() ==> from == 0 || !is_continuation_byte(
            encode_utf8(s@)[from as int],
        ),
        to < encode_utf8(s@).len() ==> to == 0 || !is_continuation_byte(
            encode_utf8(s@)[to as int],
        ),
    ensures
        encode_utf8(r@) == encode_utf8(s@).subrange(from as int, to as int),
{
    let ghost bytes = encode_utf8(s@);
    proof {
        encode_utf8_valid_utf8(s@);
        is_char_boundary_start_end_of_seq(bytes);
        if to < bytes.len() {
            is_char_boundary_iff_not_is_continuation_byte(bytes, to as int);
        }
    }
    let head = s.split_at(to).0;
    proof {
        let hb = encode_utf8(head@);
        encode_utf8_valid_utf8(head@);
        is_char_boundary_start_end_of_seq(hb);
        assert(hb =~= bytes.subrange(0, to as int));
        if from < to {
            is_char_boundary_iff_not_is_continuation_byte(hb, from as int);
        }
    }
    let r = head.split_at(from).1;
    proof {
        assert(encode_utf8(r@) =~= bytes.subrange(from as int, to as int));
    }
    r
}

} // verus!
