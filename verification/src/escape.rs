//! The content of a literal, read from the left as characters and escapes, and what becomes of
//! it between other quotes.

use std::borrow::Cow;

use vstd::prelude::*;
use vstd::string::StringSliceAdditionalSpecFns;
use vstd::utf8::*;

use crate::quote::QuoteStyle;
use crate::text::byte_range;
use crate::text::is_ascii_char;
use crate::text::lemma_encode_concat;
use crate::text::lemma_encode_injective;
use crate::text::lemma_encode_scalar;

verus! {

/// What a text becomes: `None` where the borrowed text stands, `Some` new text otherwise.
pub open spec fn replacement(text: Cow<str>) -> Option<Seq<char>> {
    match text {
        Cow::Borrowed(_) => None,
        Cow::Owned(s) => Some(s@),
    }
}

/// The text that results from replacing `old`, or from leaving it alone.
pub open spec fn replaced(old: Seq<char>, new: Option<Seq<char>>) -> Seq<char> {
    match new {
        Some(s) => s,
        None => old,
    }
}

/// `s` starts with an escape: a backslash and the character that it takes.
pub open spec fn starts_with_escape(s: Seq<char>) -> bool {
    s.len() > 1 && s[0] == '\\'
}

/// Every backslash in `s` takes a character, and there are no carriage returns.
pub open spec fn is_readable(s: Seq<char>) -> bool
    decreases s.len(),
{
    if s.len() == 0 {
        true
    } else if starts_with_escape(s) {
        s[1] != '\r' && is_readable(s.skip(2))
    } else {
        s[0] != '\\' && s[0] != '\r' && is_readable(s.skip(1))
    }
}

/// `c` occurs in `s` without a backslash that takes it.
pub open spec fn has_bare(s: Seq<char>, c: char) -> bool
    decreases s.len(),
{
    if s.len() == 0 {
        false
    } else if starts_with_escape(s) {
        has_bare(s.skip(2), c)
    } else {
        s[0] == c || has_bare(s.skip(1), c)
    }
}

/// How many backslashes in `s` take `c`.
pub open spec fn escapes_of(s: Seq<char>, c: char) -> nat
    decreases s.len(),
{
    if s.len() == 0 {
        0
    } else if starts_with_escape(s) {
        escapes_of(s.skip(2), c) + if s[1] == c {
            1nat
        } else {
            0nat
        }
    } else {
        escapes_of(s.skip(1), c)
    }
}

/// `s` as the content of a literal that `quote` is going to enclose: a bare `quote` gets a
/// backslash, the other quote loses its own if the quotes change, and `\r\n` becomes `\n`. No
/// other escape is touched.
pub open spec fn requoted(s: Seq<char>, quote: QuoteStyle, quotes_change: bool) -> Seq<char>
    decreases s.len(),
{
    if s.len() == 0 {
        seq![]
    } else if starts_with_escape(s) && s[1] != '\r' {
        (if quotes_change && s[1] == quote.opposite().quote_char() {
            seq![s[1]]
        } else {
            seq!['\\', s[1]]
        }) + requoted(s.skip(2), quote, quotes_change)
    } else if s[0] == '\r' && s.len() > 1 && s[1] == '\n' {
        requoted(s.skip(1), quote, quotes_change)
    } else if s[0] == quote.quote_char() {
        seq!['\\', s[0]] + requoted(s.skip(1), quote, quotes_change)
    } else {
        seq![s[0]] + requoted(s.skip(1), quote, quotes_change)
    }
}

/// `requoted` on the bytes of a text.
spec fn requoted_bytes(b: Seq<u8>, quote: QuoteStyle, quotes_change: bool) -> Seq<u8>
    decreases b.len(),
{
    if b.len() == 0 {
        seq![]
    } else if b[0] == '\\' as u8 && b.len() > 1 && b[1] != '\r' as u8 {
        (if quotes_change && b[1] == quote.opposite().quote_char() as u8 {
            seq![b[1]]
        } else {
            seq!['\\' as u8, b[1]]
        }) + requoted_bytes(b.skip(2), quote, quotes_change)
    } else if b[0] == '\r' as u8 && b.len() > 1 && b[1] == '\n' as u8 {
        requoted_bytes(b.skip(1), quote, quotes_change)
    } else if b[0] == quote.quote_char() as u8 {
        seq!['\\' as u8, b[0]] + requoted_bytes(b.skip(1), quote, quotes_change)
    } else {
        seq![b[0]] + requoted_bytes(b.skip(1), quote, quotes_change)
    }
}

/// Bytes that are not ASCII stay.
proof fn lemma_requoted_bytes_pass(
    a: Seq<u8>,
    b: Seq<u8>,
    quote: QuoteStyle,
    quotes_change: bool,
)
    requires
        forall|i: int| 0 <= i < a.len() ==> a[i] >= 0x80,
    ensures
        requoted_bytes(a + b, quote, quotes_change) == a + requoted_bytes(b, quote, quotes_change),
    decreases a.len(),
{
    if a.len() == 0 {
        assert(a + b =~= b);
        assert(a + requoted_bytes(b, quote, quotes_change) =~= requoted_bytes(
            b,
            quote,
            quotes_change,
        ));
    } else {
        let rest = a.skip(1);
        assert((a + b).skip(1) =~= rest + b);
        lemma_requoted_bytes_pass(rest, b, quote, quotes_change);
        assert(seq![a[0]] + (rest + requoted_bytes(b, quote, quotes_change)) =~= a
            + requoted_bytes(b, quote, quotes_change));
    }
}

/// The first byte of a text, where the text starts with an ASCII character, and only there, is
/// that character.
proof fn lemma_first_byte(s: Seq<char>, c: char)
    requires
        is_ascii_char(c),
    ensures
        encode_utf8(s).len() > 0 <==> s.len() > 0,
        s.len() > 0 ==> (encode_utf8(s)[0] == c as u8 <==> s[0] == c),
        s.len() > 0 && is_ascii_char(s[0]) ==> encode_utf8(s).skip(1) == encode_utf8(s.skip(1)),
{
    lemma_encode_scalar(c);
    if s.len() > 0 {
        lemma_encode_scalar(s[0]);
        assert(s.skip(1) =~= s.drop_first());
        if is_ascii_char(s[0]) {
            assert(encode_utf8(s).skip(1) =~= encode_utf8(s.skip(1)));
        }
    }
}

/// Requoting the bytes of a text requotes the text.
proof fn lemma_requoted_encoded(s: Seq<char>, quote: QuoteStyle, quotes_change: bool)
    ensures
        requoted_bytes(encode_utf8(s), quote, quotes_change) == encode_utf8(
            requoted(s, quote, quotes_change),
        ),
    decreases s.len(),
{
    let b = encode_utf8(s);
    if s.len() > 0 {
        let rest = s.skip(1);
        let first = encode_scalar(s[0] as u32);
        lemma_encode_scalar(s[0]);
        lemma_encode_scalar('\\');
        lemma_first_byte(s, '\\');
        lemma_first_byte(s, '\r');
        lemma_first_byte(s, '"');
        lemma_first_byte(s, '\'');
        lemma_first_byte(rest, '\r');
        lemma_first_byte(rest, '\n');
        lemma_first_byte(rest, '"');
        lemma_first_byte(rest, '\'');
        lemma_requoted_encoded(rest, quote, quotes_change);
        lemma_encode_one(s[0]);
        lemma_encode_one('\\');
        let tail = requoted(rest, quote, quotes_change);
        lemma_encode_concat(seq![s[0]], tail);
        if !is_ascii_char(s[0]) {
            assert(s.drop_first() =~= rest);
            lemma_requoted_bytes_pass(first, encode_utf8(rest), quote, quotes_change);
        } else {
            assert(b =~= seq![s[0] as u8] + encode_utf8(rest));
            if rest.len() > 0 {
                assert(b[1] == encode_utf8(rest)[0]);
            }
            if starts_with_escape(s) && s[1] != '\r' {
                let after = s.skip(2);
                let e = s[1];
                assert(rest.skip(1) =~= after);
                lemma_requoted_encoded(after, quote, quotes_change);
                lemma_encode_scalar(e);
                lemma_encode_one(e);
                let kept = requoted(after, quote, quotes_change);
                lemma_encode_concat(seq![e], kept);
                lemma_encode_concat(seq!['\\'], seq![e] + kept);
                assert(seq!['\\', e] + kept =~= seq!['\\'] + (seq![e] + kept));
                assert(rest.drop_first() =~= after);
                if is_ascii_char(e) {
                    assert(b.skip(2) =~= encode_utf8(after));
                } else {
                    let bytes = encode_scalar(e as u32);
                    assert(b.skip(2) =~= bytes.skip(1) + encode_utf8(after));
                    lemma_requoted_bytes_pass(
                        bytes.skip(1),
                        encode_utf8(after),
                        quote,
                        quotes_change,
                    );
                    assert(b[1] == bytes[0]);
                }
                assert(requoted_bytes(b, quote, quotes_change) =~= encode_utf8(
                    requoted(s, quote, quotes_change),
                ));
            } else {
                lemma_encode_concat(seq!['\\'], seq![s[0]] + tail);
                assert(seq!['\\', s[0]] + tail =~= seq!['\\'] + (seq![s[0]] + tail));
                assert(b.skip(1) =~= encode_utf8(rest));
                assert(requoted_bytes(b, quote, quotes_change) =~= encode_utf8(
                    requoted(s, quote, quotes_change),
                ));
            }
        }
    }
}

/// The encoding of a text of one character.
proof fn lemma_encode_one(c: char)
    ensures
        encode_utf8(seq![c]) == encode_scalar(c as u32),
{
    assert(seq![c].drop_first() =~= seq![]);
    assert(encode_utf8(seq![c].drop_first()) =~= seq![]);
    assert(encode_utf8(seq![c]) =~= encode_scalar(c as u32));
}

/// Prepares the content of a literal for the quote that is going to enclose it:
///
/// - escapes the bare preferred quotes;
/// - unescapes the other quotes if the quotes change;
/// - replaces `\r\n` by `\n`.
///
/// A new text is allocated only if something changes.
pub fn normalize_string<'a>(
    raw_content: &'a str,
    preferred_quote: QuoteStyle,
    quotes_will_change: bool,
) -> (r: Cow<'a, str>)
    ensures
        r@ == requoted(raw_content@, preferred_quote, quotes_will_change),
        r is Borrowed <==> r@ == raw_content@,
{
    let alternate: u8 = preferred_quote.other().as_byte();
    let preferred: u8 = preferred_quote.as_byte();
    let bytes = raw_content.as_bytes();
    let n: usize = bytes.len();
    let ghost goal = requoted_bytes(bytes@, preferred_quote, quotes_will_change);
    let mut reduced = String::new();
    let mut copy_start: usize = 0;
    let mut changed: bool = false;
    let mut i: usize = 0;
    proof {
        assert(encode_utf8(reduced@) =~= seq![]);
        assert(bytes@.skip(0) =~= bytes@);
        assert(encode_utf8(reduced@) + bytes@.subrange(0, 0) + goal =~= goal);
        reveal_strlit("\\");
        assert("\\"@ =~= seq!['\\']);
        lemma_encode_one('\\');
        lemma_encode_scalar('\\');
    }
    while i < n
        invariant
            copy_start <= i <= n,
            n == bytes@.len(),
            bytes@ == encode_utf8(raw_content@),
            alternate == preferred_quote.opposite().quote_char() as u8,
            preferred == preferred_quote.quote_char() as u8,
            goal == requoted_bytes(bytes@, preferred_quote, quotes_will_change),
            encode_utf8("\\"@) == seq!['\\' as u8],
            copy_start < n ==> !is_continuation_byte(bytes@[copy_start as int]) || copy_start == 0,
            encode_utf8(reduced@) + bytes@.subrange(copy_start as int, i as int) + requoted_bytes(
                bytes@.skip(i as int),
                preferred_quote,
                quotes_will_change,
            ) == goal,
            changed ==> goal != bytes@,
            !changed ==> copy_start == 0 && encode_utf8(reduced@).len() == 0,
        decreases n - i,
    {
        let ghost here = bytes@.skip(i as int);
        let ghost done = encode_utf8(reduced@);
        let ghost pending = bytes@.subrange(copy_start as int, i as int);
        let byte: u8 = bytes[i];
        proof {
            assert(here[0] == byte);
            assert(here.len() > 1 ==> here[1] == bytes@[i + 1]);
            assert(here.skip(1) =~= bytes@.skip(i + 1));
            if here.len() > 1 {
                assert(here.skip(2) =~= bytes@.skip(i + 2));
            }
        }
        if byte == '\\' as u8 && i + 1 < n && bytes[i + 1] != '\r' as u8 {
            if quotes_will_change && bytes[i + 1] == alternate {
                let chunk = byte_range(raw_content, copy_start, i);
                proof {
                    lemma_encode_concat(reduced@, chunk@);
                    assert(!changed ==> goal[i as int] == alternate);
                    assert(goal =~= done + pending + bytes@.subrange(i + 1, i + 2)
                        + requoted_bytes(
                        bytes@.skip(i + 2),
                        preferred_quote,
                        quotes_will_change,
                    ));
                }
                reduced.append(chunk);
                copy_start = i + 1;
                changed = true;
            } else {
                proof {
                    assert(bytes@.subrange(copy_start as int, i + 2) =~= pending + seq![
                        byte,
                        bytes@[i + 1],
                    ]);
                    assert(goal =~= done + bytes@.subrange(copy_start as int, i + 2)
                        + requoted_bytes(
                        bytes@.skip(i + 2),
                        preferred_quote,
                        quotes_will_change,
                    ));
                }
            }
            i = i + 2;
        } else if byte == '\r' as u8 && i + 1 < n && bytes[i + 1] == '\n' as u8 {
            let chunk = byte_range(raw_content, copy_start, i);
            proof {
                lemma_encode_concat(reduced@, chunk@);
                let rest = bytes@.skip(i + 1);
                assert(rest[0] == '\n' as u8);
                assert(requoted_bytes(rest, preferred_quote, quotes_will_change)[0] == '\n' as u8);
                assert(!changed ==> goal[i as int] == '\n' as u8);
                assert(goal =~= done + pending + bytes@.subrange(i + 1, i + 1) + requoted_bytes(
                    rest,
                    preferred_quote,
                    quotes_will_change,
                ));
            }
            reduced.append(chunk);
            copy_start = i + 1;
            changed = true;
            i = i + 1;
        } else if byte == preferred {
            let chunk = byte_range(raw_content, copy_start, i);
            proof {
                lemma_encode_concat(reduced@, chunk@);
                lemma_encode_concat(reduced@ + chunk@, "\\"@);
                assert(!changed ==> goal[i as int] == '\\' as u8);
                assert(goal =~= done + pending + seq!['\\' as u8] + bytes@.subrange(
                    i as int,
                    i + 1,
                ) + requoted_bytes(bytes@.skip(i + 1), preferred_quote, quotes_will_change));
            }
            reduced.append(chunk);
            reduced.append("\\");
            copy_start = i;
            changed = true;
            i = i + 1;
        } else {
            proof {
                assert(bytes@.subrange(copy_start as int, i + 1) =~= pending + seq![byte]);
                assert(goal =~= done + bytes@.subrange(copy_start as int, i + 1) + requoted_bytes(
                    bytes@.skip(i + 1),
                    preferred_quote,
                    quotes_will_change,
                ));
            }
            i = i + 1;
        }
    }
    proof {
        lemma_requoted_encoded(raw_content@, preferred_quote, quotes_will_change);
        assert(bytes@.skip(n as int) =~= seq![]);
        assert(goal =~= encode_utf8(reduced@) + bytes@.subrange(copy_start as int, n as int));
    }
    if changed {
        let chunk = byte_range(raw_content, copy_start, n);
        proof {
            lemma_encode_concat(reduced@, chunk@);
        }
        reduced.append(chunk);
        proof {
            lemma_encode_injective(
                reduced@,
                requoted(raw_content@, preferred_quote, quotes_will_change),
            );
        }
        Cow::Owned(reduced)
    } else {
        proof {
            assert(bytes@.subrange(0, n as int) =~= bytes@);
            lemma_encode_injective(
                raw_content@,
                requoted(raw_content@, preferred_quote, quotes_will_change),
            );
        }
        Cow::Borrowed(raw_content)
    }
}

} // verus!
