//! What holds of the content of a literal when other quotes enclose it.

use vstd::prelude::*;

use crate::escape::is_readable;
use crate::escape::requoted;
use crate::quote::QuoteStyle;

verus! {

/// The characters of `s`, each with whether a backslash takes it. Backslashes that take a
/// character are not among them.
pub open spec fn units(s: Seq<char>) -> Seq<(char, bool)>
    decreases s.len(),
{
    if s.len() == 0 {
        seq![]
    } else if s[0] == '\\' && s.len() > 1 {
        seq![(s[1], true)] + units(s.skip(2))
    } else {
        seq![(s[0], false)] + units(s.skip(1))
    }
}

/// `c` is neither a backslash nor a carriage return.
pub open spec fn is_kept_char(c: char) -> bool {
    c != '\\' && c != '\r'
}

/// Every carriage return in `s` is part of a line end `\r\n`.
pub open spec fn has_whole_line_ends(s: Seq<char>) -> bool {
    forall|i: int|
        0 <= i < s.len() && #[trigger] s[i] == '\r' ==> i + 1 < s.len() && s[i + 1] == '\n'
}

/// `s` without carriage returns.
pub open spec fn without_carriage_returns(s: Seq<char>) -> Seq<char> {
    s.filter(|c: char| c != '\r')
}

/// Two contents with the same characters, each with or without its backslash, are the same.
pub proof fn law_units_make_the_content(a: Seq<char>, b: Seq<char>)
    requires
        is_readable(a),
        is_readable(b),
        units(a) == units(b),
    ensures
        a == b,
    decreases a.len(),
{
    if a.len() > 0 && b.len() > 0 {
        let x = units(a);
        let y = units(b);
        assert(x[0] == y[0]);
        let n: int = if x[0].1 {
            2
        } else {
            1
        };
        assert(units(a.skip(n)) =~= x.skip(1));
        assert(units(b.skip(n)) =~= y.skip(1));
        law_units_make_the_content(a.skip(n), b.skip(n));
        assert(a =~= a.take(n) + a.skip(n));
        assert(b =~= b.take(n) + b.skip(n));
        assert(a.take(n) =~= b.take(n));
    } else if a.len() > 0 {
        assert(units(a).len() > 0);
    } else if b.len() > 0 {
        assert(units(b).len() > 0);
    }
}

/// Every character keeps its place. The enclosing quote has a backslash afterwards wherever it
/// occurs; the other quote has none if the quotes change; and every other character has one
/// exactly if it had one before.
pub proof fn law_requoting_decides_each_backslash(
    s: Seq<char>,
    quote: QuoteStyle,
    quotes_change: bool,
)
    requires
        is_readable(s),
    ensures
        is_readable(requoted(s, quote, quotes_change)),
        ({
            let before = units(s);
            let after = units(requoted(s, quote, quotes_change));
            let other = if quote == QuoteStyle::Double {
                '\''
            } else {
                '"'
            };
            &&& after.len() == before.len()
            &&& forall|i: int|
                0 <= i < before.len() ==> {
                    &&& (#[trigger] after[i]).0 == before[i].0
                    &&& after[i].0 == quote.quote_char() ==> after[i].1
                    &&& after[i].0 == other && quotes_change ==> !after[i].1
                    &&& after[i].0 != quote.quote_char() && !(after[i].0 == other && quotes_change)
                        ==> after[i].1 == before[i].1
                }
        }),
    decreases s.len(),
{
    let r = requoted(s, quote, quotes_change);
    if s.len() > 0 {
        let n: int = if s[0] == '\\' {
            2
        } else {
            1
        };
        let tail = requoted(s.skip(n), quote, quotes_change);
        law_requoting_decides_each_backslash(s.skip(n), quote, quotes_change);
        if r.len() == tail.len() + 2 {
            assert(r.skip(2) =~= tail);
        } else {
            assert(r.skip(1) =~= tail);
        }
        let before = units(s);
        let after = units(r);
        assert forall|i: int| 0 < i < before.len() implies before[i] == units(s.skip(n))[i - 1]
            && #[trigger] after[i] == units(tail)[i - 1] by {}
    }
}

/// Requoting a text in which every backslash takes a character, and any text behind it, requotes
/// both.
pub proof fn law_requoting_goes_piece_by_piece(
    a: Seq<char>,
    b: Seq<char>,
    quote: QuoteStyle,
    quotes_change: bool,
)
    requires
        is_readable(a),
    ensures
        requoted(a + b, quote, quotes_change) == requoted(a, quote, quotes_change) + requoted(
            b,
            quote,
            quotes_change,
        ),
    decreases a.len(),
{
    if a.len() == 0 {
        assert(a + b =~= b);
    } else {
        let n: int = if a[0] == '\\' {
            2
        } else {
            1
        };
        assert((a + b).skip(n) =~= a.skip(n) + b);
        law_requoting_goes_piece_by_piece(a.skip(n), b, quote, quotes_change);
    }
    assert(requoted(a + b, quote, quotes_change) =~= requoted(a, quote, quotes_change) + requoted(
        b,
        quote,
        quotes_change,
    ));
}

/// A line end `\r\n` becomes the line end `\n`, and a carriage return without a line feed behind
/// it stays.
pub proof fn law_requoting_line_ends(b: Seq<char>, quote: QuoteStyle, quotes_change: bool)
    ensures
        requoted(seq!['\r', '\n'] + b, quote, quotes_change) == requoted(
            seq!['\n'] + b,
            quote,
            quotes_change,
        ),
        b.len() == 0 || b[0] != '\n' ==> requoted(seq!['\r'] + b, quote, quotes_change)
            == seq!['\r'] + requoted(b, quote, quotes_change),
{
    assert((seq!['\r', '\n'] + b).skip(1) =~= seq!['\n'] + b);
    assert((seq!['\r'] + b).skip(1) =~= b);
}

/// A backslash that takes no character, at the end or before a carriage return, stays.
pub proof fn law_requoting_lone_backslashes(b: Seq<char>, quote: QuoteStyle, quotes_change: bool)
    requires
        b.len() == 0 || b[0] == '\r',
    ensures
        requoted(seq!['\\'] + b, quote, quotes_change) == seq!['\\'] + requoted(
            b,
            quote,
            quotes_change,
        ),
{
    assert((seq!['\\'] + b).skip(1) =~= b);
}

/// Nothing is requoted where there is nothing.
pub proof fn law_requoting_nothing(quote: QuoteStyle, quotes_change: bool)
    ensures
        requoted(seq![], quote, quotes_change).len() == 0,
{
}

/// Whatever the content, its characters stay in order, but for backslashes and carriage returns.
pub proof fn law_requoting_keeps_the_order(s: Seq<char>, quote: QuoteStyle, quotes_change: bool)
    ensures
        requoted(s, quote, quotes_change).filter(|c: char| is_kept_char(c)) == s.filter(
            |c: char| is_kept_char(c),
        ),
    decreases s.len(),
{
    let kept = |c: char| is_kept_char(c);
    let r = requoted(s, quote, quotes_change);
    if s.len() > 0 {
        let n: int = if s[0] == '\\' && s.len() > 1 && s[1] != '\r' {
            2
        } else {
            1
        };
        let tail = requoted(s.skip(n), quote, quotes_change);
        law_requoting_keeps_the_order(s.skip(n), quote, quotes_change);
        let head = r.take(r.len() - tail.len());
        assert(s =~= s.take(n) + s.skip(n));
        assert(r =~= head + tail);
        Seq::filter_distributes_over_add(s.take(n), s.skip(n), kept);
        Seq::filter_distributes_over_add(head, tail, kept);
        lemma_filter_short(s.take(n), kept);
        lemma_filter_short(head, kept);
    } else {
        assert(r =~= s);
    }
}

/// Where every carriage return is part of a line end `\r\n`, requoting gives what it gives of the
/// content with line ends `\n`.
pub proof fn law_requoting_ignores_the_kind_of_line_end(
    s: Seq<char>,
    quote: QuoteStyle,
    quotes_change: bool,
)
    requires
        has_whole_line_ends(s),
    ensures
        requoted(s, quote, quotes_change) == requoted(
            without_carriage_returns(s),
            quote,
            quotes_change,
        ),
    decreases s.len(),
{
    let kept = |c: char| c != '\r';
    if s.len() > 0 {
        let n: int = if s[0] == '\r' || s[0] != '\\' || s.len() == 1 {
            1
        } else if s[1] == '\r' {
            3
        } else {
            2
        };
        assert(s[0] == '\\' && s.len() > 1 && s[1] == '\r' ==> s.len() > 2 && s[2] == '\n');
        let head = s.take(n);
        let rest = s.skip(n);
        assert(s =~= head + rest);
        assert forall|i: int| 0 <= i < rest.len() && #[trigger] rest[i] == '\r' implies i + 1
            < rest.len() && rest[i + 1] == '\n' by {
            assert(s[i + n] == '\r');
        }
        law_requoting_ignores_the_kind_of_line_end(rest, quote, quotes_change);
        Seq::filter_distributes_over_add(head, rest, kept);
        lemma_filter_short(head, kept);
        assert(n == 3 ==> head =~= seq!['\\', '\r', '\n']);
        assert(n == 1 ==> head =~= seq![s[0]]);
        lemma_requoted_line(head, rest, quote, quotes_change);
    } else {
        assert(without_carriage_returns(s) =~= s);
    }
}

/// `head` is a first character, escape or part of a line end, with `rest` behind it.
spec fn is_first_piece(head: Seq<char>, rest: Seq<char>) -> bool {
    ||| head == seq!['\\', '\r', '\n']
    ||| head == seq!['\r'] && rest.len() > 0 && rest[0] == '\n'
    ||| head == seq!['\\'] && rest.len() == 0
    ||| head.len() == 1 && head[0] != '\\' && head[0] != '\r'
    ||| head.len() == 2 && head[0] == '\\' && head[1] != '\r'
}

/// A first line end or character, and the rest with its line ends replaced.
proof fn lemma_requoted_line(
    head: Seq<char>,
    rest: Seq<char>,
    quote: QuoteStyle,
    quotes_change: bool,
)
    requires
        requoted(rest, quote, quotes_change) == requoted(
            without_carriage_returns(rest),
            quote,
            quotes_change,
        ),
        is_first_piece(head, rest),
    ensures
        requoted(head + rest, quote, quotes_change) == requoted(
            head.filter(|c: char| c != '\r') + without_carriage_returns(rest),
            quote,
            quotes_change,
        ),
{
    let kept = |c: char| c != '\r';
    let clean = without_carriage_returns(rest);
    reveal_with_fuel(is_readable, 3);
    lemma_filter_short(head, kept);
    if head.len() == 3 {
        let whole = seq!['\\', '\n'];
        assert(head.filter(kept) =~= whole);
        law_requoting_lone_backslashes(seq!['\r', '\n'] + rest, quote, quotes_change);
        assert(head + rest =~= seq!['\\'] + (seq!['\r', '\n'] + rest));
        law_requoting_line_ends(rest, quote, quotes_change);
        law_requoting_goes_piece_by_piece(seq!['\n'], rest, quote, quotes_change);
        law_requoting_goes_piece_by_piece(whole, clean, quote, quotes_change);
        lemma_requoted_short(seq!['\n'], quote, quotes_change);
        lemma_requoted_short(whole, quote, quotes_change);
        assert(seq!['\\'] + (seq!['\n'] + requoted(rest, quote, quotes_change)) =~= whole
            + requoted(rest, quote, quotes_change));
    } else if head[0] == '\r' {
        let behind = rest.skip(1);
        assert(head.filter(kept) + clean =~= clean);
        assert(head + rest =~= seq!['\r', '\n'] + behind);
        assert(rest =~= seq!['\n'] + behind);
        law_requoting_line_ends(behind, quote, quotes_change);
    } else if rest.len() == 0 {
        reveal(Seq::filter);
        assert(clean =~= rest);
        assert(head.filter(kept) =~= head);
    } else {
        assert(head.filter(kept) =~= head);
        law_requoting_goes_piece_by_piece(head, rest, quote, quotes_change);
        law_requoting_goes_piece_by_piece(head, clean, quote, quotes_change);
    }
}

/// A line feed stays, with or without a backslash.
proof fn lemma_requoted_short(s: Seq<char>, quote: QuoteStyle, quotes_change: bool)
    requires
        s == seq!['\n'] || s == seq!['\\', '\n'],
    ensures
        requoted(s, quote, quotes_change) == s,
{
    assert(requoted(s.skip(s.len() as int), quote, quotes_change) =~= seq![]);
    assert(requoted(s, quote, quotes_change) =~= s);
}

/// Filtering a text of up to three characters.
proof fn lemma_filter_short(s: Seq<char>, kept: spec_fn(char) -> bool)
    requires
        s.len() <= 3,
    ensures
        s.len() == 0 ==> s.filter(kept) == s,
        s.len() == 1 ==> s.filter(kept) == one_if(s[0], kept),
        s.len() == 2 ==> s.filter(kept) == one_if(s[0], kept) + one_if(s[1], kept),
        s.len() == 3 ==> s.filter(kept) == one_if(s[0], kept) + one_if(s[1], kept) + one_if(
            s[2],
            kept,
        ),
    decreases s.len(),
{
    reveal(Seq::filter);
    if s.len() > 0 {
        lemma_filter_short(s.drop_last(), kept);
    }
}

/// `c` alone if it is kept, and nothing otherwise.
spec fn one_if(c: char, kept: spec_fn(char) -> bool) -> Seq<char> {
    if kept(c) {
        seq![c]
    } else {
        seq![]
    }
}

} // verus!
