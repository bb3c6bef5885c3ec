//! Writing values into the text of a query.

use vstd::prelude::*;
use crate::like::Like;
use crate::text::push_char;

verus! {

/// `s` with each `quote` in it doubled.
pub open spec fn doubled(s: Seq<char>, quote: char) -> Seq<char>
    decreases s.len(),
{
    if s.len() == 0 {
        s
    } else if s.last() == quote {
        doubled(s.drop_last(), quote).push(quote).push(quote)
    } else {
        doubled(s.drop_last(), quote).push(s.last())
    }
}

/// `s` between two `quote`s, with each `quote` in it doubled.
pub open spec fn quoted(s: Seq<char>, quote: char) -> Seq<char> {
    seq![quote] + doubled(s, quote) + seq![quote]
}

/// The text of a comparison with the pattern `pattern` in a query.
pub open spec fn like_expression(pattern: Seq<char>) -> Seq<char> {
    "LIKE "@ + quoted(pattern, '\'')
}

/// `s` as a string literal of a query: between single quotes, with each
/// single quote in it doubled, so that nothing in `s` ends the literal.
pub fn escape_string_literal(s: &str) -> (out: String)
    ensures
        out@ == quoted(s@, '\''),
{
    wrap_and_escape(s, '\'')
}

/// The comparison with `like` as it stands in a query.
pub fn make_like_expression(like: &Like) -> (out: String)
    ensures
        out@ == like_expression(like@),
{
    let mut out = String::from_str("LIKE ");
    out.append(escape_string_literal(like.as_str()).as_str());
    out
}

/// `s` between two `quote`s, with each `quote` in it doubled.
pub fn wrap_and_escape(s: &str, quote: char) -> (out: String)
    ensures
        out@ == quoted(s@, quote),
{
    let mut buffer = String::new();
    push_char(&mut buffer, quote);
    for c in iter: s.chars()
        invariant
            iter.seq() == s@,
            buffer@ == seq![quote] + doubled(s@.take(iter.index() as int), quote),
    {
        proof {
            let i = iter.index() as int;
            assert(s@.take(i + 1).drop_last() == s@.take(i));
            assert(s@.take(i + 1).last() == c);
        }
        if c == quote {
            push_char(&mut buffer, c);
        }
        push_char(&mut buffer, c);
    }
    proof {
        assert(s@.take(s@.len() as int) == s@);
    }
    push_char(&mut buffer, quote);
    buffer
}

/// What a reader of queries takes for a string literal at the start of
/// `text`: the value of the literal, and where it ends. The literal begins
/// with `quote` and goes on to the first `quote` that no second one follows;
/// two in a row stand for one in the value.
pub open spec fn read_literal(text: Seq<char>, quote: char) -> Option<(Seq<char>, int)> {
    if text.len() == 0 || text[0] != quote {
        None
    } else {
        read_body(text, quote, 1)
    }
}

/// The rest of a literal from position `at` on: its value, and where it
/// ends.
pub open spec fn read_body(text: Seq<char>, quote: char, at: int) -> Option<(Seq<char>, int)>
    decreases text.len() - at,
{
    if at < 0 || at >= text.len() {
        None
    } else if text[at] != quote {
        match read_body(text, quote, at + 1) {
            Some((value, end)) => Some((seq![text[at]] + value, end)),
            None => None,
        }
    } else if at + 1 < text.len() && text[at + 1] == quote {
        match read_body(text, quote, at + 2) {
            Some((value, end)) => Some((seq![quote] + value, end)),
            None => None,
        }
    } else {
        Some((Seq::empty(), at + 1))
    }
}

/// Doubling the quotes of a text goes character by character.
pub proof fn lemma_doubled_from_front(c: char, s: Seq<char>, quote: char)
    ensures
        doubled(seq![c] + s, quote) == if c == quote {
            seq![quote, quote] + doubled(s, quote)
        } else {
            seq![c] + doubled(s, quote)
        },
    decreases s.len(),
{
    let whole = seq![c] + s;
    if s.len() == 0 {
        assert(whole.drop_last() =~= Seq::<char>::empty());
        assert(doubled(whole.drop_last(), quote) =~= Seq::<char>::empty());
        if c == quote {
            assert(doubled(whole, quote) =~= seq![quote, quote] + doubled(s, quote));
        } else {
            assert(doubled(whole, quote) =~= seq![c] + doubled(s, quote));
        }
    } else {
        assert(whole.drop_last() =~= seq![c] + s.drop_last());
        assert(whole.last() == s.last());
        lemma_doubled_from_front(c, s.drop_last(), quote);
        let head = if c == quote {
            seq![quote, quote]
        } else {
            seq![c]
        };
        let inner = doubled(s.drop_last(), quote);
        if s.last() == quote {
            assert((head + inner).push(quote).push(quote) =~= head + inner.push(quote).push(quote));
        } else {
            assert((head + inner).push(s.last()) =~= head + inner.push(s.last()));
        }
    }
}

/// Whatever a text holds, its literal reads back as that text and ends
/// where it was closed: nothing in the text can end the literal early or
/// reach beyond it.
pub proof fn lemma_literal_reads_back(s: Seq<char>, quote: char, rest: Seq<char>)
    requires
        rest.len() == 0 || rest[0] != quote,
    ensures
        read_literal(quoted(s, quote) + rest, quote) == Some((s, quoted(s, quote).len() as int)),
{
    lemma_body_reads_back(seq![quote], s, quote, rest);
}

/// The same of the body of a literal that follows `before`.
proof fn lemma_body_reads_back(before: Seq<char>, s: Seq<char>, quote: char, rest: Seq<char>)
    requires
        rest.len() == 0 || rest[0] != quote,
    ensures
        read_body(before + doubled(s, quote) + seq![quote] + rest, quote, before.len() as int)
            == Some((s, (before.len() + doubled(s, quote).len() + 1) as int)),
    decreases s.len(),
{
    let text = before + doubled(s, quote) + seq![quote] + rest;
    let at = before.len() as int;
    if s.len() == 0 {
        assert(text[at] == quote);
        if at + 1 < text.len() {
            assert(text[at + 1] == rest[0]);
        }
        assert(s =~= Seq::<char>::empty());
    } else {
        let c = s[0];
        let tail = s.drop_first();
        assert(s =~= seq![c] + tail);
        lemma_doubled_from_front(c, tail, quote);
        if c == quote {
            let next = before + seq![quote, quote];
            assert(text =~= next + doubled(tail, quote) + seq![quote] + rest);
            assert(text[at] == quote);
            assert(text[at + 1] == quote);
            lemma_body_reads_back(next, tail, quote, rest);
            assert(seq![quote] + tail =~= s);
        } else {
            let next = before + seq![c];
            assert(text =~= next + doubled(tail, quote) + seq![quote] + rest);
            assert(text[at] == c);
            lemma_body_reads_back(next, tail, quote, rest);
            assert(seq![text[at]] + tail =~= s);
        }
    }
}

} // verus!
