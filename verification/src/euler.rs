//! Writing Euler's number out before an expression reaches the parser.

use vstd::prelude::*;
use vstd::string::*;

verus! {

/// The decimal expansion that stands for the letter `e` in an expression.
pub const EULER: &'static str = "2.7182818284590452353602874713527";

/// What one character of an entry text becomes: the digits of `EULER` for `e`, itself otherwise.
pub open spec fn euler_char(c: char) -> Seq<char> {
    if c == 'e' {
        EULER@
    } else {
        seq![c]
    }
}

/// The text handed to the parser: `s` with every `e` replaced by the digits of `EULER`.
pub open spec fn euler_substituted(s: Seq<char>) -> Seq<char>
    decreases s.len(),
{
    if s.len() == 0 {
        Seq::empty()
    } else {
        euler_substituted(s.drop_last()) + euler_char(s.last())
    }
}

/// Replaces every `e` in `text` by the digits of `EULER`.
pub fn substitute_euler(text: &str) -> (out: String)
    ensures
        out@ == euler_substituted(text@),
{
    let mut out = String::new();
    for c in it: text.chars()
        invariant
            it.seq() == text@,
            out@ == euler_substituted(text@.take(it.index())),
    {
        proof {
            let done = text@.take(it.index() + 1);
            assert(done.drop_last() == text@.take(it.index()));
            assert(done.last() == c);
        }
        if c == 'e' {
            out.append(EULER);
        } else {
            out.push(c);
        }
    }
    proof {
        assert(text@.take(text@.len() as int) == text@);
    }
    out
}

/// What the parser is asked to compile for an entry text: nothing for an empty text, which
/// stands for "no function", and otherwise the text with Euler's number written out.
pub open spec fn parse_source(text: Seq<char>) -> Option<Seq<char>> {
    if text.len() == 0 {
        None
    } else {
        Some(euler_substituted(text))
    }
}

/// Says whether `text` is to be parsed, and hands back what the parser is to read.
pub fn parse_request(text: &str) -> (source: Option<String>)
    ensures
        match source {
            Some(s) => parse_source(text@) == Some(s@),
            None => parse_source(text@) is None,
        },
{
    if text.is_empty() {
        None
    } else {
        Some(substitute_euler(text))
    }
}

/// The digits of `EULER` hold no `e`.
pub proof fn lemma_euler_digits()
    ensures
        EULER@.len() == 33,
        !EULER@.contains('e'),
{
    reveal_strlit("2.7182818284590452353602874713527");
    assert forall|i: int| 0 <= i < EULER@.len() implies EULER@[i] != 'e' by {}
}

/// A text without `e` reaches the parser as it was typed.
pub proof fn lemma_without_e_unchanged(s: Seq<char>)
    requires
        !s.contains('e'),
    ensures
        euler_substituted(s) == s,
    decreases s.len(),
{
    if s.len() > 0 {
        assert(s.contains(s.last()));
        assert forall|c: char| s.drop_last().contains(c) implies s.contains(c) by {
            let i = choose|i: int| 0 <= i < s.drop_last().len() && s.drop_last()[i] == c;
            assert(s[i] == c);
        }
        lemma_without_e_unchanged(s.drop_last());
        assert(s.drop_last() + seq![s.last()] == s);
    }
}

/// A text that is not empty and holds no `e` is handed to the parser as it was typed.
pub proof fn lemma_plain_text_parsed_as_typed(s: Seq<char>)
    requires
        s.len() > 0,
        !s.contains('e'),
    ensures
        parse_source(s) == Some(s),
{
    lemma_without_e_unchanged(s);
}

/// The text `e` alone reaches the parser as the digits of `EULER`.
pub proof fn lemma_single_e()
    ensures
        euler_substituted(seq!['e']) == EULER@,
{
    let s = seq!['e'];
    assert(s.drop_last().len() == 0);
    assert(euler_substituted(s.drop_last()) == Seq::<char>::empty());
    assert(Seq::<char>::empty() + EULER@ == EULER@);
}

/// Every `e` is replaced, wherever it stands: none is left in what the parser reads.
pub proof fn lemma_substituted_has_no_e(s: Seq<char>)
    ensures
        !euler_substituted(s).contains('e'),
    decreases s.len(),
{
    if s.len() > 0 {
        lemma_substituted_has_no_e(s.drop_last());
        lemma_euler_digits();
        let head = euler_substituted(s.drop_last());
        let tail = euler_char(s.last());
        assert(!tail.contains('e')) by {
            if s.last() != 'e' {
                assert forall|i: int| 0 <= i < tail.len() implies tail[i] != 'e' by {}
            }
        }
        assert forall|i: int| 0 <= i < (head + tail).len() implies (head + tail)[i] != 'e' by {
            if i < head.len() {
                assert(head.contains(head[i]));
            } else {
                assert(tail.contains(tail[i - head.len()]));
            }
        }
    }
}

} // verus!
