//! Text without the white space at its two ends.

use vstd::prelude::*;
use vstd::string::StrSliceExecFns;

verus! {

/// Whether a character is white space, as `char::is_whitespace` has it.
pub uninterp spec fn white(c: char) -> bool;

/// `char::is_whitespace`: whether the character has the Unicode property
/// `White_Space`. The answer is named, not spelled out.
#[verifier::external_body]
fn is_white(c: char) -> (r: bool)
    ensures
        r == white(c),
{
    c.is_whitespace()
}

/// The text without the white space at its end.
pub open spec fn strip_end(text: Seq<char>) -> Seq<char>
    decreases text.len(),
{
    if text.len() > 0 && white(text.last()) {
        strip_end(text.drop_last())
    } else {
        text
    }
}

/// The text without the white space at its start.
pub open spec fn strip_start(text: Seq<char>) -> Seq<char>
    decreases text.len(),
{
    if text.len() > 0 && white(text.first()) {
        strip_start(text.drop_first())
    } else {
        text
    }
}

/// The text without the white space at its two ends.
pub open spec fn trimmed(text: Seq<char>) -> Seq<char> {
    strip_start(strip_end(text))
}

/// Stripping takes a stretch out of the text: nothing is added, and
/// nothing but white space is left out.
pub proof fn lemma_strip_end(text: Seq<char>)
    ensures
        strip_end(text).len() <= text.len(),
        strip_end(text) == text.take(strip_end(text).len() as int),
        strip_end(text).len() > 0 ==> !white(strip_end(text).last()),
        forall|i: int| strip_end(text).len() <= i < text.len() ==> white(#[trigger] text[i]),
    decreases text.len(),
{
    if text.len() > 0 && white(text.last()) {
        lemma_strip_end(text.drop_last());
        let rest = strip_end(text.drop_last());
        assert forall|i: int| rest.len() <= i < text.len() implies white(#[trigger] text[i]) by {
            if i < text.len() - 1 {
                assert(text.drop_last()[i] == text[i]);
            }
        }
    }
}

/// Stripping takes a stretch out of the text: nothing is added, and
/// nothing but white space is left out.
pub proof fn lemma_strip_start(text: Seq<char>)
    ensures
        strip_start(text).len() <= text.len(),
        strip_start(text) == text.skip(text.len() - strip_start(text).len()),
        strip_start(text).len() > 0 ==> !white(strip_start(text).first()),
        forall|i: int| 0 <= i < text.len() - strip_start(text).len() ==> white(#[trigger] text[i]),
    decreases text.len(),
{
    if text.len() > 0 && white(text.first()) {
        lemma_strip_start(text.drop_first());
        let rest = strip_start(text.drop_first());
        assert forall|i: int| 0 <= i < text.len() - rest.len() implies white(#[trigger] text[i]) by {
            if i > 0 {
                assert(text.drop_first()[i - 1] == text[i]);
            }
        }
    }
}

/// What is left of a text is never longer than the text, begins and ends
/// with a character that is not white space, and is empty where the text
/// is all white space.
pub proof fn lemma_trimmed(text: Seq<char>)
    ensures
        trimmed(text).len() <= text.len(),
        trimmed(text).len() > 0 ==> !white(trimmed(text).first()) && !white(trimmed(text).last()),
        (forall|i: int| 0 <= i < text.len() ==> white(#[trigger] text[i])) ==> trimmed(text).len()
            == 0,
        trimmed(trimmed(text)) == trimmed(text),
{
    lemma_strip_end(text);
    lemma_strip_start(strip_end(text));
}

/// The characters of a text.
fn to_chars(text: &str) -> (chars: Vec<char>)
    ensures
        chars@ == text@,
{
    let mut chars: Vec<char> = Vec::new();
    for c in it: text.chars()
        invariant
            it.seq() == text@,
            chars@ == it.seq().take(it.index() as int),
    {
        chars.push(c);
    }
    chars
}

/// The text without the white space at its two ends.
pub fn trim(text: &str) -> (r: String)
    ensures
        r@ == trimmed(text@),
{
    let chars = to_chars(text);
    let mut end: usize = chars.len();
    proof {
        assert(text@.take(end as int) =~= text@);
    }
    while end > 0 && is_white(chars[end - 1])
        invariant
            0 <= end <= chars.len(),
            chars@ == text@,
            strip_end(text@) == strip_end(text@.take(end as int)),
        decreases end,
    {
        proof {
            assert(text@.take(end as int).drop_last() =~= text@.take(end - 1));
        }
        end -= 1;
    }
    let ghost cut = text@.take(end as int);
    let mut start: usize = 0;
    proof {
        assert(cut.skip(0) =~= cut);
    }
    while start < end && is_white(chars[start])
        invariant
            0 <= start <= end <= chars.len(),
            chars@ == text@,
            cut == text@.take(end as int),
            strip_start(cut) == strip_start(cut.skip(start as int)),
        decreases end - start,
    {
        proof {
            assert(cut.skip(start as int).drop_first() =~= cut.skip(start + 1));
        }
        start += 1;
    }
    text.substring_char(start, end).to_owned()
}

} // verus!
