//! Lines of input as sequences of characters: white space, trimming, and the
//! quit command.

use vstd::prelude::*;
use vstd::slice::slice_subrange;

verus! {

/// Whether `c` is white space as Unicode defines it (the property
/// `White_Space`): the ASCII controls from tab to carriage return, the space,
/// and the separators and wide spaces beyond ASCII.
pub open spec fn is_whitespace(c: char) -> bool {
    let code = c as u32;
    ||| 0x09 <= code <= 0x0D
    ||| code == 0x20
    ||| code == 0x85
    ||| code == 0xA0
    ||| code == 0x1680
    ||| 0x2000 <= code <= 0x200A
    ||| code == 0x2028
    ||| code == 0x2029
    ||| code == 0x202F
    ||| code == 0x205F
    ||| code == 0x3000
}

/// `s` without its leading white space.
pub open spec fn trimmed_start(s: Seq<char>) -> Seq<char>
    decreases s.len(),
{
    if s.len() > 0 && is_whitespace(s[0]) {
        trimmed_start(s.drop_first())
    } else {
        s
    }
}

/// `s` without its trailing white space.
pub open spec fn trimmed_end(s: Seq<char>) -> Seq<char>
    decreases s.len(),
{
    if s.len() > 0 && is_whitespace(s.last()) {
        trimmed_end(s.drop_last())
    } else {
        s
    }
}

/// `s` without leading and trailing white space.
pub open spec fn trimmed(s: Seq<char>) -> Seq<char> {
    trimmed_end(trimmed_start(s))
}

/// Whether `word` is `exit` in any mix of upper and lower case.
pub open spec fn is_quit_word(word: Seq<char>) -> bool {
    &&& word.len() == 4
    &&& (word[0] == 'e' || word[0] == 'E')
    &&& (word[1] == 'x' || word[1] == 'X')
    &&& (word[2] == 'i' || word[2] == 'I')
    &&& (word[3] == 't' || word[3] == 'T')
}

/// Whether the line `s` asks to end the session: trimmed, it is the quit
/// word.
pub open spec fn is_quit_command(s: Seq<char>) -> bool {
    is_quit_word(trimmed(s))
}

/// What is left after trimming neither begins nor ends with white space.
pub proof fn lemma_trimmed_has_clean_ends(s: Seq<char>)
    ensures
        trimmed(s).len() > 0 ==> !is_whitespace(trimmed(s).first()) && !is_whitespace(
            trimmed(s).last(),
        ),
{
    lemma_trimmed_start_is_suffix(s);
    lemma_trimmed_end_is_prefix(trimmed_start(s));
}

/// Trimming the start leaves a suffix that does not begin with white space.
pub proof fn lemma_trimmed_start_is_suffix(s: Seq<char>)
    ensures
        trimmed_start(s).len() <= s.len(),
        trimmed_start(s) == s.subrange(s.len() - trimmed_start(s).len(), s.len() as int),
        trimmed_start(s).len() > 0 ==> !is_whitespace(trimmed_start(s).first()),
    decreases s.len(),
{
    if s.len() > 0 && is_whitespace(s[0]) {
        let rest = s.drop_first();
        lemma_trimmed_start_is_suffix(rest);
        let kept = trimmed_start(rest).len();
        assert(rest.subrange(rest.len() - kept, rest.len() as int) =~= s.subrange(
            s.len() - kept,
            s.len() as int,
        ));
    } else {
        assert(s.subrange(0, s.len() as int) =~= s);
    }
}

/// Trimming the end leaves a prefix that does not end with white space.
pub proof fn lemma_trimmed_end_is_prefix(s: Seq<char>)
    ensures
        trimmed_end(s).len() <= s.len(),
        trimmed_end(s) == s.take(trimmed_end(s).len() as int),
        trimmed_end(s).len() > 0 ==> !is_whitespace(trimmed_end(s).last()),
        trimmed_end(s).len() > 0 ==> trimmed_end(s).first() == s.first(),
    decreases s.len(),
{
    if s.len() > 0 && is_whitespace(s.last()) {
        let rest = s.drop_last();
        lemma_trimmed_end_is_prefix(rest);
        let kept = trimmed_end(rest).len();
        assert(rest.take(kept as int) =~= s.take(kept as int));
    } else {
        assert(s.take(s.len() as int) =~= s);
    }
}

/// Trimming twice is trimming once.
pub proof fn lemma_trimmed_is_idempotent(s: Seq<char>)
    ensures
        trimmed(trimmed(s)) == trimmed(s),
{
    lemma_trimmed_has_clean_ends(s);
}

/// Tells white space from other characters.
pub fn char_is_whitespace(c: char) -> (yes: bool)
    ensures
        yes == is_whitespace(c),
{
    let code: u32 = c as u32;
    (0x09 <= code && code <= 0x0D) || code == 0x20 || code == 0x85 || code == 0xA0 || code
        == 0x1680 || (0x2000 <= code && code <= 0x200A) || code == 0x2028 || code == 0x2029 || code
        == 0x202F || code == 0x205F || code == 0x3000
}

/// The characters of `text`, in order.
pub fn chars_of(text: &str) -> (out: Vec<char>)
    ensures
        out@ == text@,
{
    let mut out: Vec<char> = Vec::new();
    for c in it: text.chars()
        invariant
            it.seq() == text@,
            out@ == text@.take(it.index()),
    {
        out.push(c);
        proof {
            assert(text@.take(it.index() + 1) =~= text@.take(it.index()).push(c));
        }
    }
    proof {
        assert(text@.take(text@.len() as int) =~= text@);
    }
    out
}

/// The part of `chars` between its leading and its trailing white space.
pub fn trim_chars(chars: &[char]) -> (inner: &[char])
    ensures
        inner@ == trimmed(chars@),
{
    let len = chars.len();
    let mut start: usize = 0;
    proof {
        assert(chars@.subrange(0, len as int) =~= chars@);
    }
    while start < len && char_is_whitespace(chars[start])
        invariant
            start <= len,
            len == chars.len(),
            trimmed_start(chars@.subrange(start as int, len as int)) == trimmed_start(chars@),
        decreases len - start,
    {
        proof {
            assert(chars@.subrange(start as int, len as int).drop_first() =~= chars@.subrange(
                start + 1,
                len as int,
            ));
        }
        start = start + 1;
    }
    let mut end: usize = len;
    while start < end && char_is_whitespace(chars[end - 1])
        invariant
            start <= end <= len,
            len == chars.len(),
            trimmed_start(chars@) == chars@.subrange(start as int, len as int),
            trimmed_end(chars@.subrange(start as int, end as int)) == trimmed(chars@),
        decreases end - start,
    {
        proof {
            assert(chars@.subrange(start as int, end as int).drop_last() =~= chars@.subrange(
                start as int,
                end - 1,
            ));
        }
        end = end - 1;
    }
    slice_subrange(chars, start, end)
}

/// Whether `word` is the quit word: `exit` in any mix of upper and lower
/// case.
pub fn spells_quit(word: &[char]) -> (yes: bool)
    ensures
        yes == is_quit_word(word@),
{
    word.len() == 4 && (word[0] == 'e' || word[0] == 'E') && (word[1] == 'x' || word[1] == 'X')
        && (word[2] == 'i' || word[2] == 'I') && (word[3] == 't' || word[3] == 'T')
}

/// Whether the line `text` asks to end the session: after trimming, the word
/// `exit` in any mix of upper and lower case.
pub fn asks_to_quit(text: &str) -> (yes: bool)
    ensures
        yes == is_quit_command(text@),
{
    let chars = chars_of(text);
    spells_quit(trim_chars(chars.as_slice()))
}

} // verus!
