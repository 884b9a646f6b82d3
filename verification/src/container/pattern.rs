//! Prefix patterns: the regular expressions `^<word>(.*)` by which a statistic
//! is told to belong to a controller family.

use regex::Regex;
use vstd::prelude::*;

verus! {

/// Whether a pattern takes `c` for itself: a lower-case ASCII letter, a digit
/// or an underscore.
pub open spec fn is_word_char(c: char) -> bool {
    ('a' <= c && c <= 'z') || ('0' <= c && c <= '9') || c == '_'
}

/// The part of a prefix pattern between its leading `^` and its closing
/// `(.*)`.
pub open spec fn word_of(pattern: Seq<char>) -> Seq<char> {
    pattern.subrange(1, pattern.len() - 4)
}

/// Whether `pattern` is `^<word>(.*)` with a word of at most 32 characters,
/// each of them taken for itself.
pub open spec fn is_prefix_pattern(pattern: Seq<char>) -> bool {
    &&& 5 <= pattern.len() <= 37
    &&& pattern[0] == '^'
    &&& pattern.subrange(pattern.len() - 4, pattern.len() as int) == seq!['(', '.', '*', ')']
    &&& forall|i: int| 0 <= i < word_of(pattern).len() ==> is_word_char(#[trigger] word_of(pattern)[i])
}

/// The pattern `^<word>(.*)`.
pub open spec fn prefix_pattern(word: Seq<char>) -> Seq<char> {
    seq!['^'] + word + seq!['(', '.', '*', ')']
}

/// Whether each character of `word` is taken for itself, and the word is short
/// enough for a prefix pattern.
pub open spec fn is_word(word: Seq<char>) -> bool {
    &&& word.len() <= 32
    &&& forall|i: int| 0 <= i < word.len() ==> is_word_char(#[trigger] word[i])
}

/// The pattern made from a word is a prefix pattern, and its word is the one
/// it was made from.
pub proof fn lemma_prefix_pattern(word: Seq<char>)
    requires
        is_word(word),
    ensures
        is_prefix_pattern(prefix_pattern(word)),
        word_of(prefix_pattern(word)) == word,
{
    let pattern = prefix_pattern(word);
    assert(word_of(pattern) =~= word);
    assert(pattern.subrange(pattern.len() - 4, pattern.len() as int) =~= seq!['(', '.', '*', ')']);
}

/// Compiles `pattern` with `regex::Regex::new` and asks `Regex::is_match`
/// whether it matches anywhere in `text`; `None` where the pattern does not
/// compile.
///
/// Trusted, not proved. The contract speaks of prefix patterns only: such a
/// pattern compiles, its `^` matches at the beginning of the text and nowhere
/// else, each character of the word matches itself, and `(.*)` matches what
/// follows, the empty rest included. So the answer is whether the text begins
/// with the word. Of other patterns nothing is claimed.
#[verifier::external_body]
pub(crate) fn is_match(pattern: &str, text: &str) -> (found: Option<bool>)
    ensures
        is_prefix_pattern(pattern@) ==> found == Some(word_of(pattern@).is_prefix_of(text@)),
{
    match Regex::new(pattern) {
        Ok(re) => Some(re.is_match(text)),
        Err(_) => None,
    }
}

} // verus!
