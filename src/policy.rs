use vstd::prelude::*;
use vstd::string::StrSliceExecFns;

verus! {

/// Longest surface form, in characters, that still counts as vocabulary.
pub const MAX_WORD_LEN: usize = 21;

/// The part-of-speech tags whose tokens never count as vocabulary: adverbs,
/// locative nouns, punctuation, prepositions, time words, classifiers,
/// numeral-quantifiers, person names, pronouns, conjunctions, other function
/// words and the particles `u*`. The tags `e`, `zg` and `y` are not explained
/// by the tag set's documentation; they are in the list because testing
/// showed that their words are not wanted (`e` and `y` look like modal
/// particles).
pub open spec fn is_noise_tag(t: Seq<char>) -> bool {
    t == seq!['d'] || t == seq!['f'] || t == seq!['x'] || t == seq!['p'] || t == seq!['t']
        || t == seq!['q'] || t == seq!['m'] || t == seq!['n', 'r'] || t == seq!['r']
        || t == seq!['c'] || t == seq!['e'] || t == seq!['x', 'c'] || t == seq!['z', 'g']
        || t == seq!['y'] || t == seq!['u', 'j'] || t == seq!['u', 'g'] || t == seq!['u', 'l']
        || t == seq!['u', 'd']
}

/// A token is noise when its tag is a noise tag or its surface form is
/// longer than `MAX_WORD_LEN` characters.
pub open spec fn noise(tag: Seq<char>, word_len: nat) -> bool {
    is_noise_tag(tag) || word_len > MAX_WORD_LEN
}

/// An input line that is never segmented: empty, or a `/` comment.
pub open spec fn skipped_line(line: Seq<char>) -> bool {
    line.len() == 0 || line[0] == '/'
}

/// Decides whether a token with tag `tag` and a surface form of `word_len`
/// characters is rejected.
pub fn is_noise(tag: &str, word_len: usize) -> (r: bool)
    ensures
        r == noise(tag@, word_len as nat),
{
    if word_len > MAX_WORD_LEN {
        return true;
    }
    let n = tag.unicode_len();
    if n == 1 {
        let c = tag.get_char(0);
        assert(tag@ =~= seq![c]);
        c == 'd' || c == 'f' || c == 'x' || c == 'p' || c == 't' || c == 'q' || c == 'm'
            || c == 'r' || c == 'c' || c == 'e' || c == 'y'
    } else if n == 2 {
        let a = tag.get_char(0);
        let b = tag.get_char(1);
        assert(tag@ =~= seq![a, b]);
        (a == 'n' && b == 'r') || (a == 'x' && b == 'c') || (a == 'z' && b == 'g') || (a == 'u'
            && (b == 'j' || b == 'g' || b == 'l' || b == 'd'))
    } else {
        false
    }
}

/// Decides whether an input line is skipped without segmentation.
pub fn is_skipped_line(line: &str) -> (r: bool)
    ensures
        r == skipped_line(line@),
{
    line.unicode_len() == 0 || line.get_char(0) == '/'
}

} // verus!
