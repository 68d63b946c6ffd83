use jieba_rs::Jieba;
use vstd::prelude::*;

verus! {

#[verifier::external_type_specification]
#[verifier::external_body]
pub struct ExJieba(Jieba);

/// Relies on jieba_rs::Jieba::new: a segmenter with the default vocabulary.
pub assume_specification[ Jieba::new ]() -> Jieba;

/// The segmenter after a request to register `word` with `tag`.
pub uninterp spec fn with_word(j: Jieba, word: Seq<char>, tag: Seq<char>) -> Jieba;

/// The (word, tag) pairs that segmenter `j` makes of `line`, left to right.
pub uninterp spec fn tagged_of(j: Jieba, line: Seq<char>) -> Seq<(Seq<char>, Seq<char>)>;

/// Relies on jieba_rs::Jieba::add_word: a request to register `word` with
/// `tag` and a suggested frequency; the new state depends on the old one
/// and on the word and tag alone.
#[verifier::external_body]
fn register_word(jieba: &mut Jieba, word: &str, tag: &str)
    ensures
        *final(jieba) == with_word(*old(jieba), word@, tag@),
{
    jieba.add_word(word, None, Some(tag));
}

/// Relies on jieba_rs::Jieba::tag with the hidden Markov model on: the
/// tagged words of `line`, left to right, as (word, tag) pairs, which depend
/// on the segmenter's state and the line alone.
#[verifier::external_body]
fn tag_words(jieba: &Jieba, line: &str) -> (r: Vec<(String, String)>)
    ensures
        r@.map_values(|p: (String, String)| (p.0@, p.1@)) == tagged_of(*jieba, line@),
{
    jieba.tag(line, true).into_iter().map(|t| (t.word.to_string(), t.tag.to_string())).collect()
}

/// A (word, tag) pair of a user dictionary.
pub struct DictEntry {
    pub word: String,
    pub tag: String,
}

/// The segmenter after requests to register each of `entries`, in order.
pub open spec fn with_entries(j: Jieba, entries: Seq<(Seq<char>, Seq<char>)>) -> Jieba
    decreases entries.len(),
{
    if entries.len() == 0 {
        j
    } else {
        let e = entries.last();
        with_word(with_entries(j, entries.drop_last()), e.0, e.1)
    }
}

/// The segmenter, owned explicitly and passed to whoever segments.
pub struct Segmenter {
    jieba: Jieba,
}

impl Segmenter {
    /// The segmenter's vocabulary state.
    pub closed spec fn vocab(&self) -> Jieba {
        self.jieba
    }

    /// The (word, tag) pairs that this segmenter makes of `line`.
    pub closed spec fn tags_of(&self, line: Seq<char>) -> Seq<(Seq<char>, Seq<char>)> {
        tagged_of(self.jieba, line)
    }

    /// A segmenter with the default vocabulary only.
    pub fn new() -> (r: Self) {
        Segmenter { jieba: Jieba::new() }
    }

    /// Requests the registration of one dictionary entry.
    pub fn add_entry(&mut self, entry: &DictEntry)
        ensures
            final(self).vocab() == with_word(old(self).vocab(), entry.word@, entry.tag@),
    {
        register_word(&mut self.jieba, entry.word.as_str(), entry.tag.as_str());
    }

    /// Segments and tags one line with the current vocabulary.
    pub fn tag_line(&self, line: &str) -> (r: Vec<(String, String)>)
        ensures
            r@.map_values(|p: (String, String)| (p.0@, p.1@)) == self.tags_of(line@),
    {
        tag_words(&self.jieba, line)
    }
}

} // verus!
