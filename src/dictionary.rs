use crate::segmenter::{with_entries, DictEntry, Segmenter};
use vstd::prelude::*;

verus! {

/// A character with the Unicode property White_Space.
pub open spec fn is_white_space(c: char) -> bool {
    ('\u{9}' <= c && c <= '\u{d}') || c == ' ' || c == '\u{85}' || c == '\u{a0}' || c
        == '\u{1680}' || ('\u{2000}' <= c && c <= '\u{200a}') || c == '\u{2028}' || c
        == '\u{2029}' || c == '\u{202f}' || c == '\u{205f}' || c == '\u{3000}'
}

/// The maximal runs of characters that are not white space, in order: a
/// character that is no white space extends the last field when the one
/// before it is no white space either, and starts a new field otherwise.
pub open spec fn fields_of(line: Seq<char>) -> Seq<Seq<char>>
    decreases line.len(),
{
    if line.len() == 0 {
        Seq::empty()
    } else {
        let prev = fields_of(line.drop_last());
        let c = line.last();
        if is_white_space(c) {
            prev
        } else if line.len() >= 2 && !is_white_space(line[line.len() - 2]) && prev.len() > 0 {
            prev.update(prev.len() - 1, prev.last().push(c))
        } else {
            prev.push(seq![c])
        }
    }
}

/// Relies on str::split_whitespace: the sub-slices of `line` separated by
/// any amount of White_Space characters, in order, with none at either end.
#[verifier::external_body]
fn split_fields(line: &str) -> (r: Vec<String>)
    ensures
        r@.map_values(|f: String| f@) == fields_of(line@),
{
    line.split_whitespace().map(|f| f.to_string()).collect()
}

/// Why a dictionary line was not registered.
#[derive(Debug, PartialEq, Eq, Structural)]
pub enum DictError {
    /// The line has fewer than two fields: no word and tag.
    MalformedLine,
}

/// The entry that a line with fields `fields` stands for: its first field
/// is the word and its second the tag; further fields are ignored.
pub open spec fn entry_of(fields: Seq<Seq<char>>) -> Option<(Seq<char>, Seq<char>)> {
    if fields.len() >= 2 {
        Some((fields[0], fields[1]))
    } else {
        None
    }
}

/// The entries that a dictionary source registers, in order: one for each
/// well-formed line, none for a malformed one.
pub open spec fn dict_entries(lines: Seq<Seq<char>>) -> Seq<(Seq<char>, Seq<char>)>
    decreases lines.len(),
{
    if lines.len() == 0 {
        Seq::empty()
    } else {
        let prev = dict_entries(lines.drop_last());
        match entry_of(fields_of(lines.last())) {
            Some(e) => prev.push(e),
            None => prev,
        }
    }
}

/// The positions of the malformed lines of a dictionary source, in order.
pub open spec fn malformed_lines(lines: Seq<Seq<char>>) -> Seq<int>
    decreases lines.len(),
{
    if lines.len() == 0 {
        Seq::empty()
    } else {
        let prev = malformed_lines(lines.drop_last());
        match entry_of(fields_of(lines.last())) {
            Some(_) => prev,
            None => prev.push(lines.len() - 1),
        }
    }
}

/// Builds the entry from the fields of a dictionary line.
pub fn entry_from_fields(fields: Vec<String>) -> (r: Result<DictEntry, DictError>)
    ensures
        match entry_of(fields@.map_values(|f: String| f@)) {
            Some(e) => r matches Ok(d) && d.word@ == e.0 && d.tag@ == e.1,
            None => r == Err::<DictEntry, DictError>(DictError::MalformedLine),
        },
{
    let ghost fv = fields@.map_values(|f: String| f@);
    if fields.len() < 2 {
        return Err(DictError::MalformedLine);
    }
    let mut fields = fields;
    fields.truncate(2);
    let tag = fields.pop().unwrap();
    let word = fields.pop().unwrap();
    assert(fv[0] == word@);
    Ok(DictEntry { word, tag })
}

/// Parses one dictionary line: a word and its tag, separated by whitespace.
pub fn parse_entry(line: &str) -> (r: Result<DictEntry, DictError>)
    ensures
        match entry_of(fields_of(line@)) {
            Some(e) => r matches Ok(d) && d.word@ == e.0 && d.tag@ == e.1,
            None => r == Err::<DictEntry, DictError>(DictError::MalformedLine),
        },
{
    entry_from_fields(split_fields(line))
}

/// Requests the registration of each entry of a dictionary source into
/// `seg`, in order. A malformed line is skipped and the load goes on; the
/// positions of those lines are returned.
pub fn load_dictionary(seg: &mut Segmenter, lines: &Vec<String>) -> (r: Vec<usize>)
    ensures
        final(seg).vocab() == with_entries(
            old(seg).vocab(),
            dict_entries(lines@.map_values(|l: String| l@)),
        ),
        r@.map_values(|i: usize| i as int) == malformed_lines(lines@.map_values(|l: String| l@)),
{
    let ghost lv = lines@.map_values(|l: String| l@);
    let mut bad: Vec<usize> = Vec::new();
    let mut i: usize = 0;
    while i < lines.len()
        invariant
            i <= lines@.len(),
            lv == lines@.map_values(|l: String| l@),
            seg.vocab() == with_entries(old(seg).vocab(), dict_entries(lv.subrange(0, i as int))),
            bad@.map_values(|j: usize| j as int) == malformed_lines(lv.subrange(0, i as int)),
        decreases lines@.len() - i,
    {
        let ghost pre = lv.subrange(0, i as int);
        let ghost next = lv.subrange(0, i + 1);
        assert(next.drop_last() =~= pre);
        assert(next.last() == lines@[i as int]@);
        match parse_entry(lines[i].as_str()) {
            Ok(e) => {
                seg.add_entry(&e);
                assert(dict_entries(next).drop_last() =~= dict_entries(pre));
            },
            Err(_) => {
                bad.push(i);
                assert(bad@.map_values(|j: usize| j as int) =~= malformed_lines(next));
            },
        }
        i = i + 1;
    }
    assert(lv.subrange(0, lines@.len() as int) =~= lv);
    bad
}

} // verus!
