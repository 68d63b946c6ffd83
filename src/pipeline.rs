use crate::policy::{is_noise, is_skipped_line, noise, skipped_line};
use crate::segmenter::Segmenter;
use crate::stopwords::StopwordSet;
use crate::table::{bump, FrequencyTable};
use vstd::prelude::*;
use vstd::string::StrSliceExecFns;

verus! {

/// The lowercase form of a string.
pub uninterp spec fn lower_of(s: Seq<char>) -> Seq<char>;

/// Relies on str::to_lowercase: the lowercase form, which depends on the
/// characters alone; an empty string stays empty.
#[verifier::external_body]
fn fold_case(s: &str) -> (r: String)
    ensures
        r@ == lower_of(s@),
        s@.len() == 0 ==> r@.len() == 0,
{
    s.to_lowercase()
}

/// A tagged token as (surface form, tag).
pub open spec fn token_view(v: Seq<(String, String)>) -> Seq<(Seq<char>, Seq<char>)> {
    v.map_values(|p: (String, String)| (p.0@, p.1@))
}

/// A token counts when it is not noise and its lowercase form is no stopword.
pub open spec fn accepted(tok: (Seq<char>, Seq<char>), stop: Set<Seq<char>>) -> bool {
    !noise(tok.1, tok.0.len()) && !stop.contains(lower_of(tok.0))
}

/// The table after folding the tokens `toks` into `m`, left to right: each
/// accepted token adds one to its lowercase form.
pub open spec fn tally(
    m: Map<Seq<char>, nat>,
    toks: Seq<(Seq<char>, Seq<char>)>,
    stop: Set<Seq<char>>,
) -> Map<Seq<char>, nat>
    decreases toks.len(),
{
    if toks.len() == 0 {
        m
    } else {
        let prev = tally(m, toks.drop_last(), stop);
        let t = toks.last();
        if accepted(t, stop) {
            bump(prev, lower_of(t.0))
        } else {
            prev
        }
    }
}

/// The tokens that a stream of lines brings, in order: nothing for a
/// skipped line, the segmenter's tokens of the line otherwise; each line is
/// segmented on its own.
pub open spec fn stream_tokens(seg: Segmenter, lines: Seq<Seq<char>>) -> Seq<(Seq<char>, Seq<char>)>
    decreases lines.len(),
{
    if lines.len() == 0 {
        Seq::empty()
    } else {
        let prev = stream_tokens(seg, lines.drop_last());
        let l = lines.last();
        if skipped_line(l) {
            prev
        } else {
            prev + seg.tags_of(l)
        }
    }
}

/// The table after `process_line` has taken each of `lines` in turn, from
/// `m`, every call succeeding.
pub open spec fn stream_tally(
    seg: Segmenter,
    m: Map<Seq<char>, nat>,
    lines: Seq<Seq<char>>,
    stop: Set<Seq<char>>,
) -> Map<Seq<char>, nat>
    decreases lines.len(),
{
    if lines.len() == 0 {
        m
    } else {
        let prev = stream_tally(seg, m, lines.drop_last(), stop);
        let l = lines.last();
        if skipped_line(l) {
            prev
        } else {
            tally(prev, seg.tags_of(l), stop)
        }
    }
}

/// Why a line was not counted.
#[derive(Debug, PartialEq, Eq, Structural)]
pub enum CountError {
    /// The running total of counted words would pass `u64::MAX`.
    CountOverflow,
}

/// Counts one already case-folded word unless it is a stopword; returns
/// whether it was counted.
pub fn admit_folded(table: &mut FrequencyTable, folded: String, stop: &StopwordSet) -> (r: bool)
    requires
        old(table).wf(),
        old(table).total_spec() < u64::MAX,
    ensures
        final(table).wf(),
        r == !stop@.contains(folded@),
        r ==> final(table)@ == bump(old(table)@, folded@) && final(table).total_spec()
            == old(table).total_spec() + 1,
        !r ==> final(table)@ == old(table)@ && final(table).total_spec() == old(table).total_spec(),
{
    if stop.contains(folded.as_str()) {
        false
    } else {
        table.record(folded);
        true
    }
}

/// Folds the tagged tokens of one line into `table`.
pub fn count_tokens(table: &mut FrequencyTable, tokens: &Vec<(String, String)>, stop: &StopwordSet)
    requires
        old(table).wf(),
        old(table).total_spec() + tokens@.len() <= u64::MAX,
    ensures
        final(table).wf(),
        final(table)@ == tally(old(table)@, token_view(tokens@), stop@),
        final(table).total_spec() <= old(table).total_spec() + tokens@.len(),
{
    let ghost tv = token_view(tokens@);
    let mut i: usize = 0;
    while i < tokens.len()
        invariant
            i <= tokens@.len(),
            tv == token_view(tokens@),
            table.wf(),
            table@ == tally(old(table)@, tv.subrange(0, i as int), stop@),
            table.total_spec() <= old(table).total_spec() + i,
            old(table).total_spec() + tokens@.len() <= u64::MAX,
        decreases tokens@.len() - i,
    {
        let ghost next = tv.subrange(0, i + 1);
        assert(next.drop_last() =~= tv.subrange(0, i as int));
        assert(next.last() == (tokens@[i as int].0@, tokens@[i as int].1@));
        let word = &tokens[i].0;
        let tag = &tokens[i].1;
        let len = word.as_str().unicode_len();
        if !is_noise(tag.as_str(), len) {
            let folded = fold_case(word.as_str());
            admit_folded(table, folded, stop);
        }
        i = i + 1;
    }
    assert(tv.subrange(0, tokens@.len() as int) =~= tv);
}

/// Processes one input line: an empty or `/` comment line is skipped;
/// another is segmented and its tokens are counted. When the total of
/// counted words would pass `u64::MAX` the table is left as it was.
pub fn process_line(table: &mut FrequencyTable, seg: &Segmenter, line: &str, stop: &StopwordSet)
    -> (r: Result<(), CountError>)
    requires
        old(table).wf(),
    ensures
        final(table).wf(),
        skipped_line(line@) ==> r is Ok && final(table)@ == old(table)@
            && final(table).total_spec() == old(table).total_spec(),
        !skipped_line(line@) ==> (r is Ok <==> old(table).total_spec() + seg.tags_of(line@).len()
            <= u64::MAX),
        !skipped_line(line@) && r is Ok ==> final(table)@ == tally(
            old(table)@,
            seg.tags_of(line@),
            stop@,
        ),
        r is Err ==> final(table)@ == old(table)@ && final(table).total_spec() == old(
            table,
        ).total_spec(),
        r is Err ==> r == Err::<(), CountError>(CountError::CountOverflow),
{
    if is_skipped_line(line) {
        return Ok(());
    }
    let tokens = seg.tag_line(line);
    let ghost toks = token_view(tokens@);
    assert(toks.len() == tokens@.len());
    assert(toks == seg.tags_of(line@));
    let room: u64 = u64::MAX - table.total();
    if tokens.len() as u128 > room as u128 {
        return Err(CountError::CountOverflow);
    }
    count_tokens(table, &tokens, stop);
    Ok(())
}

} // verus!
