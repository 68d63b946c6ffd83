use crate::dictionary::{dict_entries, entry_of, fields_of};
use crate::pipeline::{accepted, lower_of, stream_tally, stream_tokens, tally};
use crate::policy::skipped_line;
use crate::segmenter::Segmenter;
use crate::policy::noise;
use crate::table::{bump, count_in};
use vstd::prelude::*;

verus! {

/// The number of accepted tokens of `toks` whose lowercase form is `k`.
pub open spec fn hits(toks: Seq<(Seq<char>, Seq<char>)>, stop: Set<Seq<char>>, k: Seq<char>) -> nat
    decreases toks.len(),
{
    if toks.len() == 0 {
        0
    } else {
        let t = toks.last();
        hits(toks.drop_last(), stop, k) + if accepted(t, stop) && lower_of(t.0) == k {
            1nat
        } else {
            0nat
        }
    }
}

/// After a fold, a word's count is its count before plus its accepted
/// occurrences, and it is a key exactly when either is positive.
pub proof fn lemma_tally_count(
    m: Map<Seq<char>, nat>,
    toks: Seq<(Seq<char>, Seq<char>)>,
    stop: Set<Seq<char>>,
    k: Seq<char>,
)
    requires
        forall|w: Seq<char>| #[trigger] m.contains_key(w) ==> m[w] >= 1,
    ensures
        count_in(tally(m, toks, stop), k) == count_in(m, k) + hits(toks, stop, k),
        tally(m, toks, stop).contains_key(k) <==> count_in(m, k) + hits(toks, stop, k) > 0,
    decreases toks.len(),
{
    if toks.len() > 0 {
        lemma_tally_count(m, toks.drop_last(), stop, k);
    }
}

/// Occurrences in two consecutive runs of tokens add up.
pub proof fn lemma_hits_append(
    a: Seq<(Seq<char>, Seq<char>)>,
    b: Seq<(Seq<char>, Seq<char>)>,
    stop: Set<Seq<char>>,
    k: Seq<char>,
)
    ensures
        hits(a + b, stop, k) == hits(a, stop, k) + hits(b, stop, k),
    decreases b.len(),
{
    if b.len() == 0 {
        assert(a + b =~= a);
    } else {
        assert((a + b).drop_last() =~= a + b.drop_last());
        lemma_hits_append(a, b.drop_last(), stop, k);
    }
}

/// Counting a token stream twice over, from an empty table, yields the same
/// words as counting it once, each with exactly twice the count.
pub proof fn law_repeated_stream_doubles(toks: Seq<(Seq<char>, Seq<char>)>, stop: Set<Seq<char>>)
    ensures
        tally(Map::empty(), toks + toks, stop).dom() == tally(Map::empty(), toks, stop).dom(),
        forall|k: Seq<char>| #[trigger]
            tally(Map::empty(), toks, stop).contains_key(k) ==> tally(Map::empty(), toks + toks, stop)[k]
                == 2 * tally(Map::empty(), toks, stop)[k],
{
    let e = Map::<Seq<char>, nat>::empty();
    assert forall|k: Seq<char>|
        tally(e, toks + toks, stop).contains_key(k) == tally(e, toks, stop).contains_key(k) && (
        tally(e, toks, stop).contains_key(k) ==> tally(e, toks + toks, stop)[k] == 2 * tally(
            e,
            toks,
            stop,
        )[k]) by {
        lemma_tally_count(e, toks, stop, k);
        lemma_tally_count(e, toks + toks, stop, k);
        lemma_hits_append(toks, toks, stop, k);
    }
    assert(tally(e, toks + toks, stop).dom() =~= tally(e, toks, stop).dom());
}

/// Folding two consecutive runs of tokens is folding the first, then the second.
pub proof fn lemma_tally_append(
    m: Map<Seq<char>, nat>,
    a: Seq<(Seq<char>, Seq<char>)>,
    b: Seq<(Seq<char>, Seq<char>)>,
    stop: Set<Seq<char>>,
)
    ensures
        tally(m, a + b, stop) == tally(tally(m, a, stop), b, stop),
    decreases b.len(),
{
    if b.len() == 0 {
        assert(a + b =~= a);
    } else {
        assert((a + b).drop_last() =~= a + b.drop_last());
        lemma_tally_append(m, a, b.drop_last(), stop);
    }
}

/// Taking a stream line by line counts exactly the tokens of the stream.
pub proof fn lemma_stream_is_tally(
    seg: Segmenter,
    m: Map<Seq<char>, nat>,
    lines: Seq<Seq<char>>,
    stop: Set<Seq<char>>,
)
    ensures
        stream_tally(seg, m, lines, stop) == tally(m, stream_tokens(seg, lines), stop),
    decreases lines.len(),
{
    if lines.len() > 0 {
        lemma_stream_is_tally(seg, m, lines.drop_last(), stop);
        if !skipped_line(lines.last()) {
            lemma_tally_append(
                m,
                stream_tokens(seg, lines.drop_last()),
                seg.tags_of(lines.last()),
                stop,
            );
        }
    }
}

/// The tokens of two consecutive streams are those of each, in order.
pub proof fn lemma_stream_tokens_append(seg: Segmenter, a: Seq<Seq<char>>, b: Seq<Seq<char>>)
    ensures
        stream_tokens(seg, a + b) == stream_tokens(seg, a) + stream_tokens(seg, b),
    decreases b.len(),
{
    if b.len() == 0 {
        assert(a + b =~= a);
        assert(stream_tokens(seg, a) + stream_tokens(seg, b) =~= stream_tokens(seg, a));
    } else {
        assert((a + b).drop_last() =~= a + b.drop_last());
        lemma_stream_tokens_append(seg, a, b.drop_last());
        assert((a + b).last() == b.last());
        if !skipped_line(b.last()) {
            assert(stream_tokens(seg, a) + stream_tokens(seg, b) =~= (stream_tokens(seg, a)
                + stream_tokens(seg, b.drop_last())) + seg.tags_of(b.last()));
        }
    }
}

/// With the vocabulary fixed, taking a stream of lines twice over, from an
/// empty table, yields the same words as taking it once, each with exactly
/// twice the count: every line is segmented on its own, so the seam between
/// the two copies changes nothing.
pub proof fn law_repeated_lines_double(seg: Segmenter, lines: Seq<Seq<char>>, stop: Set<Seq<char>>)
    ensures
        stream_tally(seg, Map::empty(), lines + lines, stop).dom() == stream_tally(
            seg,
            Map::empty(),
            lines,
            stop,
        ).dom(),
        forall|k: Seq<char>| #[trigger]
            stream_tally(seg, Map::empty(), lines, stop).contains_key(k) ==> stream_tally(
                seg,
                Map::empty(),
                lines + lines,
                stop,
            )[k] == 2 * stream_tally(seg, Map::empty(), lines, stop)[k],
{
    let e = Map::<Seq<char>, nat>::empty();
    lemma_stream_is_tally(seg, e, lines, stop);
    lemma_stream_is_tally(seg, e, lines + lines, stop);
    lemma_stream_tokens_append(seg, lines, lines);
    law_repeated_stream_doubles(stream_tokens(seg, lines), stop);
}

/// A word that every one of its tokens brings in as noise (a noise tag, or
/// longer than the limit) never becomes a key.
pub proof fn law_noise_never_counted(
    m: Map<Seq<char>, nat>,
    toks: Seq<(Seq<char>, Seq<char>)>,
    stop: Set<Seq<char>>,
    k: Seq<char>,
)
    requires
        !m.contains_key(k),
        forall|i: int|
            0 <= i < toks.len() && lower_of(#[trigger] toks[i].0) == k ==> noise(
                toks[i].1,
                toks[i].0.len(),
            ),
    ensures
        !tally(m, toks, stop).contains_key(k),
    decreases toks.len(),
{
    if toks.len() > 0 {
        let p = toks.drop_last();
        assert forall|i: int|
            0 <= i < p.len() && lower_of(#[trigger] p[i].0) == k implies noise(
                p[i].1,
                p[i].0.len(),
            ) by {
            assert(p[i] == toks[i]);
        }
        law_noise_never_counted(m, p, stop, k);
        assert(toks.last() == toks[toks.len() - 1]);
    }
}

/// A stopword never becomes a key, however often it is segmented.
pub proof fn law_stopwords_never_counted(
    m: Map<Seq<char>, nat>,
    toks: Seq<(Seq<char>, Seq<char>)>,
    stop: Set<Seq<char>>,
    k: Seq<char>,
)
    requires
        !m.contains_key(k),
        stop.contains(k),
    ensures
        !tally(m, toks, stop).contains_key(k),
    decreases toks.len(),
{
    if toks.len() > 0 {
        law_stopwords_never_counted(m, toks.drop_last(), stop, k);
    }
}

/// Every word that a fold adds as a key is the lowercase form of one of the
/// accepted tokens.
pub proof fn law_keys_come_from_accepted_tokens(
    m: Map<Seq<char>, nat>,
    toks: Seq<(Seq<char>, Seq<char>)>,
    stop: Set<Seq<char>>,
    k: Seq<char>,
)
    requires
        !m.contains_key(k),
        tally(m, toks, stop).contains_key(k),
    ensures
        exists|i: int| 0 <= i < toks.len() && accepted(#[trigger] toks[i], stop) && lower_of(toks[i].0) == k,
    decreases toks.len(),
{
    let p = toks.drop_last();
    let t = toks.last();
    if accepted(t, stop) && lower_of(t.0) == k {
        assert(toks[toks.len() - 1] == t);
    } else {
        assert(tally(m, p, stop).contains_key(k));
        law_keys_come_from_accepted_tokens(m, p, stop, k);
        let i = choose|i: int| 0 <= i < p.len() && accepted(#[trigger] p[i], stop) && lower_of(p[i].0) == k;
        assert(toks[i] == p[i]);
    }
}

/// Two accepted surface forms with the same lowercase form, such as `Word`
/// and `word`, are counted under that one key, together.
pub proof fn law_case_variants_share_key(
    m: Map<Seq<char>, nat>,
    a: (Seq<char>, Seq<char>),
    b: (Seq<char>, Seq<char>),
    stop: Set<Seq<char>>,
)
    requires
        accepted(a, stop),
        accepted(b, stop),
        lower_of(a.0) == lower_of(b.0),
    ensures
        count_in(tally(m, seq![a, b], stop), lower_of(a.0)) == count_in(m, lower_of(a.0)) + 2,
{
    let k = lower_of(a.0);
    assert(seq![a, b].drop_last() =~= seq![a]);
    assert(seq![a].drop_last() =~= Seq::<(Seq<char>, Seq<char>)>::empty());
    assert(tally(m, Seq::empty(), stop) == m);
    assert(tally(m, seq![a], stop) == bump(m, k));
    assert(tally(m, seq![a, b], stop) == bump(bump(m, k), k));
}

/// The entries of two consecutive dictionary sources are those of each, in order.
pub proof fn lemma_dict_entries_append(a: Seq<Seq<char>>, b: Seq<Seq<char>>)
    ensures
        dict_entries(a + b) == dict_entries(a) + dict_entries(b),
    decreases b.len(),
{
    if b.len() == 0 {
        assert(a + b =~= a);
        assert(dict_entries(a) + dict_entries(b) =~= dict_entries(a));
    } else {
        assert((a + b).drop_last() =~= a + b.drop_last());
        lemma_dict_entries_append(a, b.drop_last());
        assert((a + b).last() == b.last());
        match entry_of(fields_of(b.last())) {
            Some(e) => {
                assert(dict_entries(a) + dict_entries(b) =~= (dict_entries(a) + dict_entries(
                    b.drop_last(),
                )).push(e));
            },
            None => {},
        }
    }
}

/// A malformed line among well-formed ones takes nothing away: every
/// well-formed entry around it is still registered, in order.
pub proof fn law_malformed_line_skipped(a: Seq<Seq<char>>, bad: Seq<char>, b: Seq<Seq<char>>)
    requires
        entry_of(fields_of(bad)) is None,
    ensures
        dict_entries(a.push(bad) + b) == dict_entries(a) + dict_entries(b),
{
    lemma_dict_entries_append(a.push(bad), b);
    assert(a.push(bad).drop_last() =~= a);
}

} // verus!
