use vstd::hash_set::StringHashSet;
use vstd::prelude::*;

verus! {

/// Surface forms that never count, held as given (already case-folded).
pub struct StopwordSet {
    words: StringHashSet,
}

impl View for StopwordSet {
    type V = Set<Seq<char>>;

    closed spec fn view(&self) -> Set<Seq<char>> {
        self.words@
    }
}

impl StopwordSet {
    /// An empty set: stopword filtering does nothing.
    pub fn new() -> (r: Self)
        ensures
            r@ == Set::<Seq<char>>::empty(),
    {
        StopwordSet { words: StringHashSet::new() }
    }

    /// Adds one stopword verbatim.
    pub fn insert(&mut self, w: String)
        ensures
            final(self)@ == old(self)@.insert(w@),
    {
        self.words.insert(w);
    }

    /// Whether `w` is a stopword; the test is exact and case-sensitive.
    pub fn contains(&self, w: &str) -> (r: bool)
        ensures
            r == self@.contains(w@),
    {
        self.words.contains(w)
    }

    /// The set of the lines of a stopword source, each taken verbatim.
    pub fn from_lines(lines: &Vec<String>) -> (r: Self)
        ensures
            r@ == lines@.map_values(|l: String| l@).to_set(),
    {
        let ghost lv = lines@.map_values(|l: String| l@);
        let mut r = StopwordSet::new();
        let mut i: usize = 0;
        while i < lines.len()
            invariant
                i <= lines@.len(),
                lv == lines@.map_values(|l: String| l@),
                r@ == lv.subrange(0, i as int).to_set(),
            decreases lines@.len() - i,
        {
            let ghost pre = lv.subrange(0, i as int);
            let ghost next = lv.subrange(0, i + 1);
            r.insert(lines[i].clone());
            assert(next =~= pre.push(lv[i as int]));
            assert(r@ =~= next.to_set()) by {
                assert forall|w: Seq<char>| next.to_set().contains(w) implies r@.contains(w) by {
                    let k = choose|k: int| 0 <= k < next.len() && next[k] == w;
                    if k < i {
                        assert(pre[k] == w);
                    }
                }
                assert forall|w: Seq<char>| r@.contains(w) implies next.to_set().contains(w) by {
                    if w != lv[i as int] {
                        let k = choose|k: int| 0 <= k < pre.len() && pre[k] == w;
                        assert(next[k] == w);
                    } else {
                        assert(next[i as int] == w);
                    }
                }
            }
            i = i + 1;
        }
        assert(lv.subrange(0, lines@.len() as int) =~= lv);
        r
    }
}

} // verus!
