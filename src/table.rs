use vstd::hash_map::StringHashMap;
use vstd::prelude::*;

verus! {

/// The number of times `w` occurs in `m` (zero when it is absent).
pub open spec fn count_in(m: Map<Seq<char>, nat>, w: Seq<char>) -> nat {
    if m.contains_key(w) {
        m[w]
    } else {
        0
    }
}

/// One more occurrence of `w`: inserted at 1, or incremented.
pub open spec fn bump(m: Map<Seq<char>, nat>, w: Seq<char>) -> Map<Seq<char>, nat> {
    m.insert(w, count_in(m, w) + 1)
}

/// A mapping from normalized words to occurrence counts, with insert-or-
/// increment and a running total of all recorded occurrences.
pub struct FrequencyTable {
    counts: StringHashMap<u64>,
    keys: Vec<String>,
    total: u64,
}

impl View for FrequencyTable {
    type V = Map<Seq<char>, nat>;

    closed spec fn view(&self) -> Map<Seq<char>, nat> {
        Map::new(|k: Seq<char>| self.counts@.contains_key(k), |k: Seq<char>| self.counts@[k] as nat)
    }
}

impl FrequencyTable {
    /// Every key is listed once in `keys`, every count is at least one and
    /// at most the total.
    pub closed spec fn wf(&self) -> bool {
        &&& forall|i: int|
            0 <= i < self.keys@.len() ==> #[trigger] self.counts@.contains_key(self.keys@[i]@)
        &&& forall|i: int, j: int|
            0 <= i < self.keys@.len() && 0 <= j < self.keys@.len() && i != j
                ==> #[trigger] self.keys@[i]@ != #[trigger] self.keys@[j]@
        &&& forall|k: Seq<char>| #[trigger]
            self.counts@.contains_key(k) ==> exists|i: int|
                0 <= i < self.keys@.len() && #[trigger] self.keys@[i]@ == k
        &&& forall|k: Seq<char>| #[trigger]
            self.counts@.contains_key(k) ==> 1 <= self.counts@[k] <= self.total
    }

    /// The number of occurrences recorded so far.
    pub closed spec fn total_spec(&self) -> nat {
        self.total as nat
    }

    /// An empty table.
    pub fn new() -> (r: Self)
        ensures
            r.wf(),
            r@ == Map::<Seq<char>, nat>::empty(),
            r.total_spec() == 0,
    {
        let r = FrequencyTable { counts: StringHashMap::new(), keys: Vec::new(), total: 0 };
        assert(r@ =~= Map::<Seq<char>, nat>::empty());
        r
    }

    /// The number of occurrences recorded so far.
    pub fn total(&self) -> (r: u64)
        ensures
            r as nat == self.total_spec(),
    {
        self.total
    }

    /// The number of distinct words.
    pub fn len(&self) -> (r: usize)
        requires
            self.wf(),
        ensures
            r == self@.len(),
    {
        proof {
            self.lemma_keys_cover();
        }
        self.keys.len()
    }

    /// How often `w` was recorded; zero when never.
    pub fn count(&self, w: &str) -> (r: u64)
        ensures
            r as nat == count_in(self@, w@),
    {
        match self.counts.get(w) {
            Some(c) => *c,
            None => 0,
        }
    }

    /// Records one occurrence of `w`.
    pub fn record(&mut self, w: String)
        requires
            old(self).wf(),
            old(self).total_spec() < u64::MAX,
        ensures
            final(self).wf(),
            final(self)@ == bump(old(self)@, w@),
            final(self).total_spec() == old(self).total_spec() + 1,
    {
        let ghost old_keys = self.keys@;
        let ghost wv = w@;
        self.total = self.total + 1;
        match self.counts.get(w.as_str()) {
            Some(c) => {
                let n: u64 = *c + 1;
                self.counts.insert(w, n);
                assert forall|k: Seq<char>| #[trigger]
                    self.counts@.contains_key(k) implies exists|i: int|
                        0 <= i < self.keys@.len() && #[trigger] self.keys@[i]@ == k by {
                    assert(old(self).counts@.contains_key(k));
                    let i = choose|i: int| 0 <= i < old_keys.len() && #[trigger] old_keys[i]@ == k;
                    assert(self.keys@[i]@ == k);
                }
            },
            None => {
                let k = w.clone();
                self.counts.insert(w, 1);
                self.keys.push(k);
                assert(self.keys@[old_keys.len() as int]@ == wv);
                assert forall|i: int, j: int|
                    0 <= i < self.keys@.len() && 0 <= j < self.keys@.len() && i != j
                        implies #[trigger] self.keys@[i]@ != #[trigger] self.keys@[j]@ by {
                    if i < old_keys.len() {
                        assert(old(self).counts@.contains_key(old_keys[i]@));
                    }
                    if j < old_keys.len() {
                        assert(old(self).counts@.contains_key(old_keys[j]@));
                    }
                }
                assert forall|i: int|
                    0 <= i < self.keys@.len() implies #[trigger] self.counts@.contains_key(
                        self.keys@[i]@) by {
                    if i < old_keys.len() {
                        assert(old(self).counts@.contains_key(old_keys[i]@));
                    }
                }
                assert forall|k: Seq<char>| #[trigger]
                    self.counts@.contains_key(k) implies exists|i: int|
                        0 <= i < self.keys@.len() && #[trigger] self.keys@[i]@ == k by {
                    if k != wv {
                        let i = choose|i: int| 0 <= i < old_keys.len() && #[trigger] old_keys[i]@ == k;
                        assert(self.keys@[i]@ == k);
                    }
                }
            },
        }
        assert forall|k: Seq<char>| #[trigger]
            self.counts@.contains_key(k) implies 1 <= self.counts@[k] <= self.total by {
            if k != wv {
                assert(old(self).counts@.contains_key(k));
            }
        }
        assert(self@ =~= bump(old(self)@, wv));
    }

    /// Every recorded word with its count, each once, in no fixed order.
    pub fn entries(&self) -> (r: Vec<(String, u64)>)
        requires
            self.wf(),
        ensures
            r@.len() == self@.len(),
            forall|i: int|
                0 <= i < r@.len() ==> #[trigger] self@.contains_key(r@[i].0@) && self@[r@[i].0@]
                    == r@[i].1 as nat,
            forall|i: int, j: int|
                0 <= i < r@.len() && 0 <= j < r@.len() && i != j ==> #[trigger] r@[i].0@
                    != #[trigger] r@[j].0@,
    {
        proof {
            self.lemma_keys_cover();
        }
        let mut r: Vec<(String, u64)> = Vec::new();
        let mut i: usize = 0;
        while i < self.keys.len()
            invariant
                self.wf(),
                i <= self.keys@.len(),
                r@.len() == i,
                forall|j: int| 0 <= j < i ==> #[trigger] r@[j].0@ == self.keys@[j]@,
                forall|j: int|
                    0 <= j < i ==> self.counts@.contains_key(#[trigger] r@[j].0@)
                        && self.counts@[r@[j].0@] == r@[j].1,
            decreases self.keys@.len() - i,
        {
            let k = &self.keys[i];
            let c = match self.counts.get(k.as_str()) {
                Some(c) => *c,
                None => 0,
            };
            r.push((k.clone(), c));
            i = i + 1;
        }
        r
    }

    /// The keys list and the map's domain hold the same words.
    proof fn lemma_keys_cover(&self)
        requires
            self.wf(),
        ensures
            self.keys@.len() == self@.len(),
    {
        let ks = self.keys@.map_values(|s: String| s@);
        assert forall|i: int, j: int| 0 <= i < ks.len() && 0 <= j < ks.len() && i != j implies ks[i]
            != ks[j] by {
            assert(ks[i] == self.keys@[i]@);
            assert(ks[j] == self.keys@[j]@);
        }
        assert(ks.no_duplicates());
        ks.unique_seq_to_set();
        assert forall|k: Seq<char>| ks.to_set().contains(k) <==> self@.dom().contains(k) by {
            if self@.dom().contains(k) {
                let i = choose|i: int| 0 <= i < self.keys@.len() && #[trigger] self.keys@[i]@ == k;
                assert(ks[i] == k);
            }
            if ks.to_set().contains(k) {
                let i = choose|i: int| 0 <= i < ks.len() && ks[i] == k;
                assert(self.keys@[i]@ == k);
            }
        }
        assert(ks.to_set() =~= self@.dom());
    }
}

} // verus!
