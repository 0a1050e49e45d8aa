//! Counts of geometries per bucket path, kept in the order of the paths.
use vstd::prelude::*;
use vstd::string::*;

verus! {

/// `a` comes before `b` at position `i`: the two agree before `i`, and at `i`
/// either `a` ends while `b` goes on, or `a` holds the smaller character.
pub open spec fn lt_at(a: Seq<char>, b: Seq<char>, i: int) -> bool {
    &&& 0 <= i <= a.len()
    &&& i <= b.len()
    &&& forall|j: int| 0 <= j < i ==> a[j] == b[j]
    &&& ((i == a.len() && i < b.len()) || (i < a.len() && i < b.len() && (a[i] as u32) < (
    b[i] as u32)))
}

/// The lexicographic order of strings by character code.
pub open spec fn key_lt(a: Seq<char>, b: Seq<char>) -> bool {
    exists|i: int| lt_at(a, b, i)
}

pub proof fn lemma_key_lt_irreflexive(a: Seq<char>)
    ensures
        !key_lt(a, a),
{
}

pub proof fn lemma_key_lt_transitive(a: Seq<char>, b: Seq<char>, c: Seq<char>)
    requires
        key_lt(a, b),
        key_lt(b, c),
    ensures
        key_lt(a, c),
{
    let i = choose|i: int| lt_at(a, b, i);
    let j = choose|j: int| lt_at(b, c, j);
    if i < j {
        assert(lt_at(a, c, i));
    } else if j < i {
        assert(lt_at(a, c, j));
    } else {
        assert(lt_at(a, c, i));
    }
}

/// How two keys compare.
#[derive(Clone, Copy, Debug, PartialEq, Eq, Structural)]
pub enum KeyOrder {
    Less,
    Equal,
    Greater,
}

/// Compares two strings lexicographically by character code.
pub fn compare_keys(a: &str, b: &str) -> (r: KeyOrder)
    ensures
        r == KeyOrder::Less <==> key_lt(a@, b@),
        r == KeyOrder::Equal <==> a@ == b@,
        r == KeyOrder::Greater <==> key_lt(b@, a@),
{
    let n = a.unicode_len();
    let m = b.unicode_len();
    let mut i: usize = 0;
    let mut differs = false;
    while i < n && i < m && !differs
        invariant
            n == a@.len(),
            m == b@.len(),
            i <= n,
            i <= m,
            forall|j: int| 0 <= j < i ==> a@[j] == b@[j],
            differs ==> i < n && i < m && a@[i as int] != b@[i as int],
        decreases n - i + (if differs { 0int } else { 1int }),
    {
        if a.get_char(i) != b.get_char(i) {
            differs = true;
        } else {
            i = i + 1;
        }
    }
    proof {
        lemma_key_lt_irreflexive(a@);
        lemma_key_lt_irreflexive(b@);
        if key_lt(a@, b@) && key_lt(b@, a@) {
            lemma_key_lt_transitive(a@, b@, a@);
        }
    }
    if differs {
        let ca = a.get_char(i) as u32;
        let cb = b.get_char(i) as u32;
        if ca < cb {
            assert(lt_at(a@, b@, i as int));
            KeyOrder::Less
        } else {
            assert(lt_at(b@, a@, i as int));
            KeyOrder::Greater
        }
    } else if i == n && i == m {
        assert(a@ =~= b@);
        KeyOrder::Equal
    } else if i == n {
        assert(lt_at(a@, b@, i as int));
        KeyOrder::Less
    } else {
        assert(lt_at(b@, a@, i as int));
        KeyOrder::Greater
    }
}


/// The count of geometries filed under each bucket path during one run.
/// Counts only ever grow; the paths are kept in lexicographic order.
pub struct StatsAggregator {
    keys: Vec<String>,
    counts: Vec<u64>,
    total: u64,
}

impl View for StatsAggregator {
    type V = Map<Seq<char>, nat>;

    /// Each path that was counted, with its count.
    closed spec fn view(&self) -> Map<Seq<char>, nat> {
        Map::new(
            |k: Seq<char>| exists|i: int| 0 <= i < self.keys@.len() && self.keys@[i]@ == k,
            |k: Seq<char>|
                self.counts@[choose|i: int| 0 <= i < self.keys@.len() && self.keys@[i]@ == k] as nat,
        )
    }
}

impl StatsAggregator {
    /// The paths in strictly increasing order, one count for each, and no
    /// count above the number of increments made.
    pub closed spec fn wf(&self) -> bool {
        &&& self.keys@.len() == self.counts@.len()
        &&& forall|i: int, j: int|
            0 <= i < j < self.keys@.len() ==> key_lt(self.keys@[i]@, self.keys@[j]@)
        &&& forall|i: int| 0 <= i < self.counts@.len() ==> self.counts@[i] <= self.total
    }

    /// The number of increments made so far.
    pub closed spec fn recorded(&self) -> nat {
        self.total as nat
    }

    proof fn lemma_entry(&self, i: int)
        requires
            self.wf(),
            0 <= i < self.keys@.len(),
        ensures
            self@.contains_key(self.keys@[i]@),
            self@[self.keys@[i]@] == self.counts@[i] as nat,
    {
        let k = self.keys@[i]@;
        assert(self@.contains_key(k));
        let j = choose|j: int| 0 <= j < self.keys@.len() && self.keys@[j]@ == k;
        lemma_key_lt_irreflexive(k);
        if j < i {
            assert(key_lt(self.keys@[j]@, self.keys@[i]@));
        } else if i < j {
            assert(key_lt(self.keys@[i]@, self.keys@[j]@));
        }
    }

    /// An empty tally.
    pub fn new() -> (r: Self)
        ensures
            r.wf(),
            r@ == Map::<Seq<char>, nat>::empty(),
            r.recorded() == 0,
    {
        let r = StatsAggregator { keys: Vec::new(), counts: Vec::new(), total: 0 };
        assert(r@ =~= Map::<Seq<char>, nat>::empty());
        r
    }

    /// The number of increments made so far.
    pub fn total(&self) -> (r: u64)
        ensures
            r == self.recorded(),
    {
        self.total
    }

    /// Counts one more geometry under `path`, adding the path with a count of
    /// one if it is new.
    pub fn increment(&mut self, path: String)
        requires
            old(self).wf(),
            old(self).recorded() < u64::MAX,
        ensures
            final(self).wf(),
            final(self).recorded() == old(self).recorded() + 1,
            final(self)@ == old(self)@.insert(
                path@,
                if old(self)@.contains_key(path@) {
                    old(self)@[path@] + 1
                } else {
                    1
                },
            ),
    {
        let ghost pre = *self;
        let n = self.keys.len();
        let mut j: usize = 0;
        let mut stop = false;
        let mut found = false;
        while j < n && !stop
            invariant
                *self == pre,
                pre.wf(),
                n == pre.keys@.len(),
                j <= n,
                forall|m: int| 0 <= m < j ==> key_lt(pre.keys@[m]@, path@),
                found ==> stop,
                stop ==> j < n,
                stop && found ==> pre.keys@[j as int]@ == path@,
                stop && !found ==> key_lt(path@, pre.keys@[j as int]@),
            decreases n - j + (if stop { 0int } else { 1int }),
        {
            match compare_keys(self.keys[j].as_str(), path.as_str()) {
                KeyOrder::Less => {
                    j = j + 1;
                },
                KeyOrder::Equal => {
                    stop = true;
                    found = true;
                },
                KeyOrder::Greater => {
                    stop = true;
                },
            }
        }
        let ghost new_count = if pre@.contains_key(path@) {
            pre@[path@] + 1
        } else {
            1nat
        };
        if found {
            proof {
                pre.lemma_entry(j as int);
            }
            let c = self.counts[j] + 1;
            self.counts.set(j, c);
            self.total = self.total + 1;
            proof {
                assert(self.keys@ == pre.keys@);
                assert forall|a: int, b: int|
                    0 <= a < b < self.keys@.len() implies key_lt(
                    self.keys@[a]@,
                    self.keys@[b]@,
                ) by {
                    assert(key_lt(pre.keys@[a]@, pre.keys@[b]@));
                }
                assert(self.wf());
                assert forall|k: Seq<char>| #[trigger]
                    self@.contains_key(k) implies pre@.contains_key(k) by {
                    let i = choose|i: int| 0 <= i < self.keys@.len() && self.keys@[i]@ == k;
                    pre.lemma_entry(i);
                }
                assert forall|k: Seq<char>| #[trigger]
                    pre@.contains_key(k) implies self@.contains_key(k) && self@[k] == (if k
                    == path@ {
                    new_count
                } else {
                    pre@[k]
                }) by {
                    if k == path@ {
                        self.lemma_entry(j as int);
                    } else {
                        let i = choose|i: int| 0 <= i < pre.keys@.len() && pre.keys@[i]@ == k;
                        pre.lemma_entry(i);
                        self.lemma_entry(i);
                    }
                }
                assert(self@ =~= pre@.insert(path@, new_count));
            }
        } else {
            proof {
                assert forall|m: int| 0 <= m < n implies pre.keys@[m]@ != path@ by {
                    lemma_key_lt_irreflexive(path@);
                    if m >= j {
                        if m > j {
                            lemma_key_lt_transitive(path@, pre.keys@[j as int]@, pre.keys@[m]@);
                        }
                    }
                }
                assert(!pre@.contains_key(path@));
            }
            let ghost p = path@;
            self.keys.insert(j, path);
            self.counts.insert(j, 1);
            self.total = self.total + 1;
            proof {
                assert forall|a: int, b: int|
                    0 <= a < b < self.keys@.len() implies key_lt(
                    self.keys@[a]@,
                    self.keys@[b]@,
                ) by {
                    if b < j {
                        assert(key_lt(pre.keys@[a]@, pre.keys@[b]@));
                    } else if b == j {
                    } else if a < j {
                        assert(key_lt(pre.keys@[a]@, pre.keys@[b - 1]@));
                    } else if a == j {
                        if b - 1 > j {
                            lemma_key_lt_transitive(p, pre.keys@[j as int]@, pre.keys@[b - 1]@);
                        }
                    } else {
                        assert(key_lt(pre.keys@[a - 1]@, pre.keys@[b - 1]@));
                    }
                }
                assert forall|i: int| 0 <= i < self.counts@.len() implies self.counts@[i]
                    <= self.total by {
                    if i < j {
                    } else if i > j {
                        assert(self.counts@[i] == pre.counts@[i - 1]);
                    }
                }
                assert(self.wf());
                assert forall|k: Seq<char>| #[trigger]
                    self@.contains_key(k) implies pre@.insert(p, 1).contains_key(k) by {
                    let i = choose|i: int| 0 <= i < self.keys@.len() && self.keys@[i]@ == k;
                    if i < j {
                        pre.lemma_entry(i);
                    } else if i > j {
                        pre.lemma_entry(i - 1);
                    }
                }
                assert forall|k: Seq<char>| #[trigger]
                    pre@.insert(p, 1).contains_key(k) implies self@.contains_key(k) && self@[k]
                    == pre@.insert(p, 1)[k] by {
                    if k == p {
                        self.lemma_entry(j as int);
                    } else {
                        let i = choose|i: int| 0 <= i < pre.keys@.len() && pre.keys@[i]@ == k;
                        pre.lemma_entry(i);
                        if i < j {
                            self.lemma_entry(i);
                        } else {
                            self.lemma_entry(i + 1);
                        }
                    }
                }
                assert(self@ =~= pre@.insert(p, 1));
            }
        }
    }

    /// Every path with its count, in increasing lexicographic order of the
    /// paths.
    pub fn snapshot(&self) -> (r: Vec<(String, u64)>)
        requires
            self.wf(),
        ensures
            forall|i: int|
                0 <= i < r@.len() ==> #[trigger] self@.contains_key(r@[i].0@) && self@[r@[i].0@]
                    == r@[i].1 as nat,
            forall|k: Seq<char>| #[trigger]
                self@.contains_key(k) ==> exists|i: int| 0 <= i < r@.len() && r@[i].0@ == k,
            forall|i: int, j: int| 0 <= i < j < r@.len() ==> key_lt(r@[i].0@, r@[j].0@),
    {
        let mut r: Vec<(String, u64)> = Vec::new();
        let n = self.keys.len();
        let mut i: usize = 0;
        while i < n
            invariant
                self.wf(),
                n == self.keys@.len(),
                i <= n,
                r@.len() == i,
                forall|m: int| 0 <= m < i ==> #[trigger] r@[m].0@ == self.keys@[m]@,
                forall|m: int| 0 <= m < i ==> #[trigger] r@[m].1 == self.counts@[m],
            decreases n - i,
        {
            let k = self.keys[i].clone();
            let c = self.counts[i];
            r.push((k, c));
            i = i + 1;
        }
        proof {
            assert forall|m: int| 0 <= m < r@.len() implies #[trigger] self@.contains_key(
                r@[m].0@,
            ) && self@[r@[m].0@] == r@[m].1 as nat by {
                self.lemma_entry(m);
            }
            assert forall|k: Seq<char>| #[trigger]
                self@.contains_key(k) implies exists|m: int| 0 <= m < r@.len() && r@[m].0@ == k by {
                let m = choose|m: int| 0 <= m < self.keys@.len() && self.keys@[m]@ == k;
                assert(r@[m].0@ == k);
            }
            assert forall|a: int, b: int| 0 <= a < b < r@.len() implies key_lt(
                r@[a].0@,
                r@[b].0@,
            ) by {
                assert(key_lt(self.keys@[a]@, self.keys@[b]@));
            }
        }
        r
    }
}

} // verus!
