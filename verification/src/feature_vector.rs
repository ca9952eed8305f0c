//! The depth-weighted feature histogram vectorization produces.
//!
//! A `FeatureVector` maps a feature name to a vector of counts indexed
//! by traversal depth. `tally` increments one count, growing the depth
//! vector as needed.

use vstd::prelude::*;
use vstd::string::StringExecFns;

verus! {

/// The set of names a string vector holds.
pub open spec fn strset(v: Seq<String>) -> Set<Seq<char>> {
    Set::new(|s: Seq<char>| exists|i: int| 0 <= i < v.len() && v[i]@ == s)
}

/// The first position of a name in a list, or a negative answer.
pub open spec fn idx_of(names: Seq<String>, nm: Seq<char>) -> int
    decreases names.len(),
{
    if names.len() == 0 {
        -1
    } else if names[0]@ == nm {
        0
    } else {
        let r = idx_of(names.drop_first(), nm);
        if r < 0 {
            -1
        } else {
            1 + r
        }
    }
}

/// What `idx_of` answers: the first match, or nothing to match.
pub proof fn lemma_idx_of_props(names: Seq<String>, nm: Seq<char>)
    ensures
        idx_of(names, nm) >= 0 ==> idx_of(names, nm) < names.len() && names[idx_of(
            names,
            nm,
        )]@ == nm,
        idx_of(names, nm) >= 0 ==> forall|j: int|
            0 <= j < idx_of(names, nm) ==> (#[trigger] names[j])@ != nm,
        idx_of(names, nm) < 0 ==> forall|j: int|
            0 <= j < names.len() ==> (#[trigger] names[j])@ != nm,
    decreases names.len(),
{
    if names.len() > 0 && names[0]@ != nm {
        lemma_idx_of_props(names.drop_first(), nm);
        assert forall|j: int| 1 <= j < names.len() implies names.drop_first()[j - 1]
            == names[j] by {}
    }
}

/// Appending a name leaves earlier positions as they were, and seats a
/// fresh name at the end.
pub proof fn lemma_idx_of_push(names: Seq<String>, x: String, nm: Seq<char>)
    ensures
        idx_of(names, nm) >= 0 ==> idx_of(names.push(x), nm) == idx_of(names, nm),
        idx_of(names, nm) < 0 && x@ == nm ==> idx_of(names.push(x), nm) == names.len(),
        idx_of(names, nm) < 0 && x@ != nm ==> idx_of(names.push(x), nm) < 0,
    decreases names.len(),
{
    if names.len() == 0 {
        assert(names.push(x)[0] == x);
        assert(names.push(x).drop_first() =~= Seq::<String>::empty());
        assert(idx_of(Seq::<String>::empty(), nm) == -1);
    } else {
        assert(names.push(x)[0] == names[0]);
        assert(names.push(x).drop_first() =~= names.drop_first().push(x));
        lemma_idx_of_push(names.drop_first(), x, nm);
    }
}

/// Taking one more name inserts exactly that name into the set.
pub proof fn lemma_strset_take(v: Seq<String>, i: int)
    requires
        0 <= i < v.len(),
    ensures
        strset(v.take(i + 1)) == strset(v.take(i)).insert(v[i]@),
{
    assert forall|s: Seq<char>| #[trigger] strset(v.take(i + 1)).contains(s) implies strset(
        v.take(i),
    ).insert(v[i]@).contains(s) by {
        let j = choose|j: int| 0 <= j < v.take(i + 1).len() && (#[trigger] v.take(i + 1)[j])@ == s;
        if j < i {
            assert(v.take(i)[j]@ == s);
        }
    }
    assert forall|s: Seq<char>| strset(v.take(i)).insert(v[i]@).contains(s) implies #[trigger] strset(
        v.take(i + 1),
    ).contains(s) by {
        if s == v[i]@ {
            assert(v.take(i + 1)[i]@ == s);
        } else {
            let j = choose|j: int| 0 <= j < v.take(i).len() && (#[trigger] v.take(i)[j])@ == s;
            assert(v.take(i + 1)[j]@ == s);
        }
    }
    assert(strset(v.take(i + 1)) =~= strset(v.take(i)).insert(v[i]@));
}

/// Adds a name to a feature-name set held as a vector, where it is not
/// already present.
pub fn insert_feature(features: &mut Vec<String>, name: &str)
    ensures
        strset(final(features)@) == strset(old(features)@).insert(name@),
{
    let ghost orig = features@;
    let key: String = name.to_owned();
    let n = features.len();
    let mut i: usize = 0;
    while i < n
        invariant
            i <= n,
            n == features@.len(),
            key@ == name@,
            features@ == orig,
            forall|j: int| 0 <= j < i ==> (#[trigger] features@[j])@ != name@,
        decreases n - i,
    {
        if features[i].eq(&key) {
            proof {
                assert(strset(orig).contains(name@));
                assert(strset(orig) =~= strset(orig).insert(name@));
            }
            return ;
        }
        i = i + 1;
    }
    features.push(key);
    proof {
        assert forall|s: Seq<char>| #[trigger] strset(features@).contains(s) implies strset(
            orig,
        ).insert(name@).contains(s) by {
            let j = choose|j: int| 0 <= j < features@.len() && features@[j]@ == s;
            if j < orig.len() {
                assert(orig[j]@ == s);
            }
        }
        assert forall|s: Seq<char>| strset(orig).insert(name@).contains(s) implies #[trigger] strset(
            features@,
        ).contains(s) by {
            if s == name@ {
                assert(features@[orig.len() as int]@ == s);
            } else {
                let j = choose|j: int| 0 <= j < orig.len() && orig[j]@ == s;
                assert(features@[j]@ == s);
            }
        }
        assert(strset(features@) =~= strset(orig).insert(name@));
    }
}

/// A depth-indexed histogram keyed by feature name.
#[derive(Debug)]
pub struct FeatureVector {
    names: Vec<String>,
    counts: Vec<Vec<u64>>,
}

impl FeatureVector {
    /// Well-formedness: one count row per name, each name held once.
    pub closed spec fn inv(self) -> bool {
        &&& self.names@.len() == self.counts@.len()
        &&& forall|i: int, j: int|
            0 <= i < j < self.names@.len() ==> #[trigger] self.names@[i]@ != #[trigger] self.names@[j]@
    }

    /// Whether a name has an entry.
    pub closed spec fn has(self, nm: Seq<char>) -> bool {
        idx_of(self.names@, nm) >= 0
    }

    /// The count of a name at a depth: zero for an absent name or an
    /// unreached depth.
    pub closed spec fn count(self, nm: Seq<char>, d: int) -> nat {
        let i = idx_of(self.names@, nm);
        if 0 <= i < self.counts@.len() && 0 <= d < self.counts@[i]@.len() {
            self.counts@[i]@[d] as nat
        } else {
            0
        }
    }

    /// An empty histogram.
    pub fn new() -> (r: FeatureVector)
        ensures
            r.inv(),
            forall|nm: Seq<char>| !r.has(nm),
            forall|nm: Seq<char>, d: int| r.count(nm, d) == 0,
    {
        let r = FeatureVector { names: Vec::new(), counts: Vec::new() };
        r
    }

    /// The position of a name, where it has an entry.
    fn find(&self, name: &str) -> (r: Option<usize>)
        ensures
            match r {
                Some(i) => i == idx_of(self.names@, name@) && i < self.names@.len(),
                None => idx_of(self.names@, name@) < 0,
            },
    {
        let key: String = name.to_owned();
        let n = self.names.len();
        let mut i: usize = 0;
        proof {
            lemma_idx_of_props(self.names@, name@);
        }
        while i < n
            invariant
                i <= n,
                n == self.names@.len(),
                key@ == name@,
                forall|j: int| 0 <= j < i ==> (#[trigger] self.names@[j])@ != name@,
                idx_of(self.names@, name@) >= 0 ==> idx_of(self.names@, name@)
                    < self.names@.len() && self.names@[idx_of(self.names@, name@)]@ == name@,
                idx_of(self.names@, name@) >= 0 ==> forall|j: int|
                    0 <= j < idx_of(self.names@, name@) ==> (#[trigger] self.names@[j])@ != name@,
                idx_of(self.names@, name@) < 0 ==> forall|j: int|
                    0 <= j < self.names@.len() ==> (#[trigger] self.names@[j])@ != name@,
            decreases n - i,
        {
            if self.names[i].eq(&key) {
                return Some(i);
            }
            i = i + 1;
        }
        None
    }

    /// Gives a name an entry, leaving every count as it was.
    pub fn ensure_key(&mut self, name: &str)
        requires
            old(self).inv(),
        ensures
            final(self).inv(),
            forall|nm: Seq<char>| final(self).has(nm) == (old(self).has(nm) || nm == name@),
            forall|nm: Seq<char>, d: int| final(self).count(nm, d) == old(self).count(nm, d),
    {
        let ghost pre = *self;
        match self.find(name) {
            Some(_) => {
                proof {
                    assert forall|nm: Seq<char>| self.has(nm) == (pre.has(nm) || nm
                        == name@) by {
                        lemma_idx_of_props(pre.names@, nm);
                    }
                }
            },
            None => {
                self.names.push(name.to_owned());
                self.counts.push(Vec::new());
                proof {
                    lemma_idx_of_props(pre.names@, name@);
                    assert forall|nm: Seq<char>| self.has(nm) == (pre.has(nm) || nm
                        == name@) by {
                        lemma_idx_of_push(pre.names@, self.names@[pre.names@.len() as int], nm);
                        lemma_idx_of_props(pre.names@, nm);
                    }
                    assert forall|nm: Seq<char>, d: int|
                        self.count(nm, d) == pre.count(nm, d) by {
                        lemma_idx_of_push(pre.names@, self.names@[pre.names@.len() as int], nm);
                        lemma_idx_of_props(pre.names@, nm);
                    }
                }
            },
        }
    }

    /// Bumps the count of a name at a depth by one, creating the entry
    /// and growing its depth vector as needed.
    pub fn tally(&mut self, name: &str, depth: usize)
        requires
            old(self).inv(),
            old(self).count(name@, depth as int) < u64::MAX,
        ensures
            final(self).inv(),
            final(self).count(name@, depth as int) == old(self).count(name@, depth as int) + 1,
            forall|nm: Seq<char>, d: int|
                nm != name@ || d != depth ==> final(self).count(nm, d) == old(self).count(nm, d),
            forall|nm: Seq<char>| final(self).has(nm) == (old(self).has(nm) || nm == name@),
    {
        let ghost pre = *self;
        self.ensure_key(name);
        let ghost mid = *self;
        let idx = match self.find(name) {
            Some(i) => i,
            None => {
                proof {
                    assert(self.has(name@));
                    assert(false);
                }
                0
            },
        };
        proof {
            lemma_idx_of_props(self.names@, name@);
            assert(idx < self.counts@.len());
        }
        let ghost mid_row = self.counts@[idx as int]@;
        let mut row = self.counts[idx].clone();
        proof {
            lemma_u64_vec_clone(mid_row, row@);
            assert(row@ =~= mid_row);
        }
        while row.len() <= depth
            invariant
                mid_row.len() <= row@.len(),
                forall|d: int|
                    0 <= d < row@.len() ==> #[trigger] row@[d] == (if d < mid_row.len() {
                        mid_row[d]
                    } else {
                        0u64
                    }),
            decreases depth + 1 - row@.len(),
        {
            row.push(0);
        }
        let c = row[depth];
        proof {
            assert(c == mid.count(name@, depth as int));
        }
        row[depth] = c + 1;
        self.counts[idx] = row;
        proof {
            assert(self.names@ =~= mid.names@);
            assert forall|nm: Seq<char>, d: int|
                nm != name@ || d != depth implies self.count(nm, d) == mid.count(nm, d) by {
                lemma_idx_of_props(mid.names@, nm);
            }
            assert(self.count(name@, depth as int) == mid.count(name@, depth as int) + 1);
        }
    }

    /// Reads the count of a name at a depth.
    pub fn get_count(&self, name: &str, depth: usize) -> (r: u64)
        ensures
            r == self.count(name@, depth as int),
    {
        proof {
            lemma_idx_of_props(self.names@, name@);
        }
        match self.find(name) {
            Some(i) => {
                if i < self.counts.len() {
                    let row = &self.counts[i];
                    if depth < row.len() {
                        row[depth]
                    } else {
                        0
                    }
                } else {
                    0
                }
            },
            None => 0,
        }
    }
}

/// A cloned count vector holds the same counts.
proof fn lemma_u64_vec_clone(a: Seq<u64>, b: Seq<u64>)
    requires
        a.len() == b.len(),
        forall|i: int| 0 <= i < a.len() ==> vstd::pervasive::cloned::<u64>(a[i], b[i]),
    ensures
        forall|i: int| 0 <= i < a.len() ==> #[trigger] b[i] == a[i],
{
    assert forall|i: int| 0 <= i < a.len() implies #[trigger] b[i] == a[i] by {
        assert(vstd::pervasive::cloned::<u64>(a[i], b[i]));
    }
}

} // verus!
