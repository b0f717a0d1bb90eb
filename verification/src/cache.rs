//! The result cache: a memo from a genome's canonical text to its
//! computed cost.  Both search strategies revisit genomes, so each looks
//! a genome up here before evaluating it and stores the result after.

use vstd::prelude::*;

verus! {

/// A memo from genome text to cost, with one entry per key.
#[derive(Debug, Clone)]
pub struct Cache {
    /// The stored (genome text, cost) pairs, one per distinct key.
    pub entries: Vec<(Vec<char>, u64)>,
}

/// The abstract map of a prefix of the entry list.
pub open spec fn entries_map(es: Seq<(Vec<char>, u64)>, n: int) -> Map<Seq<char>, u64>
    decreases n,
{
    if n <= 0 {
        Map::empty()
    } else {
        entries_map(es, n - 1).insert(es[n - 1].0@, es[n - 1].1)
    }
}

impl Cache {
    /// The memo as an abstract map.
    pub open spec fn view_map(self) -> Map<Seq<char>, u64> {
        entries_map(self.entries@, self.entries@.len() as int)
    }

    /// Keys are unique: linear search and the abstract map agree.
    pub open spec fn wf(self) -> bool {
        forall|a: int, b: int|
            0 <= a < b < self.entries@.len() ==> (#[trigger] self.entries@[a]).0@
                != (#[trigger] self.entries@[b]).0@
    }

    pub fn new() -> (r: Self)
        ensures
            r.wf(),
            r.view_map() == Map::<Seq<char>, u64>::empty(),
    {
        Self { entries: Vec::new() }
    }

    /// Look a genome text up; the stored cost, if any.
    pub fn get(&self, key: &Vec<char>) -> (r: Option<u64>)
        requires
            self.wf(),
        ensures
            r == (if self.view_map().contains_key(key@) {
                Some(self.view_map()[key@])
            } else {
                None::<u64>
            }),
    {
        let n = self.entries.len();
        let mut i: usize = 0;
        while i < n
            invariant
                0 <= i <= n,
                n == self.entries@.len(),
                self.wf(),
                forall|a: int| 0 <= a < i ==> (#[trigger] self.entries@[a]).0@ != key@,
            decreases n - i,
        {
            if chars_eq(&self.entries[i].0, key) {
                proof {
                    lemma_entries_map_found(self.entries@, n as int, i as int);
                }
                return Some(self.entries[i].1);
            }
            i = i + 1;
        }
        proof {
            lemma_entries_map_missing(self.entries@, n as int, key@);
        }
        None
    }

    /// Store a genome text's cost; an existing entry is replaced.
    pub fn insert(&mut self, key: Vec<char>, cost: u64)
        requires
            old(self).wf(),
        ensures
            final(self).wf(),
            final(self).view_map() == old(self).view_map().insert(key@, cost),
    {
        let n = self.entries.len();
        let mut i: usize = 0;
        while i < n
            invariant
                0 <= i <= n,
                n == self.entries@.len(),
                self.entries@ == old(self).entries@,
                self.wf(),
                forall|a: int| 0 <= a < i ==> (#[trigger] self.entries@[a]).0@ != key@,
            decreases n - i,
        {
            if chars_eq(&self.entries[i].0, &key) {
                let ghost pre = self.entries@;
                let c0 = self.entries[i].0.clone();
                self.entries.set(i, (c0, cost));
                proof {
                    lemma_entries_map_update(pre, self.entries@, n as int, i as int, cost);
                    assert(pre[i as int].0@ == key@);
                    assert(self.view_map() == old(self).view_map().insert(key@, cost));
                }
                return ;
            }
            i = i + 1;
        }
        let ghost pre = self.entries@;
        self.entries.push((key, cost));
        proof {
            assert(self.entries@.len() == pre.len() + 1);
            assert(entries_map(self.entries@, pre.len() as int + 1) == entries_map(
                self.entries@,
                pre.len() as int,
            ).insert(self.entries@[pre.len() as int].0@, self.entries@[pre.len() as int].1));
            lemma_entries_map_congruent(pre, self.entries@, pre.len() as int);
            assert(self.entries@[pre.len() as int].0@ == key@);
            assert(self.view_map() == old(self).view_map().insert(key@, cost));
            assert forall|a: int, b: int|
                0 <= a < b < self.entries@.len() implies (#[trigger] self.entries@[a]).0@ != (
            #[trigger] self.entries@[b]).0@ by {
                if b == pre.len() as int {
                    assert(self.entries@[a] == pre[a]);
                }
            }
        }
    }
}

/// Character-wise equality of two texts.
pub fn chars_eq(a: &Vec<char>, b: &Vec<char>) -> (r: bool)
    ensures
        r == (a@ == b@),
{
    if a.len() != b.len() {
        proof {
            assert(a@.len() != b@.len());
        }
        return false;
    }
    let mut i: usize = 0;
    while i < a.len()
        invariant
            0 <= i <= a@.len(),
            a@.len() == b@.len(),
            forall|j: int| 0 <= j < i ==> a@[j] == b@[j],
        decreases a@.len() - i,
    {
        if a[i] != b[i] {
            return false;
        }
        i = i + 1;
    }
    proof {
        assert(a@ =~= b@);
    }
    true
}

/// With unique keys, the entry found by a scan is the map's value.
proof fn lemma_entries_map_found(es: Seq<(Vec<char>, u64)>, n: int, i: int)
    requires
        0 <= i < n <= es.len(),
        forall|a: int, b: int|
            0 <= a < b < es.len() ==> (#[trigger] es[a]).0@ != (#[trigger] es[b]).0@,
    ensures
        entries_map(es, n).contains_key(es[i].0@),
        entries_map(es, n)[es[i].0@] == es[i].1,
    decreases n,
{
    if i < n - 1 {
        lemma_entries_map_found(es, n - 1, i);
        assert(es[i].0@ != es[n - 1].0@);
    }
}

/// A key differing from every entry is not in the map.
proof fn lemma_entries_map_missing(es: Seq<(Vec<char>, u64)>, n: int, key: Seq<char>)
    requires
        0 <= n <= es.len(),
        forall|a: int| 0 <= a < n ==> (#[trigger] es[a]).0@ != key,
    ensures
        !entries_map(es, n).contains_key(key),
    decreases n,
{
    if n > 0 {
        lemma_entries_map_missing(es, n - 1, key);
    }
}

/// Replacing the cost of entry `i` updates the map at its key alone.
proof fn lemma_entries_map_update(
    pre: Seq<(Vec<char>, u64)>,
    post: Seq<(Vec<char>, u64)>,
    n: int,
    i: int,
    cost: u64,
)
    requires
        0 <= i < n,
        n <= pre.len(),
        post.len() == pre.len(),
        forall|a: int, b: int|
            0 <= a < b < n ==> (#[trigger] pre[a]).0@ != (#[trigger] pre[b]).0@,
        forall|a: int| 0 <= a < pre.len() && a != i ==> post[a] == pre[a],
        post[i].0@ == pre[i].0@,
        post[i].1 == cost,
    ensures
        entries_map(post, n) == entries_map(pre, n).insert(pre[i].0@, cost),
        forall|a: int, b: int|
            0 <= a < b < n ==> (#[trigger] post[a]).0@ != (#[trigger] post[b]).0@,
    decreases n,
{
    if i == n - 1 {
        lemma_entries_map_congruent(pre, post, n - 1);
        assert(entries_map(post, n) =~= entries_map(pre, n).insert(pre[i].0@, cost));
    } else {
        lemma_entries_map_update(pre, post, n - 1, i, cost);
        assert(pre[i].0@ != pre[n - 1].0@);
        assert(entries_map(post, n) =~= entries_map(pre, n).insert(pre[i].0@, cost));
    }
}

/// Prefixes with equal entries have equal maps.
proof fn lemma_entries_map_congruent(
    pre: Seq<(Vec<char>, u64)>,
    post: Seq<(Vec<char>, u64)>,
    n: int,
)
    requires
        0 <= n <= pre.len(),
        n <= post.len(),
        forall|a: int| 0 <= a < n ==> #[trigger] post[a] == pre[a],
    ensures
        entries_map(post, n) == entries_map(pre, n),
    decreases n,
{
    if n > 0 {
        lemma_entries_map_congruent(pre, post, n - 1);
    }
}

} // verus!
