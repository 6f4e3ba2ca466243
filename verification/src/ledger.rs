//! The item ledger: a mapping from items to accumulated counts.
//!
//! Entries are held as a list of `(item, count)` pairs with pairwise
//! distinct keys, so iteration order is stable and the abstraction to a
//! map is exact. Adding an item that is already present increments its
//! count instead of creating a second entry.

use crate::item::Item;
use vstd::prelude::*;

verus! {

/// No two entries share a key.
pub open spec fn distinct_keys(s: Seq<(Item, usize)>) -> bool {
    forall|i: int, j: int|
        0 <= i < j < s.len() ==> (#[trigger] s[i]).0 != (#[trigger] s[j]).0
}

/// The mapping an entry list stands for; later entries would win, but
/// under `distinct_keys` every key occurs at most once.
pub open spec fn ledger_map(s: Seq<(Item, usize)>) -> Map<Item, usize>
    decreases s.len(),
{
    if s.len() == 0 {
        Map::empty()
    } else {
        ledger_map(s.drop_last()).insert(s.last().0, s.last().1)
    }
}

/// A key is in the mapping exactly when some entry carries it.
pub proof fn lemma_ledger_map_contains(s: Seq<(Item, usize)>, k: Item)
    ensures
        ledger_map(s).contains_key(k) <==> exists|i: int|
            0 <= i < s.len() && (#[trigger] s[i]).0 == k,
    decreases s.len(),
{
    if s.len() > 0 {
        lemma_ledger_map_contains(s.drop_last(), k);
        if ledger_map(s).contains_key(k) {
            if s.last().0 == k {
                assert(s[s.len() - 1].0 == k);
            } else {
                let i = choose|i: int|
                    0 <= i < s.drop_last().len() && (#[trigger] s.drop_last()[i]).0 == k;
                assert(s[i].0 == k);
            }
        }
        if exists|i: int| 0 <= i < s.len() && (#[trigger] s[i]).0 == k {
            let i = choose|i: int| 0 <= i < s.len() && (#[trigger] s[i]).0 == k;
            if i < s.len() - 1 {
                assert(s.drop_last()[i].0 == k);
            }
        }
    }
}

/// Under distinct keys, the mapping returns exactly the stored count.
pub proof fn lemma_ledger_map_index(s: Seq<(Item, usize)>, i: int)
    requires
        distinct_keys(s),
        0 <= i < s.len(),
    ensures
        ledger_map(s).contains_key(s[i].0),
        ledger_map(s)[s[i].0] == s[i].1,
    decreases s.len(),
{
    if i == s.len() - 1 {
    } else {
        assert(s.drop_last()[i] == s[i]);
        lemma_ledger_map_index(s.drop_last(), i);
        assert(s[i].0 != s.last().0);
    }
}

/// Appending a fresh entry inserts its pair into the mapping.
pub proof fn lemma_ledger_map_push(s: Seq<(Item, usize)>, p: (Item, usize))
    ensures
        ledger_map(s.push(p)) == ledger_map(s).insert(p.0, p.1),
{
    assert(s.push(p).drop_last() =~= s);
    assert(s.push(p).last() == p);
}

/// Overwriting the count of entry `i` updates that key in the mapping.
pub proof fn lemma_ledger_map_update(s: Seq<(Item, usize)>, i: int, c: usize)
    requires
        distinct_keys(s),
        0 <= i < s.len(),
    ensures
        ledger_map(s.update(i, (s[i].0, c))) == ledger_map(s).insert(s[i].0, c),
    decreases s.len(),
{
    let k = s[i].0;
    let t = s.update(i, (k, c));
    if i == s.len() - 1 {
        assert(t.drop_last() =~= s.drop_last());
        assert(ledger_map(t) =~= ledger_map(s).insert(k, c));
    } else {
        assert(t.drop_last() =~= s.drop_last().update(i, (k, c)));
        assert(s.drop_last()[i] == s[i]);
        lemma_ledger_map_update(s.drop_last(), i, c);
        assert(k != s.last().0);
        assert(ledger_map(t) =~= ledger_map(s).insert(k, c));
    }
}

/// The ledger: items mapped to how many of them the player holds.
pub struct ItemManager {
    entries: Vec<(Item, usize)>,
}

impl View for ItemManager {
    type V = Seq<(Item, usize)>;

    closed spec fn view(&self) -> Seq<(Item, usize)> {
        self.entries@
    }
}

impl ItemManager {
    /// Invariant: entry keys are pairwise distinct.
    pub open spec fn wf(self) -> bool {
        distinct_keys(self@)
    }

    /// The mapping the ledger stands for.
    pub open spec fn as_map(self) -> Map<Item, usize> {
        ledger_map(self@)
    }

    pub fn new() -> (r: ItemManager)
        ensures
            r@ == Seq::<(Item, usize)>::empty(),
            r.wf(),
    {
        ItemManager { entries: Vec::new() }
    }

    /// True when the ledger already has an entry for `item`.
    pub fn contains_item(&self, item: Item) -> (r: bool)
        ensures
            r == self.as_map().contains_key(item),
    {
        let n = self.entries.len();
        let mut i: usize = 0;
        while i < n
            invariant
                n == self@.len(),
                0 <= i <= n,
                forall|j: int| 0 <= j < i ==> (#[trigger] self@[j]).0 != item,
            decreases n - i,
        {
            if self.entries[i].0 == item {
                proof {
                    lemma_ledger_map_contains(self@, item);
                }
                return true;
            }
            i = i + 1;
        }
        proof {
            lemma_ledger_map_contains(self@, item);
        }
        false
    }

    /// Adds `count` units of `item`: increments the stored count when the
    /// item is present, appends a fresh entry otherwise. Deliberately not
    /// idempotent — two calls accumulate.
    pub fn add_items(&mut self, item: Item, count: usize)
        requires
            old(self).wf(),
            old(self).as_map().contains_key(item) ==> old(self).as_map()[item] + count
                <= usize::MAX,
        ensures
            final(self).wf(),
            final(self).as_map() == old(self).as_map().insert(
                item,
                if old(self).as_map().contains_key(item) {
                    (old(self).as_map()[item] + count) as usize
                } else {
                    count
                },
            ),
            old(self).as_map().contains_key(item) ==> final(self)@.len() == old(self)@.len()
                && exists|i: int|
                0 <= i < old(self)@.len() && (#[trigger] old(self)@[i]).0 == item && final(self)@
                    == old(self)@.update(
                    i,
                    (item, (old(self).as_map()[item] + count) as usize),
                ),
            !old(self).as_map().contains_key(item) ==> final(self)@ == old(self)@.push(
                (item, count),
            ),
    {
        let ghost s0 = self@;
        let n = self.entries.len();
        let mut i: usize = 0;
        while i < n
            invariant
                self@ == s0,
                s0 == old(self)@,
                distinct_keys(s0),
                ledger_map(s0).contains_key(item) ==> ledger_map(s0)[item] + count <= usize::MAX,
                n == self@.len(),
                0 <= i <= n,
                forall|j: int| 0 <= j < i ==> (#[trigger] self@[j]).0 != item,
            decreases n - i,
        {
            if self.entries[i].0 == item {
                proof {
                    lemma_ledger_map_index(self@, i as int);
                    lemma_ledger_map_update(
                        self@,
                        i as int,
                        (ledger_map(self@)[item] + count) as usize,
                    );
                }
                let c = self.entries[i].1;
                self.entries[i] = (item, c + count);
                proof {
                    assert(forall|x: int|
                        0 <= x < self@.len() ==> (#[trigger] self@[x]).0 == s0[x].0);
                }
                return ;
            }
            i = i + 1;
        }
        proof {
            lemma_ledger_map_contains(self@, item);
            lemma_ledger_map_push(self@, (item, count));
        }
        self.entries.push((item, count));
        proof {
            assert forall|a: int, b: int| 0 <= a < b < self@.len() implies (#[trigger] self@[a]).0
                != (#[trigger] self@[b]).0 by {
                if b < s0.len() {
                } else {
                    assert(self@[b].0 == item);
                }
            }
        }
    }

    /// A snapshot of the entries, in their stored order.
    pub fn iter(&self) -> (r: Vec<(Item, usize)>)
        ensures
            r@ == self@,
    {
        let n = self.entries.len();
        let mut r: Vec<(Item, usize)> = Vec::new();
        let mut i: usize = 0;
        while i < n
            invariant
                n == self@.len(),
                0 <= i <= n,
                r@ == self@.subrange(0, i as int),
            decreases n - i,
        {
            r.push(self.entries[i]);
            proof {
                assert(r@ =~= self@.subrange(0, i + 1));
            }
            i = i + 1;
        }
        proof {
            assert(r@ =~= self@);
        }
        r
    }

    /// Number of distinct items (not the total of the counts).
    pub fn size(&self) -> (r: usize)
        ensures
            r == self@.len(),
    {
        self.entries.len()
    }
}

} // verus!
