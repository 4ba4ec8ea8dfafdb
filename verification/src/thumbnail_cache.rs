//! The thumbnails that are kept, the least recently used to go first.
use vstd::prelude::*;

use lru::LruCache;

verus! {

/// The cache type of the `lru` crate.
#[verifier::external_type_specification]
#[verifier::external_body]
#[verifier::reject_recursive_types(K)]
#[verifier::reject_recursive_types(V)]
#[verifier::reject_recursive_types(S)]
pub struct ExLruCache<K, V, S>(lru::LruCache<K, V, S>);

/// The hasher that the `lru` crate's caches use.
#[verifier::external_type_specification]
#[verifier::external_body]
pub struct ExDefaultHasher(lru::DefaultHasher);

/// The entries of a cache, the least recently used first.
pub uninterp spec fn lru_entries(cache: LruCache<u32, u64>) -> Seq<(u32, u64)>;

/// How many entries a cache was made for.
pub uninterp spec fn lru_limit(cache: LruCache<u32, u64>) -> nat;

/// `lru::LruCache::unbounded`: an empty cache that takes as many entries as a
/// `usize` counts.
#[verifier::external_body]
fn unbounded() -> (cache: LruCache<u32, u64>)
    ensures
        lru_entries(cache) == Seq::<(u32, u64)>::empty(),
        lru_limit(cache) == usize::MAX,
{
    LruCache::unbounded()
}

/// `lru::LruCache::len`: how many entries there are.
#[verifier::external_body]
fn len(cache: &LruCache<u32, u64>) -> (n: usize)
    ensures
        n == lru_entries(*cache).len(),
{
    cache.len()
}

/// The position of the entry for `key`, from position `from` on.
pub open spec fn entry_position(entries: Seq<(u32, u64)>, key: u32, from: int) -> Option<int>
    decreases entries.len() - from,
{
    if from >= entries.len() {
        None
    } else if entries[from].0 == key {
        Some(from)
    } else {
        entry_position(entries, key, from + 1)
    }
}

/// The entries without the one for `key`.
pub open spec fn without_key(entries: Seq<(u32, u64)>, key: u32) -> Seq<(u32, u64)> {
    match entry_position(entries, key, 0) {
        Some(i) => entries.remove(i),
        None => entries,
    }
}

/// `lru::LruCache::peek_lru`: the least recently used entry, which stays where
/// it is; none where the cache is empty.
#[verifier::external_body]
fn peek_lru(cache: &LruCache<u32, u64>) -> (r: Option<(u32, u64)>)
    ensures
        r == (if lru_entries(*cache).len() == 0 {
            None
        } else {
            Some(lru_entries(*cache)[0])
        }),
{
    cache.peek_lru().map(|(key, value)| (*key, *value))
}

/// `lru::LruCache::pop_entry`: takes out the entry for a key, where there is
/// one.
#[verifier::external_body]
fn pop_entry(cache: &mut LruCache<u32, u64>, key: u32) -> (r: Option<(u32, u64)>)
    ensures
        lru_entries(*final(cache)) == without_key(lru_entries(*old(cache)), key),
        lru_limit(*final(cache)) == lru_limit(*old(cache)),
        r == (match entry_position(lru_entries(*old(cache)), key, 0) {
            Some(i) => Some(lru_entries(*old(cache))[i]),
            None => None,
        }),
{
    cache.pop_entry(&key)
}

/// `lru::LruCache::promote`: makes the entry for a key the most recently used
/// one, where there is one.
#[verifier::external_body]
fn promote(cache: &mut LruCache<u32, u64>, key: u32) -> (r: bool)
    ensures
        lru_limit(*final(cache)) == lru_limit(*old(cache)),
        match entry_position(lru_entries(*old(cache)), key, 0) {
            Some(i) => r && lru_entries(*final(cache)) == lru_entries(*old(cache)).remove(i).push(
                lru_entries(*old(cache))[i],
            ),
            None => !r && lru_entries(*final(cache)) == lru_entries(*old(cache)),
        },
{
    cache.promote(&key)
}

/// `lru::LruCache::put`: the entry becomes the most recently used one. It takes
/// the place of the entry for its key, whose value is handed back; a cache with
/// room for it loses no other.
#[verifier::external_body]
fn put(cache: &mut LruCache<u32, u64>, key: u32, value: u64) -> (r: Option<u64>)
    requires
        lru_entries(*old(cache)).len() < lru_limit(*old(cache)),
    ensures
        lru_entries(*final(cache)) == without_key(lru_entries(*old(cache)), key).push((key, value)),
        lru_limit(*final(cache)) == lru_limit(*old(cache)),
        r == (match entry_position(lru_entries(*old(cache)), key, 0) {
            Some(i) => Some(lru_entries(*old(cache))[i].1),
            None => None,
        }),
{
    cache.put(key, value)
}

/// `lru::LruCache::clear`: takes out every entry.
#[verifier::external_body]
fn clear(cache: &mut LruCache<u32, u64>)
    ensures
        lru_entries(*final(cache)) == Seq::<(u32, u64)>::empty(),
        lru_limit(*final(cache)) == lru_limit(*old(cache)),
{
    cache.clear()
}

// ---------------------------------------------------------------------------
// The cache of thumbnails
// ---------------------------------------------------------------------------

/// How many thumbnails are kept. It should be larger than the number of list
/// items that are bound at a time.
pub const MAX_LRU_SIZE: usize = 200;

/// The thumbnails that are kept: for the place of each in the list, the number
/// of its item.
pub struct ThumbnailCache {
    lru: LruCache<u32, u64>,
}

/// What is left of `entries`, and which items were given up, after up to
/// `steps` looks at the least recently used entry: one whose item is not bound
/// is given up, until `excess` are; one whose item is bound becomes the most
/// recently used.
pub open spec fn evicted(
    entries: Seq<(u32, u64)>,
    bound: Set<u64>,
    excess: nat,
    steps: nat,
) -> (Seq<(u32, u64)>, Seq<u64>)
    decreases steps,
{
    if excess == 0 || steps == 0 || entries.len() == 0 {
        (entries, Seq::empty())
    } else {
        let first = entries[0];
        let rest = entries.skip(1);
        if bound.contains(first.1) {
            evicted(rest.push(first), bound, excess, (steps - 1) as nat)
        } else {
            let (left, dropped) = evicted(rest, bound, (excess - 1) as nat, (steps - 1) as nat);
            (left, seq![first.1] + dropped)
        }
    }
}

/// What is left of a cache, and which items were given up, after it was cut
/// down to its size.
pub open spec fn cut_down(entries: Seq<(u32, u64)>, bound: Set<u64>) -> (
    Seq<(u32, u64)>,
    Seq<u64>,
) {
    if entries.len() > MAX_LRU_SIZE {
        evicted(entries, bound, (entries.len() - MAX_LRU_SIZE) as nat, entries.len())
    } else {
        (entries, Seq::empty())
    }
}

impl View for ThumbnailCache {
    type V = Seq<(u32, u64)>;

    closed spec fn view(&self) -> Seq<(u32, u64)> {
        lru_entries(self.lru)
    }
}

fn holds(list: &[u64], item: u64) -> (r: bool)
    ensures
        r == list@.to_set().contains(item),
{
    let mut i: usize = 0;
    while i < list.len()
        invariant
            i <= list@.len(),
            forall|k: int| 0 <= k < i ==> list@[k] != item,
        decreases list@.len() - i,
    {
        if list[i] == item {
            assert(list@.contains(item));
            return true;
        }
        i = i + 1;
    }
    false
}

impl ThumbnailCache {
    /// Whether the cache takes whatever it is given.
    pub closed spec fn wf(&self) -> bool {
        lru_limit(self.lru) == usize::MAX
    }

    /// A cache without thumbnails.
    pub fn new() -> (c: Self)
        ensures
            c.wf(),
            c@ == Seq::<(u32, u64)>::empty(),
    {
        ThumbnailCache { lru: unbounded() }
    }

    /// How many thumbnails there are.
    pub fn len(&self) -> (n: usize)
        ensures
            n == self@.len(),
    {
        len(&self.lru)
    }

    /// Keeps the thumbnail `item` for the place `index` in the list, as the
    /// most recently used one. The result is the one it takes the place of.
    pub fn put(&mut self, index: u32, item: u64) -> (r: Option<u64>)
        requires
            old(self).wf(),
            old(self)@.len() < usize::MAX,
        ensures
            final(self).wf(),
            final(self)@ == without_key(old(self)@, index).push((index, item)),
            r == (match entry_position(old(self)@, index, 0) {
                Some(i) => Some(old(self)@[i].1),
                None => None,
            }),
    {
        put(&mut self.lru, index, item)
    }

    /// Gives every thumbnail up.
    pub fn clear(&mut self)
        requires
            old(self).wf(),
        ensures
            final(self).wf(),
            final(self)@ == Seq::<(u32, u64)>::empty(),
    {
        clear(&mut self.lru)
    }

    /// Cuts the cache down to its size: the least recently used thumbnails are
    /// given up, except the items `bound`, which are shown. The result lists
    /// the items that were given up.
    pub fn lru_evict(&mut self, bound: &[u64]) -> (dropped: Vec<u64>)
        requires
            old(self).wf(),
        ensures
            final(self).wf(),
            (final(self)@, dropped@) == cut_down(old(self)@, bound@.to_set()),
    {
        let mut dropped: Vec<u64> = Vec::new();
        let size: usize = len(&self.lru);
        if size > MAX_LRU_SIZE {
            let excess: usize = size - MAX_LRU_SIZE;
            let ghost wanted = evicted(self@, bound@.to_set(), excess as nat, size as nat);
            let mut looks: usize = 0;
            proof {
                let now = evicted(self@, bound@.to_set(), excess as nat, size as nat);
                assert(dropped@ + now.1 =~= now.1);
            }
            while dropped.len() < excess && looks < size
                invariant
                    self.wf(),
                    looks <= size,
                    dropped@.len() <= excess,
                    dropped@.len() <= looks,
                    self@.len() + dropped@.len() == size,
                    MAX_LRU_SIZE + excess == size,
                    ({
                        let now = evicted(
                            self@,
                            bound@.to_set(),
                            (excess - dropped@.len()) as nat,
                            (size - looks) as nat,
                        );
                        (now.0, dropped@ + now.1) == wanted
                    }),
                decreases size - looks,
            {
                let ghost entries = self@;
                let ghost before = dropped@;
                let (key, item): (u32, u64) = peek_lru(&self.lru).unwrap();
                assert(entry_position(entries, key, 0) == Some(0int));
                if holds(bound, item) {
                    let _ = promote(&mut self.lru, key);
                    assert(entries.remove(0) =~= entries.skip(1));
                } else {
                    let _ = pop_entry(&mut self.lru, key);
                    assert(entries.remove(0) =~= entries.skip(1));
                    dropped.push(item);
                    proof {
                        let now = evicted(
                            self@,
                            bound@.to_set(),
                            (excess - dropped@.len()) as nat,
                            (size - looks - 1) as nat,
                        );
                        assert(before + (seq![item] + now.1) =~= dropped@ + now.1);
                    }
                }
                looks = looks + 1;
            }
            proof {
                let now = evicted(
                    self@,
                    bound@.to_set(),
                    (excess - dropped@.len()) as nat,
                    (size - looks) as nat,
                );
                assert(now.1 == Seq::<u64>::empty());
                assert(dropped@ + now.1 =~= dropped@);
            }
        }
        dropped
    }
}

// ---------------------------------------------------------------------------
// Laws
// ---------------------------------------------------------------------------

/// The items that are not bound, the least recently used first.
pub open spec fn unbound_items(entries: Seq<(u32, u64)>, bound: Set<u64>) -> Seq<u64>
    decreases entries.len(),
{
    if entries.len() == 0 {
        Seq::empty()
    } else if bound.contains(entries[0].1) {
        unbound_items(entries.skip(1), bound)
    } else {
        seq![entries[0].1] + unbound_items(entries.skip(1), bound)
    }
}

/// The lesser of two numbers.
pub open spec fn lesser(a: nat, b: nat) -> nat {
    if a < b {
        a
    } else {
        b
    }
}

proof fn lemma_evicted(
    rest: Seq<(u32, u64)>,
    seen: Seq<(u32, u64)>,
    bound: Set<u64>,
    excess: nat,
)
    ensures
        ({
            let (left, dropped) = evicted(rest + seen, bound, excess, rest.len());
            let free = unbound_items(rest, bound);
            &&& dropped == free.take(lesser(excess, free.len()) as int)
            &&& left.len() + dropped.len() == rest.len() + seen.len()
            &&& forall|e: (u32, u64)|
                #![trigger left.contains(e)]
                (rest + seen).contains(e) && (bound.contains(e.1) || seen.contains(e))
                    ==> left.contains(e)
            &&& forall|e: (u32, u64)| #[trigger]
                left.contains(e) ==> (rest + seen).contains(e)
        }),
    decreases rest.len(),
{
    let all = rest + seen;
    let free = unbound_items(rest, bound);
    if excess == 0 || rest.len() == 0 {
        assert(free.take(lesser(excess, free.len()) as int) =~= Seq::<u64>::empty());
    } else {
        let first = rest[0];
        let next = rest.skip(1);
        assert(all[0] == first);
        if bound.contains(first.1) {
            let more = seen.push(first);
            assert(all.skip(1).push(first) =~= next + more);
            lemma_evicted(next, more, bound, excess);
            let (left, dropped) = evicted(next + more, bound, excess, next.len());
            assert forall|e: (u32, u64)|
                #![trigger left.contains(e)]
                all.contains(e) && (bound.contains(e.1) || seen.contains(e)) implies left.contains(
                e,
            ) by {
                lemma_rotation(rest, seen, e);
                if seen.contains(e) {
                    assert(more[seen.index_of(e)] == e);
                }
                assert((next + more).contains(e));
            }
            assert forall|e: (u32, u64)| #[trigger] left.contains(e) implies all.contains(e) by {
                assert((next + more).contains(e));
                lemma_rotation(rest, seen, e);
            }
        } else {
            assert(all.skip(1) =~= next + seen);
            lemma_evicted(next, seen, bound, (excess - 1) as nat);
            let (left, dropped) = evicted(next + seen, bound, (excess - 1) as nat, next.len());
            let later = unbound_items(next, bound);
            let n = lesser((excess - 1) as nat, later.len()) as int;
            assert(free =~= seq![first.1] + later);
            assert(lesser(excess, free.len()) == n + 1);
            assert(free.take(n + 1) =~= seq![first.1] + later.take(n));
            assert forall|e: (u32, u64)|
                #![trigger left.contains(e)]
                all.contains(e) && (bound.contains(e.1) || seen.contains(e)) implies left.contains(
                e,
            ) by {
                if seen.contains(e) {
                    assert((next + seen)[next.len() + seen.index_of(e)] == e);
                } else {
                    let i = all.index_of(e);
                    assert(i != 0);
                    assert((next + seen)[i - 1] == e);
                }
                assert((next + seen).contains(e));
            }
            assert forall|e: (u32, u64)| #[trigger] left.contains(e) implies all.contains(e) by {
                assert((next + seen).contains(e));
                let i = (next + seen).index_of(e);
                assert(all[i + 1] == e);
            }
        }
    }
}

proof fn lemma_rotation(rest: Seq<(u32, u64)>, seen: Seq<(u32, u64)>, e: (u32, u64))
    requires
        rest.len() > 0,
    ensures
        (rest + seen).contains(e) <==> (rest.skip(1) + seen.push(rest[0])).contains(e),
{
    let all = rest + seen;
    let turned = rest.skip(1) + seen.push(rest[0]);
    if all.contains(e) {
        let i = all.index_of(e);
        if i == 0 {
            assert(turned[turned.len() - 1] == e);
        } else {
            assert(turned[i - 1] == e);
        }
    }
    if turned.contains(e) {
        let i = turned.index_of(e);
        if i == turned.len() - 1 {
            assert(all[0] == e);
        } else {
            assert(all[i + 1] == e);
        }
    }
}

/// Cutting a cache down gives up the least recently used thumbnails that are
/// not bound: as many as there are too many, or all of them, where they are
/// fewer. A bound thumbnail stays, and nothing new comes in.
pub proof fn eviction_takes_the_oldest_unbound(entries: Seq<(u32, u64)>, bound: Set<u64>)
    requires
        entries.len() > MAX_LRU_SIZE,
    ensures
        ({
            let (left, dropped) = cut_down(entries, bound);
            let excess = (entries.len() - MAX_LRU_SIZE) as nat;
            let free = unbound_items(entries, bound);
            &&& dropped == free.take(lesser(excess, free.len()) as int)
            &&& left.len() + dropped.len() == entries.len()
            &&& forall|e: (u32, u64)|
                #![trigger left.contains(e)]
                entries.contains(e) && bound.contains(e.1) ==> left.contains(e)
            &&& forall|e: (u32, u64)| #[trigger]
                left.contains(e) ==> entries.contains(e)
        }),
{
    let excess = (entries.len() - MAX_LRU_SIZE) as nat;
    assert(entries + Seq::<(u32, u64)>::empty() =~= entries);
    lemma_evicted(entries, Seq::empty(), bound, excess);
}

/// A cache that has enough thumbnails that are not bound is down to its size
/// after an eviction.
pub proof fn eviction_reaches_the_size(entries: Seq<(u32, u64)>, bound: Set<u64>)
    requires
        unbound_items(entries, bound).len() + MAX_LRU_SIZE >= entries.len(),
    ensures
        cut_down(entries, bound).0.len() <= MAX_LRU_SIZE,
{
    if entries.len() > MAX_LRU_SIZE {
        eviction_takes_the_oldest_unbound(entries, bound);
    }
}

/// The entries whose items are bound, in order.
pub open spec fn bound_entries(entries: Seq<(u32, u64)>, bound: Set<u64>) -> Seq<(u32, u64)> {
    entries.filter(|e: (u32, u64)| bound.contains(e.1))
}

proof fn lemma_filter_front(
    first: (u32, u64),
    rest: Seq<(u32, u64)>,
    kept: spec_fn((u32, u64)) -> bool,
)
    ensures
        (seq![first] + rest).filter(kept) == if kept(first) {
            seq![first] + rest.filter(kept)
        } else {
            rest.filter(kept)
        },
    decreases rest.len(),
{
    reveal(Seq::filter);
    let none = Seq::<(u32, u64)>::empty();
    if rest.len() == 0 {
        assert(rest =~= none);
        assert(none.filter(kept) =~= none);
        assert(seq![first] + rest =~= none.push(first));
        assert(none.push(first).drop_last() =~= none);
        assert(none.push(first).last() == first);
        assert((seq![first] + rest).filter(kept) =~= if kept(first) {
            seq![first] + rest.filter(kept)
        } else {
            rest.filter(kept)
        });
    } else {
        lemma_filter_front(first, rest.drop_last(), kept);
        assert((seq![first] + rest).drop_last() =~= seq![first] + rest.drop_last());
        assert((seq![first] + rest).last() == rest.last());
        assert((seq![first] + rest).filter(kept) =~= if kept(first) {
            seq![first] + rest.filter(kept)
        } else {
            rest.filter(kept)
        });
    }
}

proof fn lemma_evicted_by_place(
    rest: Seq<(u32, u64)>,
    seen: Seq<(u32, u64)>,
    bound: Set<u64>,
    excess: nat,
) -> (k: int)
    ensures
        0 <= k <= rest.len(),
        evicted(rest + seen, bound, excess, rest.len()).0 == rest.skip(k) + seen + bound_entries(
            rest.take(k),
            bound,
        ),
        evicted(rest + seen, bound, excess, rest.len()).1 == unbound_items(rest.take(k), bound),
        unbound_items(rest.take(k), bound).len() <= excess,
        k < rest.len() ==> unbound_items(rest.take(k), bound).len() == excess,
        k > 0 ==> unbound_items(rest.take(k - 1), bound).len() < excess,
    decreases rest.len(),
{
    let none = Seq::<(u32, u64)>::empty();
    let kept = |e: (u32, u64)| bound.contains(e.1);
    let all = rest + seen;
    reveal(Seq::filter);
    if excess == 0 || rest.len() == 0 {
        assert(rest.take(0) =~= none);
        assert(none.filter(kept) =~= none);
        assert(all =~= rest.skip(0) + seen + none.filter(kept));
        0
    } else {
        let first = rest[0];
        let next = rest.skip(1);
        assert(all[0] == first);
        let m = if bound.contains(first.1) {
            assert(all.skip(1).push(first) =~= next + seen.push(first));
            lemma_evicted_by_place(next, seen.push(first), bound, excess)
        } else {
            assert(all.skip(1) =~= next + seen);
            lemma_evicted_by_place(next, seen, bound, (excess - 1) as nat)
        };
        let k = m + 1;
        let head = rest.take(k);
        assert(head =~= seq![first] + next.take(m));
        assert(head.skip(1) =~= next.take(m));
        assert(head[0] == first);
        lemma_filter_front(first, next.take(m), kept);
        assert(rest.skip(k) =~= next.skip(m));
        if m > 0 {
            let shorter = rest.take(k - 1);
            assert(shorter.skip(1) =~= next.take(m - 1));
            assert(shorter[0] == first);
        } else {
            assert(rest.take(0) =~= none);
        }
        if bound.contains(first.1) {
            assert(next.skip(m) + seen.push(first) + next.take(m).filter(kept) =~= rest.skip(k)
                + seen + head.filter(kept));
        } else {
            assert(next.skip(m) + seen + next.take(m).filter(kept) =~= rest.skip(k) + seen
                + head.filter(kept));
        }
        k
    }
}

/// Cutting a cache down looks at its entries from the least recently used on, up
/// to the first `k` of them: until it has given up as many as there are too many, or
/// has seen all. What it does not look at stays as it is; behind it come, in their
/// order, the bound entries that were looked at; the items of the others are given
/// up. A cache that is not too large is left as it is.
pub proof fn eviction_stops_where_enough_is_given_up(
    entries: Seq<(u32, u64)>,
    bound: Set<u64>,
) -> (k: int)
    ensures
        0 <= k <= entries.len(),
        cut_down(entries, bound).0 == entries.skip(k) + entries.take(k).filter(
            |e: (u32, u64)| bound.contains(e.1),
        ),
        cut_down(entries, bound).1 == entries.take(k).filter(
            |e: (u32, u64)| !bound.contains(e.1),
        ).map_values(|e: (u32, u64)| e.1),
        entries.len() <= MAX_LRU_SIZE ==> k == 0,
        k > 0 ==> cut_down(entries, bound).1.len() <= entries.len() - MAX_LRU_SIZE,
        0 < k < entries.len() ==> cut_down(entries, bound).1.len() == entries.len() - MAX_LRU_SIZE
            && !bound.contains(entries[k - 1].1),
        entries.len() > MAX_LRU_SIZE ==> k > 0,
{
    let none = Seq::<(u32, u64)>::empty();
    reveal(Seq::filter);
    if entries.len() > MAX_LRU_SIZE {
        let excess = (entries.len() - MAX_LRU_SIZE) as nat;
        assert(entries + none =~= entries);
        let k = lemma_evicted_by_place(entries, none, bound, excess);
        assert(entries.skip(k) + none =~= entries.skip(k));
        lemma_unbound_filter(entries.take(k), bound);
        if k == 0 {
            assert(entries.take(k) =~= none);
            assert(unbound_items(none, bound).len() == 0);
        } else {
            lemma_unbound_filter(entries.take(k - 1), bound);
            assert(entries.take(k).drop_last() =~= entries.take(k - 1));
            assert(entries.take(k).last() == entries[k - 1]);
        }
        k
    } else {
        assert(entries.take(0) =~= none);
        assert(entries.take(0).filter(|e: (u32, u64)| bound.contains(e.1)) =~= none);
        assert(entries.take(0).filter(|e: (u32, u64)| !bound.contains(e.1)) =~= none);
        assert(entries.skip(0) + none =~= entries);
        assert(none.map_values(|e: (u32, u64)| e.1) =~= Seq::<u64>::empty());
        0
    }
}

proof fn lemma_unbound_filter(entries: Seq<(u32, u64)>, bound: Set<u64>)
    ensures
        unbound_items(entries, bound) == entries.filter(
            |e: (u32, u64)| !bound.contains(e.1),
        ).map_values(|e: (u32, u64)| e.1),
    decreases entries.len(),
{
    let free = |e: (u32, u64)| !bound.contains(e.1);
    if entries.len() == 0 {
        reveal(Seq::filter);
        assert(unbound_items(entries, bound) =~= entries.filter(free).map_values(
            |e: (u32, u64)| e.1,
        ));
    } else {
        let rest = entries.skip(1);
        lemma_unbound_filter(rest, bound);
        lemma_filter_front(entries[0], rest, free);
        assert(entries =~= seq![entries[0]] + rest);
        assert(unbound_items(entries, bound) =~= entries.filter(free).map_values(
            |e: (u32, u64)| e.1,
        ));
    }
}

} // verus!
