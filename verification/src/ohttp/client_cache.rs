//! The cache of oblivious HTTP clients.
//!
//! Requests that go to the same base URL and forward the same headers share a
//! client. A client is kept in a cell, which is empty until the client is made.

use crate::ohttp::forward_headers;
use crate::text;
use crate::urls;
use url::Url;
use vstd::arithmetic::power2::pow2;
use vstd::prelude::*;
use vstd::string::*;

verus! {

/// The contents of a cache key.
#[verifier::ext_equal]
pub struct CacheKeyView {
    pub base_url: Seq<char>,
    pub forwarded_headers: Seq<(Seq<char>, Seq<char>)>,
}

/// What a client is found by: the base URL of its requests, and the headers that it
/// forwards.
#[derive(Debug)]
pub struct OHttpClientCacheKey {
    pub base_url: Url,
    pub forwarded_headers: Vec<(String, String)>,
}

impl View for OHttpClientCacheKey {
    type V = CacheKeyView;

    open spec fn view(&self) -> CacheKeyView {
        CacheKeyView {
            base_url: urls::url_text(self.base_url),
            forwarded_headers: forward_headers::pair_texts(self.forwarded_headers@),
        }
    }
}

/// Keys are the same when their URLs and their headers are.
impl PartialEq for OHttpClientCacheKey {
    fn eq(&self, other: &OHttpClientCacheKey) -> (same: bool)
        ensures
            same <==> self@ == other@,
    {
        let ghost mine = self@.forwarded_headers;
        let ghost theirs = other@.forwarded_headers;
        if !text::same_text(self.base_url.as_str(), other.base_url.as_str()) {
            return false;
        }
        if self.forwarded_headers.len() != other.forwarded_headers.len() {
            assert(mine.len() != theirs.len());
            return false;
        }
        let mut i: usize = 0;
        while i < self.forwarded_headers.len()
            invariant
                i <= self.forwarded_headers@.len(),
                self.forwarded_headers@.len() == other.forwarded_headers@.len(),
                mine == self@.forwarded_headers,
                theirs == other@.forwarded_headers,
                forall|j: int| 0 <= j < i ==> #[trigger] mine[j] == theirs[j],
            decreases self.forwarded_headers.len() - i,
        {
            let left = &self.forwarded_headers[i];
            let right = &other.forwarded_headers[i];
            if !text::same_text(left.0.as_str(), right.0.as_str()) || !text::same_text(
                left.1.as_str(),
                right.1.as_str(),
            ) {
                assert(mine[i as int] != theirs[i as int]);
                return false;
            }
            i += 1;
        }
        assert(mine =~= theirs);
        true
    }
}

impl vstd::std_specs::cmp::PartialEqSpecImpl for OHttpClientCacheKey {
    open spec fn obeys_eq_spec() -> bool {
        true
    }

    open spec fn eq_spec(&self, other: &OHttpClientCacheKey) -> bool {
        self@ == other@
    }
}

impl Eq for OHttpClientCacheKey {

}

/// The cells of a cache once a key has its entry: the cell that it had, or else the
/// fresh one.
pub open spec fn with_entry<C>(cells: Map<CacheKeyView, C>, key: CacheKeyView, fresh: C) -> Map<
    CacheKeyView,
    C,
> {
    if cells.contains_key(key) {
        cells
    } else {
        cells.insert(key, fresh)
    }
}

/// Whether a number is a power of two.
pub open spec fn is_power_of_two(n: nat) -> bool {
    exists|k: nat| #[trigger] pow2(k) == n
}

/// Whether a cache of this size calls for a warning. It does at the powers of two
/// above a hundred, so that a growing cache is reported ever more rarely.
pub open spec fn is_alarming(size: nat) -> bool {
    size > 100 && is_power_of_two(size)
}

/// Checks whether a number is a power of two.
pub fn power_of_two(n: usize) -> (is_power: bool)
    ensures
        is_power == is_power_of_two(n as nat),
{
    if n == 0 {
        proof {
            assert forall|k: nat| #[trigger] pow2(k) != 0 by {
                vstd::arithmetic::power2::lemma_pow2_pos(k);
            }
        }
        return false;
    }
    let mut rest: usize = n;
    let ghost mut halvings: nat = 0;
    proof {
        vstd::arithmetic::power2::lemma2_to64();
    }
    while rest % 2 == 0
        invariant
            rest > 0,
            n == rest * pow2(halvings),
        decreases rest,
    {
        proof {
            vstd::arithmetic::power2::lemma_pow2_unfold(halvings + 1);
            let half = rest / 2;
            let power = pow2(halvings) as int;
            assert(half * (2 * power) == (2 * half) * power) by (nonlinear_arith);
            assert(2 * half == rest);
            halvings = halvings + 1;
        }
        rest = rest / 2;
    }
    proof {
        if rest == 1 {
            assert(pow2(halvings) == n);
        } else {
            assert forall|k: nat| #[trigger] pow2(k) != n by {
                odd_part_decides(rest as nat, halvings, k);
            }
        }
    }
    rest == 1
}

/// A number with an odd factor above one is no power of two.
proof fn odd_part_decides(odd: nat, halvings: nat, k: nat)
    requires
        odd % 2 == 1,
        odd > 1,
    ensures
        pow2(k) != odd * pow2(halvings),
    decreases halvings,
{
    vstd::arithmetic::power2::lemma2_to64();
    vstd::arithmetic::power2::lemma_pow2_pos(k);
    if k > 0 {
        vstd::arithmetic::power2::lemma_pow2_unfold(k);
    }
    if halvings == 0 {
        assert(odd * pow2(0) == odd);
    } else {
        vstd::arithmetic::power2::lemma_pow2_unfold(halvings);
        vstd::arithmetic::power2::lemma_pow2_pos((halvings - 1) as nat);
        let smaller = pow2((halvings - 1) as nat);
        assert(odd * (2 * smaller) == 2 * (odd * smaller)) by (nonlinear_arith);
        if k == 0 {
            assert(odd * smaller > 0) by (nonlinear_arith)
                requires
                    odd > 1,
                    smaller > 0,
            ;
        } else {
            odd_part_decides(odd, (halvings - 1) as nat, (k - 1) as nat);
        }
    }
}

/// A cell of the cache, and the size of the cache where that calls for a warning.
pub struct CacheEntry<'a, C> {
    pub cell: &'a C,
    pub alarm: Option<usize>,
}

/// A cache of clients.
pub struct OHttpClientCache<C> {
    entries: Vec<(OHttpClientCacheKey, C)>,
}

/// The keys of a list of entries.
spec fn entry_keys<C>(entries: Seq<(OHttpClientCacheKey, C)>) -> Seq<CacheKeyView> {
    entries.map_values(|e: (OHttpClientCacheKey, C)| e.0@)
}

/// The cells of a list of entries, by their keys.
spec fn entry_cells<C>(entries: Seq<(OHttpClientCacheKey, C)>) -> Map<CacheKeyView, C> {
    Map::new(
        |k: CacheKeyView| entry_keys(entries).contains(k),
        |k: CacheKeyView| entries[entry_keys(entries).index_of(k)].1,
    )
}

impl<C> View for OHttpClientCache<C> {
    type V = Map<CacheKeyView, C>;

    closed spec fn view(&self) -> Map<CacheKeyView, C> {
        entry_cells(self.entries@)
    }
}

impl<C> OHttpClientCache<C> {
    #[verifier::type_invariant]
    spec fn keys_differ(self) -> bool {
        entry_keys(self.entries@).no_duplicates()
    }

    /// Makes an empty cache.
    pub fn new() -> (cache: OHttpClientCache<C>)
        ensures
            cache@ == Map::<CacheKeyView, C>::empty(),
    {
        let cache = OHttpClientCache { entries: Vec::new() };
        assert(cache@ =~= Map::<CacheKeyView, C>::empty());
        cache
    }

    /// The number of cells.
    pub fn len(&self) -> (count: usize)
        ensures
            count == self@.dom().len(),
            self@.dom().finite(),
    {
        proof {
            use_type_invariant(self);
            size_is_count(self.entries@);
        }
        self.entries.len()
    }

    /// Finds the position of a key.
    fn position(entries: &Vec<(OHttpClientCacheKey, C)>, key: &OHttpClientCacheKey) -> (position:
        Option<usize>)
        ensures
            position matches Some(i) ==> i < entries@.len() && entry_keys(entries@)[i as int]
                == key@,
            position is None ==> !entry_keys(entries@).contains(key@),
    {
        let mut i: usize = 0;
        while i < entries.len()
            invariant
                i <= entries@.len(),
                forall|j: int| 0 <= j < i ==> #[trigger] entry_keys(entries@)[j] != key@,
            decreases entries.len() - i,
        {
            if entries[i].0 == *key {
                return Some(i);
            }
            i += 1;
        }
        None
    }

    /// Finds the cell of a key.
    pub fn get(&self, key: &OHttpClientCacheKey) -> (cell: Option<&C>)
        ensures
            cell == if self@.contains_key(key@) {
                Some(&self@[key@])
            } else {
                None
            },
    {
        proof {
            use_type_invariant(self);
        }
        match OHttpClientCache::position(&self.entries, key) {
            Some(i) => {
                proof {
                    cell_at(self.entries@, i as int);
                }
                Some(&self.entries[i].1)
            },
            None => None,
        }
    }

    /// Finds the cell of a key, and puts in the fresh one where there is none.
    pub fn entry(&mut self, key: OHttpClientCacheKey, fresh: C) -> (found: CacheEntry<'_, C>)
        ensures
            final(self)@ == with_entry(old(self)@, key@, fresh),
            final(self)@.contains_key(key@),
            *found.cell == final(self)@[key@],
            final(self)@.dom().finite(),
            found.alarm == if is_alarming(final(self)@.dom().len()) {
                Some(final(self)@.dom().len() as usize)
            } else {
                None
            },
    {
        proof {
            use_type_invariant(&*self);
        }
        let ghost view = key@;
        let position = match OHttpClientCache::position(&self.entries, &key) {
            Some(i) => {
                proof {
                    cell_at(self.entries@, i as int);
                }
                i
            },
            None => {
                let i = self.entries.len();
                let mut entries: Vec<(OHttpClientCacheKey, C)> = Vec::new();
                std::mem::swap(&mut entries, &mut self.entries);
                let ghost before = entries@;
                entries.push((key, fresh));
                proof {
                    assert(entry_keys(entries@) =~= entry_keys(before).push(view));
                    assert(entry_keys(entries@).no_duplicates());
                    assert(entries@.drop_last() =~= before);
                    pushed_cells(before, entries@);
                }
                self.entries = entries;
                proof {
                    cell_at(self.entries@, i as int);
                }
                i
            },
        };
        proof {
            size_is_count(self.entries@);
        }
        let size = self.entries.len();
        let alarm = if size > 100 && power_of_two(size) {
            Some(size)
        } else {
            None
        };
        CacheEntry { cell: &self.entries[position].1, alarm }
    }
}

proof fn cell_at<C>(entries: Seq<(OHttpClientCacheKey, C)>, i: int)
    requires
        entry_keys(entries).no_duplicates(),
        0 <= i < entries.len(),
    ensures
        entry_cells(entries).contains_key(entry_keys(entries)[i]),
        entry_cells(entries)[entry_keys(entries)[i]] == entries[i].1,
{
    let keys = entry_keys(entries);
    assert(keys.contains(keys[i]));
    assert(keys[keys.index_of(keys[i])] == keys[i]);
}

proof fn pushed_cells<C>(
    before: Seq<(OHttpClientCacheKey, C)>,
    after: Seq<(OHttpClientCacheKey, C)>,
)
    requires
        after.len() == before.len() + 1,
        after.drop_last() == before,
        entry_keys(after).no_duplicates(),
    ensures
        !entry_cells(before).contains_key(after.last().0@),
        entry_cells(after) == entry_cells(before).insert(after.last().0@, after.last().1),
{
    let keys = entry_keys(before);
    let all = entry_keys(after);
    let key = after.last().0@;
    assert(all =~= keys.push(key));
    assert forall|k: CacheKeyView| all.contains(k) <==> keys.contains(k) || k == key by {
        if all.contains(k) {
            let i = choose|i: int| 0 <= i < all.len() && all[i] == k;
            if i < keys.len() {
                assert(keys[i] == k);
            }
        }
        if keys.contains(k) {
            let i = choose|i: int| 0 <= i < keys.len() && keys[i] == k;
            assert(all[i] == k);
        }
        assert(all[keys.len() as int] == key);
    }
    assert forall|k: CacheKeyView| keys.contains(k) implies k != key && entry_cells(after)[k]
        == entry_cells(before)[k] by {
        let i = choose|i: int| 0 <= i < keys.len() && keys[i] == k;
        assert(all[i] == k);
        assert(all[keys.len() as int] == key);
        assert(entry_keys(before).no_duplicates()) by {
            assert forall|x: int, y: int| 0 <= x < y < keys.len() implies keys[x] != keys[y] by {
                assert(all[x] != all[y]);
            }
        }
        cell_at(after, i);
        cell_at(before, i);
        assert(after[i] == before[i]);
    }
    cell_at(after, keys.len() as int);
    assert(entry_cells(after) =~= entry_cells(before).insert(key, after.last().1));
}

proof fn size_is_count<C>(entries: Seq<(OHttpClientCacheKey, C)>)
    requires
        entry_keys(entries).no_duplicates(),
    ensures
        entry_cells(entries).dom().finite(),
        entry_cells(entries).dom().len() == entries.len(),
{
    let keys = entry_keys(entries);
    keys.unique_seq_to_set();
    assert(entry_cells(entries).dom() =~= keys.to_set());
}

/// A cell stays with its key: giving any key its entry neither takes away nor
/// replaces the cell of another key.
pub proof fn entry_keeps_cells<C>(
    cells: Map<CacheKeyView, C>,
    key: CacheKeyView,
    fresh: C,
    other: CacheKeyView,
)
    requires
        cells.contains_key(other),
    ensures
        with_entry(cells, key, fresh).contains_key(other),
        with_entry(cells, key, fresh)[other] == cells[other],
{
}

/// The cache grows by one cell with each new key, and by none with a known one.
pub proof fn cache_grows_with_new_keys<C>(
    cells: Map<CacheKeyView, C>,
    key: CacheKeyView,
    fresh: C,
)
    requires
        cells.dom().finite(),
    ensures
        with_entry(cells, key, fresh).dom().len() == cells.dom().len() + if cells.contains_key(
            key,
        ) {
            0int
        } else {
            1int
        },
{
}

/// Requests with the same key share a cell: a fresh cell that is offered later is
/// not taken up.
pub proof fn same_key_shares_cell<C>(
    cells: Map<CacheKeyView, C>,
    key: CacheKeyView,
    first: C,
    second: C,
)
    ensures
        with_entry(with_entry(cells, key, first), key, second) == with_entry(cells, key, first),
{
}

/// Requests with different keys do not share a cell: the entry of one key gives the
/// other none.
pub proof fn different_keys_are_separate<C>(
    cells: Map<CacheKeyView, C>,
    key: CacheKeyView,
    fresh: C,
    other: CacheKeyView,
)
    requires
        key != other,
    ensures
        with_entry(cells, key, fresh).contains_key(other) <==> cells.contains_key(other),
        with_entry(cells, key, fresh)[key] == if cells.contains_key(key) {
            cells[key]
        } else {
            fresh
        },
{
}

/// Keys are the same exactly when their URLs have the same text, and they hold as many
/// headers, with the same names and values in the same order.
pub proof fn keys_agree_in_all_they_hold(key: OHttpClientCacheKey, other: OHttpClientCacheKey)
    ensures
        key@ == other@ <==> {
            &&& urls::url_text(key.base_url) == urls::url_text(other.base_url)
            &&& key.forwarded_headers@.len() == other.forwarded_headers@.len()
            &&& forall|i: int|
                0 <= i < key.forwarded_headers@.len() ==> {
                    &&& (#[trigger] key.forwarded_headers@[i]).0@
                        == other.forwarded_headers@[i].0@
                    &&& key.forwarded_headers@[i].1@ == other.forwarded_headers@[i].1@
                }
        },
{
    let mine = key@.forwarded_headers;
    let theirs = other@.forwarded_headers;
    if key@ == other@ {
        assert(mine.len() == theirs.len());
        assert forall|i: int| 0 <= i < key.forwarded_headers@.len() implies {
            &&& (#[trigger] key.forwarded_headers@[i]).0@ == other.forwarded_headers@[i].0@
            &&& key.forwarded_headers@[i].1@ == other.forwarded_headers@[i].1@
        } by {
            assert(mine[i] == theirs[i]);
        }
    }
    if urls::url_text(key.base_url) == urls::url_text(other.base_url)
        && key.forwarded_headers@.len() == other.forwarded_headers@.len() && forall|i: int|
        0 <= i < key.forwarded_headers@.len() ==> {
            &&& (#[trigger] key.forwarded_headers@[i]).0@ == other.forwarded_headers@[i].0@
            &&& key.forwarded_headers@[i].1@ == other.forwarded_headers@[i].1@
        } {
        assert(mine.len() == theirs.len());
        assert forall|i: int| 0 <= i < mine.len() implies mine[i] == theirs[i] by {
            assert(key.forwarded_headers@[i].0@ == other.forwarded_headers@[i].0@);
        }
        assert(mine =~= theirs);
        assert(key@ =~= other@);
    }
}

/// A key without a cell gets the fresh one, and a key with a cell keeps it.
pub proof fn entry_gives_the_key_a_cell<C>(
    cells: Map<CacheKeyView, C>,
    key: CacheKeyView,
    fresh: C,
)
    ensures
        with_entry(cells, key, fresh).contains_key(key),
        !cells.contains_key(key) ==> with_entry(cells, key, fresh)[key] == fresh,
        cells.contains_key(key) ==> with_entry(cells, key, fresh)[key] == cells[key],
{
}

/// The powers of two are the doublings of one, and nothing between two neighbours of them
/// is one.
pub proof fn powers_of_two_are_doublings(k: nat, n: nat)
    ensures
        is_power_of_two(pow2(k)),
        pow2(k) < n < pow2(k + 1) ==> !is_power_of_two(n),
        !is_power_of_two(0),
{
    assert forall|j: nat| #[trigger] pow2(j) != 0 by {
        vstd::arithmetic::power2::lemma_pow2_pos(j);
    }
    if pow2(k) < n < pow2(k + 1) && is_power_of_two(n) {
        let j = choose|j: nat| #[trigger] pow2(j) == n;
        if j < k {
            vstd::arithmetic::power2::lemma_pow2_strictly_increases(j, k);
        } else if j > k + 1 {
            vstd::arithmetic::power2::lemma_pow2_strictly_increases(k + 1, j);
        }
    }
}

/// A growing cache calls for a warning at each doubling from 128 on, and at no other size.
pub proof fn alarms_at_doublings(k: nat, size: nat)
    ensures
        is_alarming(pow2(k)) <==> k >= 7,
        is_alarming(size) ==> size >= 128,
        pow2(k) < size < pow2(k + 1) ==> !is_alarming(size),
{
    powers_of_two_are_doublings(k, size);
    vstd::arithmetic::power2::lemma2_to64();
    if k > 7 {
        vstd::arithmetic::power2::lemma_pow2_strictly_increases(7, k);
    }
    if k < 6 {
        vstd::arithmetic::power2::lemma_pow2_strictly_increases(k, 6);
    }
    if is_alarming(size) && size < 128 {
        powers_of_two_are_doublings(6, size);
    }
}

} // verus!
