//! The content-addressed store of known certificates: one entry per SHA-1
//! fingerprint, listed by expiry, changed by diffs.

use vstd::prelude::*;
use vstd::string::*;
use dashmap::DashMap;
use crate::clock::now_timestamp;
use crate::entries::{
    count_where, lemma_count_partition, lemma_listing_count, lemma_listing_len, lists_map,
};
use crate::error::DoomsdayError;
use crate::types::{
    items_view, strings_view, CacheItem, CacheItemView, CacheObject, CacheObjectView,
};

verus! {

#[verifier::external_type_specification]
#[verifier::external_body]
#[verifier::reject_recursive_types(K)]
#[verifier::reject_recursive_types(V)]
#[verifier::reject_recursive_types(S)]
pub struct ExDashMap<K, V, S>(DashMap<K, V, S>);

/// What a map of certificates holds: for each key, the view of its entry.
pub uninterp spec fn cache_entries(m: DashMap<String, CacheObject>) -> Map<
    Seq<char>,
    CacheObjectView,
>;

/// The map without entries.
pub open spec fn no_entries() -> Map<Seq<char>, CacheObjectView> {
    Map::empty()
}

/// The keys of a listing of entries.
pub open spec fn listed_keys(s: Seq<(String, CacheObject)>) -> Seq<Seq<char>> {
    s.map_values(|e: (String, CacheObject)| e.0@)
}

/// The values of a listing of entries.
pub open spec fn listed_values(s: Seq<(String, CacheObject)>) -> Seq<CacheObjectView> {
    s.map_values(|e: (String, CacheObject)| e.1@)
}

/// Trusted: `DashMap::new` gives a map that holds nothing.
#[verifier::external_body]
fn entries_new() -> (m: DashMap<String, CacheObject>)
    ensures
        cache_entries(m) == no_entries(),
{
    DashMap::new()
}

/// Trusted: `DashMap::get` finds the entry stored under exactly this key, if
/// there is one; the wrapper hands out a copy of it.
#[verifier::external_body]
fn entries_get(m: &DashMap<String, CacheObject>, key: &str) -> (r: Option<CacheObject>)
    ensures
        match r {
            Some(v) => cache_entries(*m).contains_key(key@) && cache_entries(*m)[key@] == v@,
            None => !cache_entries(*m).contains_key(key@),
        },
{
    m.get(key).map(|entry| entry.value().clone())
}

/// Trusted: `DashMap::insert` stores the value under the key, replacing what
/// was there, and leaves every other entry as it was.
#[verifier::external_body]
fn entries_insert(m: &mut DashMap<String, CacheObject>, key: String, value: CacheObject)
    ensures
        cache_entries(*final(m)) == cache_entries(*old(m)).insert(key@, value@),
{
    m.insert(key, value);
}

/// Trusted: `DashMap::remove` takes out the entry under the key, if there is
/// one, and returns its value; every other entry stays.
#[verifier::external_body]
fn entries_remove(m: &mut DashMap<String, CacheObject>, key: &str) -> (r: Option<CacheObject>)
    ensures
        cache_entries(*final(m)) == cache_entries(*old(m)).remove(key@),
        match r {
            Some(v) => cache_entries(*old(m)).contains_key(key@) && cache_entries(*old(m))[key@]
                == v@,
            None => !cache_entries(*old(m)).contains_key(key@),
        },
{
    m.remove(key).map(|(_, value)| value)
}

/// Trusted: `DashMap::len` is the number of entries.
#[verifier::external_body]
fn entries_len(m: &DashMap<String, CacheObject>) -> (n: usize)
    ensures
        n == cache_entries(*m).dom().len(),
{
    m.len()
}

/// Trusted: `DashMap::is_empty` tells whether the map holds nothing.
#[verifier::external_body]
fn entries_is_empty(m: &DashMap<String, CacheObject>) -> (b: bool)
    ensures
        b == (cache_entries(*m) == no_entries()),
{
    m.is_empty()
}

/// Trusted: `DashMap::clear` removes every entry.
#[verifier::external_body]
fn entries_clear(m: &mut DashMap<String, CacheObject>)
    ensures
        cache_entries(*final(m)) == no_entries(),
{
    m.clear();
}

/// Trusted: `DashMap::iter` visits every entry exactly once, in an order that
/// is not specified; the wrapper copies each key and value as it comes.
#[verifier::external_body]
fn entries_snapshot(m: &DashMap<String, CacheObject>) -> (r: Vec<(String, CacheObject)>)
    ensures
        lists_map(listed_keys(r@), listed_values(r@), cache_entries(*m)),
{
    m.iter().map(|entry| (entry.key().clone(), entry.value().clone())).collect()
}

/// Thirty days in seconds: how close an expiry counts as soon.
pub const EXPIRING_SOON_SECONDS: i64 = 2592000;

/// Whether a certificate that expires at `not_after` has expired at `now`.
pub open spec fn is_expired(not_after: int, now: int) -> bool {
    not_after < now
}

/// Whether a certificate that expires at `not_after` is still valid at `now`
/// but will not be in thirty days.
pub open spec fn is_expiring_soon(not_after: int, now: int) -> bool {
    0 <= not_after - now <= 2592000
}

/// Whether a certificate that expires at `not_after` is neither expired at
/// `now` nor expiring soon.
pub open spec fn is_ok(not_after: int, now: int) -> bool {
    not_after - now > 2592000
}

/// Counts of the known certificates by how close they are to expiry.
#[derive(Clone, Copy, Debug, PartialEq, Eq, Structural)]
pub struct CacheStats {
    pub total: usize,
    pub ok: usize,
    pub expiring_soon: usize,
    pub expired: usize,
}

impl Default for CacheStats {
    fn default() -> (r: Self)
        ensures
            r == (CacheStats { total: 0, ok: 0, expiring_soon: 0, expired: 0 }),
    {
        CacheStats { total: 0, ok: 0, expiring_soon: 0, expired: 0 }
    }
}

impl CacheStats {
    pub fn new() -> (r: Self)
        ensures
            r == (CacheStats { total: 0, ok: 0, expiring_soon: 0, expired: 0 }),
    {
        CacheStats { total: 0, ok: 0, expiring_soon: 0, expired: 0 }
    }

    /// Whether these are the counts of the entries of `m` at the instant `now`.
    pub open spec fn describes(self, m: Map<Seq<char>, CacheObjectView>, now: int) -> bool {
        &&& self.total == m.dom().len()
        &&& self.expired == count_where(m, |v: CacheObjectView| is_expired(v.not_after, now))
        &&& self.expiring_soon == count_where(
            m,
            |v: CacheObjectView| is_expiring_soon(v.not_after, now),
        )
        &&& self.ok == count_where(m, |v: CacheObjectView| is_ok(v.not_after, now))
    }
}

/// A change to the cache: entries to put in, by fingerprint, and fingerprints
/// to take out. Where a fingerprint is added more than once, the last entry
/// counts.
#[derive(Debug)]
pub struct CacheDiff {
    pub added: Vec<(String, CacheObject)>,
    pub removed: Vec<String>,
}

pub struct CacheDiffView {
    pub added: Seq<(Seq<char>, CacheObjectView)>,
    pub removed: Seq<Seq<char>>,
}

/// The views of a list of keyed entries.
pub open spec fn added_view(s: Seq<(String, CacheObject)>) -> Seq<(Seq<char>, CacheObjectView)> {
    s.map_values(|e: (String, CacheObject)| (e.0@, e.1@))
}

impl View for CacheDiff {
    type V = CacheDiffView;

    open spec fn view(&self) -> CacheDiffView {
        CacheDiffView { added: added_view(self.added@), removed: strings_view(self.removed@) }
    }
}

/// The entry that a list of additions leaves under `key`: the last one added
/// under it, if any.
pub open spec fn latest(added: Seq<(Seq<char>, CacheObjectView)>, key: Seq<char>) -> Option<
    CacheObjectView,
>
    decreases added.len(),
{
    if added.len() == 0 {
        None
    } else if added.last().0 == key {
        Some(added.last().1)
    } else {
        latest(added.drop_last(), key)
    }
}

impl CacheDiffView {
    /// The cache after this diff: every removed fingerprint is taken out first,
    /// then every added entry is put in, replacing what was there.
    pub open spec fn apply(self, m: Map<Seq<char>, CacheObjectView>) -> Map<
        Seq<char>,
        CacheObjectView,
    > {
        Map::new(
            |k: Seq<char>|
                latest(self.added, k) is Some || (m.contains_key(k) && !self.removed.contains(k)),
            |k: Seq<char>|
                match latest(self.added, k) {
                    Some(v) => v,
                    None => m[k],
                },
        )
    }

    /// Whether every added entry is stored under its own fingerprint and names
    /// at least one place where it was found.
    pub open spec fn consistent(self) -> bool {
        forall|i: int|
            0 <= i < self.added.len() ==> entry_consistent(
                (#[trigger] self.added[i]).0,
                self.added[i].1,
            )
    }

    /// Whether no added entry names a place twice.
    pub open spec fn places_distinct(self) -> bool {
        forall|i: int|
            0 <= i < self.added.len() ==> (#[trigger] self.added[i]).1.paths.no_duplicates()
    }
}

impl CacheDiff {
    pub fn new() -> (r: Self)
        ensures
            r@.added.len() == 0,
            r@.removed.len() == 0,
    {
        CacheDiff { added: Vec::new(), removed: Vec::new() }
    }

    pub fn is_empty(&self) -> (b: bool)
        ensures
            b == (self@.added.len() == 0 && self@.removed.len() == 0),
    {
        self.added.len() == 0 && self.removed.len() == 0
    }
}

/// Whether `entry` may stand under `key`: the key is the entry's fingerprint,
/// and the entry names at least one place.
pub open spec fn entry_consistent(key: Seq<char>, entry: CacheObjectView) -> bool {
    &&& entry.sha1 == key
    &&& entry.paths.len() >= 1
}

/// Whether every entry of `m` stands under its own fingerprint and names at
/// least one place where it was found.
pub open spec fn entries_consistent(m: Map<Seq<char>, CacheObjectView>) -> bool {
    forall|k: Seq<char>| #[trigger] m.contains_key(k) ==> entry_consistent(k, m[k])
}

/// Whether no entry of `m` names a place twice.
pub open spec fn entries_places_distinct(m: Map<Seq<char>, CacheObjectView>) -> bool {
    forall|k: Seq<char>| #[trigger] m.contains_key(k) ==> m[k].paths.no_duplicates()
}

/// Whether `items` is non-decreasing by expiry.
pub open spec fn sorted_by_expiry(items: Seq<CacheItemView>) -> bool {
    forall|i: int, j: int| 0 <= i <= j < items.len() ==> items[i].not_after <= items[j].not_after
}

/// Whether `items` shows every entry of `m` exactly once, in some order.
pub open spec fn is_listing(items: Seq<CacheItemView>, m: Map<Seq<char>, CacheObjectView>) -> bool {
    exists|keys: Seq<Seq<char>>| shows_entries(items, keys, m)
}

/// Whether `items` shows the entries of `m` in the order in which `keys` names
/// them, and `keys` names each key of `m` once.
pub open spec fn shows_entries(
    items: Seq<CacheItemView>,
    keys: Seq<Seq<char>>,
    m: Map<Seq<char>, CacheObjectView>,
) -> bool {
    &&& keys.len() == items.len()
    &&& keys.no_duplicates()
    &&& forall|i: int|
        0 <= i < keys.len() ==> m.contains_key(#[trigger] keys[i]) && m[keys[i]].item() == items[i]
    &&& forall|k: Seq<char>| #[trigger] m.contains_key(k) ==> keys.contains(k)
}

/// The elements of `s` at the positions where `kept` is true, in order.
pub open spec fn selection<A>(s: Seq<A>, kept: Seq<bool>) -> Seq<A>
    decreases s.len(),
{
    if s.len() == 0 || kept.len() != s.len() {
        Seq::empty()
    } else if kept.last() {
        selection(s.drop_last(), kept.drop_last()).push(s.last())
    } else {
        selection(s.drop_last(), kept.drop_last())
    }
}

/// The items for which `filter` answers yes, in the order given.
pub fn keep_matching<F: Fn(&CacheItem) -> bool>(items: Vec<CacheItem>, filter: F) -> (out: Vec<
    CacheItem,
>)
    requires
        forall|item: &CacheItem| filter.requires((item,)),
    ensures
        exists|kept: Seq<bool>|
            kept.len() == items.len() && (forall|i: int|
                0 <= i < items.len() ==> filter.ensures((&items@[i],), #[trigger] kept[i]))
                && items_view(out@) == selection(items_view(items@), kept),
{
    let mut out: Vec<CacheItem> = Vec::new();
    let ghost mut kept: Seq<bool> = Seq::empty();
    let mut i: usize = 0;
    while i < items.len()
        invariant
            i <= items.len(),
            kept.len() == i,
            forall|item: &CacheItem| filter.requires((item,)),
            forall|j: int| 0 <= j < i ==> filter.ensures((&items@[j],), #[trigger] kept[j]),
            items_view(out@) == selection(items_view(items@.take(i as int)), kept),
        decreases items.len() - i,
    {
        let yes = filter(&items[i]);
        proof {
            let before = items_view(items@.take(i as int));
            let after = items_view(items@.take(i + 1));
            assert(after.drop_last() =~= before);
            assert(after.last() == items@[i as int]@);
            assert(kept.push(yes).drop_last() =~= kept);
            kept = kept.push(yes);
        }
        if yes {
            let item = items[i].clone();
            proof {
                assert(items_view(out@.push(item)) =~= items_view(out@).push(item@));
            }
            out.push(item);
        }
        i += 1;
    }
    proof {
        assert(items@.take(i as int) =~= items@);
    }
    out
}

/// The store of known certificates.
pub struct Cache {
    inner: DashMap<String, CacheObject>,
}

impl Default for Cache {
    fn default() -> (r: Self)
        ensures
            r@ == no_entries(),
    {
        Cache::new()
    }
}

impl Cache {
    /// The entries of the cache, by fingerprint.
    pub closed spec fn view(&self) -> Map<Seq<char>, CacheObjectView> {
        cache_entries(self.inner)
    }

    pub fn new() -> (r: Self)
        ensures
            r@ == no_entries(),
    {
        Cache { inner: entries_new() }
    }

    /// The entry stored under `sha1`, if there is one.
    pub fn get(&self, sha1: &str) -> (r: Option<CacheObject>)
        ensures
            match r {
                Some(v) => self@.contains_key(sha1@) && self@[sha1@] == v@,
                None => !self@.contains_key(sha1@),
            },
    {
        entries_get(&self.inner, sha1)
    }

    /// Stores `object` under `sha1`, replacing what was there.
    pub fn insert(&mut self, sha1: String, object: CacheObject)
        ensures
            final(self)@ == old(self)@.insert(sha1@, object@),
            entries_consistent(old(self)@) && entry_consistent(sha1@, object@)
                ==> entries_consistent(final(self)@),
            entries_places_distinct(old(self)@) && object@.paths.no_duplicates()
                ==> entries_places_distinct(final(self)@),
    {
        entries_insert(&mut self.inner, sha1, object);
    }

    /// Takes out the entry under `sha1` and returns it, if there is one.
    pub fn remove(&mut self, sha1: &str) -> (r: Option<CacheObject>)
        ensures
            final(self)@ == old(self)@.remove(sha1@),
            match r {
                Some(v) => old(self)@.contains_key(sha1@) && old(self)@[sha1@] == v@,
                None => !old(self)@.contains_key(sha1@),
            },
            entries_consistent(old(self)@) ==> entries_consistent(final(self)@),
            entries_places_distinct(old(self)@) ==> entries_places_distinct(final(self)@),
    {
        entries_remove(&mut self.inner, sha1)
    }

    /// The number of entries.
    pub fn len(&self) -> (n: usize)
        ensures
            n == self@.dom().len(),
    {
        entries_len(&self.inner)
    }

    pub fn is_empty(&self) -> (b: bool)
        ensures
            b == (self@ == no_entries()),
    {
        entries_is_empty(&self.inner)
    }

    /// Removes every entry.
    pub fn clear(&mut self)
        ensures
            final(self)@ == no_entries(),
    {
        entries_clear(&mut self.inner);
    }

    /// Every entry once, with the key it stands under, in no particular order.
    pub fn entries(&self) -> (r: Vec<(String, CacheObject)>)
        ensures
            lists_map(listed_keys(r@), listed_values(r@), self@),
            self@.dom().finite(),
            r.len() == self@.dom().len(),
    {
        let r = entries_snapshot(&self.inner);
        proof {
            lemma_listing_len(listed_keys(r@), listed_values(r@), self@);
        }
        r
    }

    /// Every entry once, as clients see it, soonest expiry first. Entries that
    /// expire at the same instant come in no particular order.
    pub fn list(&self) -> (items: Vec<CacheItem>)
        ensures
            is_listing(items_view(items@), self@),
            sorted_by_expiry(items_view(items@)),
            self@.dom().finite(),
            items.len() == self@.dom().len(),
    {
        let snapshot = entries_snapshot(&self.inner);
        let ghost m = self@;
        let ghost all_keys = listed_keys(snapshot@);
        let mut items: Vec<CacheItem> = Vec::new();
        let ghost mut keys: Seq<Seq<char>> = Seq::empty();
        let ghost mut origin: Seq<int> = Seq::empty();
        let mut i: usize = 0;
        while i < snapshot.len()
            invariant
                i <= snapshot.len(),
                m == cache_entries(self.inner),
                all_keys == listed_keys(snapshot@),
                lists_map(all_keys, listed_values(snapshot@), m),
                items.len() == i,
                keys.len() == i,
                origin.len() == i,
                forall|p: int|
                    0 <= p < i ==> 0 <= #[trigger] origin[p] < i && keys[p] == all_keys[origin[p]],
                forall|j: int| 0 <= j < i ==> keys.contains(#[trigger] all_keys[j]),
                keys.no_duplicates(),
                forall|p: int|
                    0 <= p < i ==> m.contains_key(#[trigger] keys[p]) && m[keys[p]].item()
                        == items@[p]@,
                sorted_by_expiry(items_view(items@)),
            decreases snapshot.len() - i,
        {
            let item = snapshot[i].1.to_item();
            let ghost key = snapshot@[i as int].0@;
            let mut pos: usize = items.len();
            while pos > 0 && items[pos - 1].not_after > item.not_after
                invariant
                    pos <= items.len(),
                    forall|q: int| pos <= q < items.len() ==> items@[q].not_after > item.not_after,
                decreases pos,
            {
                pos -= 1;
            }
            proof {
                assert(key == all_keys[i as int]);
                assert(m.contains_key(all_keys[i as int]) && m[all_keys[i as int]] == listed_values(
                    snapshot@,
                )[i as int]);
                let new_keys = keys.insert(pos as int, key);
                let new_origin = origin.insert(pos as int, i as int);
                let new_items = items@.insert(pos as int, item);
                assert forall|p: int| 0 <= p < i + 1 implies 0 <= #[trigger] new_origin[p] < i + 1
                    && new_keys[p] == all_keys[new_origin[p]] by {
                    if p < pos {
                        assert(new_origin[p] == origin[p]);
                    } else if p > pos {
                        assert(new_origin[p] == origin[p - 1]);
                    }
                }
                assert forall|j: int| 0 <= j < i + 1 implies new_keys.contains(
                    #[trigger] all_keys[j],
                ) by {
                    if j < i {
                        assert(keys.contains(all_keys[j]));
                        let p = choose|p: int| 0 <= p < keys.len() && keys[p] == all_keys[j];
                        if p < pos {
                            assert(new_keys[p] == all_keys[j]);
                        } else {
                            assert(new_keys[p + 1] == all_keys[j]);
                        }
                    } else {
                        assert(new_keys[pos as int] == all_keys[j]);
                    }
                }
                assert(new_keys.no_duplicates()) by {
                    assert forall|a: int, b: int|
                        0 <= a < new_keys.len() && 0 <= b < new_keys.len() && a != b
                            implies new_keys[a]
                        != new_keys[b] by {
                        let oa = new_origin[a];
                        let ob = new_origin[b];
                        assert(new_keys[a] == all_keys[oa]);
                        assert(new_keys[b] == all_keys[ob]);
                        if a != pos && b != pos {
                            let pa = if a < pos { a } else { a - 1 };
                            let pb = if b < pos { b } else { b - 1 };
                            assert(new_keys[a] == keys[pa]);
                            assert(new_keys[b] == keys[pb]);
                        } else if a == pos {
                            let pb = if b < pos { b } else { b - 1 };
                            assert(ob == origin[pb]);
                            assert(ob < i);
                        } else {
                            let pa = if a < pos { a } else { a - 1 };
                            assert(oa == origin[pa]);
                            assert(oa < i);
                        }
                    }
                }
                assert forall|p: int| 0 <= p < i + 1 implies m.contains_key(#[trigger] new_keys[p])
                    && m[new_keys[p]].item() == new_items[p]@ by {
                    if p < pos {
                        assert(new_keys[p] == keys[p]);
                    } else if p > pos {
                        assert(new_keys[p] == keys[p - 1]);
                    }
                }
                assert(sorted_by_expiry(items_view(new_items))) by {
                    let old_view = items_view(items@);
                    assert forall|a: int, b: int| 0 <= a <= b < new_items.len() implies items_view(
                        new_items,
                    )[a].not_after <= items_view(new_items)[b].not_after by {
                        let pa = if a < pos { a } else { a - 1 };
                        let pb = if b < pos { b } else { b - 1 };
                        if a != pos && b != pos {
                            assert(old_view[pa].not_after <= old_view[pb].not_after);
                        } else if a == pos && b != pos {
                            assert(items@[pb].not_after > item.not_after);
                        } else if a != pos && b == pos {
                            if pos > 0 {
                                assert(old_view[pa].not_after <= old_view[pos - 1].not_after);
                            }
                        }
                    }
                }
                keys = new_keys;
                origin = new_origin;
            }
            items.insert(pos, item);
            i += 1;
        }
        proof {
            assert forall|k: Seq<char>| #[trigger] m.contains_key(k) implies keys.contains(k) by {
                assert(all_keys.contains(k));
                let j = choose|j: int| 0 <= j < all_keys.len() && all_keys[j] == k;
                assert(keys.contains(all_keys[j]));
            }
            assert(shows_entries(items_view(items@), keys, m));
            lemma_listing_len(all_keys, listed_values(snapshot@), m);
        }
        items
    }

    /// The listing, without the items for which `filter` answers no.
    pub fn list_filtered<F: Fn(&CacheItem) -> bool>(&self, filter: F) -> (out: Vec<CacheItem>)
        requires
            forall|item: &CacheItem| filter.requires((item,)),
        ensures
            exists|all: Seq<CacheItem>, kept: Seq<bool>|
                is_listing(items_view(all), self@) && sorted_by_expiry(items_view(all))
                    && kept.len() == all.len() && (forall|i: int|
                    0 <= i < all.len() ==> filter.ensures((&all[i],), #[trigger] kept[i]))
                    && items_view(out@) == selection(items_view(all), kept),
    {
        let all = self.list();
        let out = keep_matching(all, filter);
        proof {
            let kept = choose|kept: Seq<bool>|
                kept.len() == all.len() && (forall|i: int|
                    0 <= i < all.len() ==> filter.ensures((&all@[i],), #[trigger] kept[i]))
                    && items_view(out@) == selection(items_view(all@), kept);
            assert(is_listing(items_view(all@), self@) && sorted_by_expiry(items_view(all@))
                && kept.len() == all@.len() && (forall|i: int|
                0 <= i < all@.len() ==> filter.ensures((&all@[i],), #[trigger] kept[i]))
                && items_view(out@) == selection(items_view(all@), kept));
        }
        out
    }

    /// Applies `diff`: takes out every removed fingerprint, then puts in every
    /// added entry. Never fails.
    pub fn update_from_diff(&mut self, diff: CacheDiff) -> (r: Result<(), DoomsdayError>)
        ensures
            r is Ok,
            final(self)@ == diff@.apply(old(self)@),
            entries_consistent(old(self)@) && diff@.consistent() ==> entries_consistent(
                final(self)@,
            ),
            entries_places_distinct(old(self)@) && diff@.places_distinct()
                ==> entries_places_distinct(final(self)@),
    {
        let ghost start = self@;
        let ghost removed = strings_view(diff.removed@);
        let mut i: usize = 0;
        while i < diff.removed.len()
            invariant
                i <= diff.removed.len(),
                removed == strings_view(diff.removed@),
                self@ == start.remove_keys(removed.take(i as int).to_set()),
            decreases diff.removed.len() - i,
        {
            let _ = entries_remove(&mut self.inner, diff.removed[i].as_str());
            proof {
                let before = removed.take(i as int);
                let after = removed.take(i + 1);
                assert(after =~= before.push(removed[i as int]));
                before.lemma_push_to_set_commute(removed[i as int]);
                assert(start.remove_keys(before.to_set()).remove(removed[i as int])
                    =~= start.remove_keys(after.to_set()));
            }
            i += 1;
        }
        let ghost middle = self@;
        let ghost added = added_view(diff.added@);
        proof {
            assert(removed.take(i as int) =~= removed);
        }
        let mut j: usize = 0;
        while j < diff.added.len()
            invariant
                j <= diff.added.len(),
                added == added_view(diff.added@),
                middle == start.remove_keys(removed.to_set()),
                self@ == (CacheDiffView { added: added.take(j as int), removed: removed }).apply(
                    start,
                ),
            decreases diff.added.len() - j,
        {
            let key = diff.added[j].0.clone();
            let value = diff.added[j].1.clone();
            entries_insert(&mut self.inner, key, value);
            proof {
                let before = added.take(j as int);
                let after = added.take(j + 1);
                assert(after.drop_last() =~= before);
                assert(after.last() == added[j as int]);
                assert((CacheDiffView { added: before, removed: removed }).apply(start).insert(
                    added[j as int].0,
                    added[j as int].1,
                ) =~= (CacheDiffView { added: after, removed: removed }).apply(start));
            }
            j += 1;
        }
        proof {
            assert(added.take(j as int) =~= added);
            lemma_diff_keeps_consistency(start, diff@);
        }
        Ok(())
    }

    /// The counts of the entries by closeness to expiry, at the instant `now`.
    pub fn stats_at(&self, now: i64) -> (stats: CacheStats)
        ensures
            stats.describes(self@, now as int),
            stats.total == stats.ok + stats.expiring_soon + stats.expired,
            self@.dom().finite(),
    {
        let snapshot = entries_snapshot(&self.inner);
        let ghost vals = listed_values(snapshot@);
        let ghost expired = |v: CacheObjectView| is_expired(v.not_after, now as int);
        let ghost soon = |v: CacheObjectView| is_expiring_soon(v.not_after, now as int);
        let ghost fine = |v: CacheObjectView| is_ok(v.not_after, now as int);
        let mut stats = CacheStats { total: 0, ok: 0, expiring_soon: 0, expired: 0 };
        let mut i: usize = 0;
        while i < snapshot.len()
            invariant
                i <= snapshot.len(),
                vals == listed_values(snapshot@),
                expired == |v: CacheObjectView| is_expired(v.not_after, now as int),
                soon == |v: CacheObjectView| is_expiring_soon(v.not_after, now as int),
                fine == |v: CacheObjectView| is_ok(v.not_after, now as int),
                stats.total == i,
                stats.expired == vals.take(i as int).filter(expired).len(),
                stats.expiring_soon == vals.take(i as int).filter(soon).len(),
                stats.ok == vals.take(i as int).filter(fine).len(),
                stats.total == stats.ok + stats.expiring_soon + stats.expired,
            decreases snapshot.len() - i,
        {
            let not_after: i64 = snapshot[i].1.not_after;
            proof {
                let v = vals[i as int];
                assert(v.not_after == not_after);
                assert(vals.take(i + 1) =~= vals.take(i as int).push(v));
                vals.take(i as int).lemma_filter_push(v, expired);
                vals.take(i as int).lemma_filter_push(v, soon);
                vals.take(i as int).lemma_filter_push(v, fine);
            }
            stats.total += 1;
            if not_after < now {
                stats.expired += 1;
            } else if not_after as i128 - now as i128 <= EXPIRING_SOON_SECONDS as i128 {
                stats.expiring_soon += 1;
            } else {
                stats.ok += 1;
            }
            i += 1;
        }
        proof {
            assert(vals.take(i as int) =~= vals);
            let keys = listed_keys(snapshot@);
            lemma_listing_len(keys, vals, self@);
            lemma_listing_count(keys, vals, self@, expired);
            lemma_listing_count(keys, vals, self@, soon);
            lemma_listing_count(keys, vals, self@, fine);
        }
        stats
    }

    /// The counts of the entries by closeness to expiry, at the instant the
    /// clock shows when this is called.
    pub fn get_stats(&self) -> (stats: CacheStats)
        ensures
            exists|now: i64| stats.describes(self@, now as int),
            stats.total == self@.dom().len(),
            stats.total == stats.ok + stats.expiring_soon + stats.expired,
    {
        let now = now_timestamp();
        self.stats_at(now)
    }
}

/// An entry of the cache after a diff is the last one that the diff added
/// under its key or, where the diff added none, the entry that was there and
/// was not removed.
pub proof fn lemma_latest_is_added(added: Seq<(Seq<char>, CacheObjectView)>, key: Seq<char>)
    ensures
        match latest(added, key) {
            Some(v) => exists|i: int| 0 <= i < added.len() && added[i] == (key, v),
            None => forall|i: int| 0 <= i < added.len() ==> (#[trigger] added[i]).0 != key,
        },
    decreases added.len(),
{
    if added.len() == 0 {
    } else if added.last().0 == key {
        assert(added[added.len() - 1] == (key, added.last().1));
    } else {
        lemma_latest_is_added(added.drop_last(), key);
        match latest(added, key) {
            Some(v) => {
                let i = choose|i: int|
                    0 <= i < added.drop_last().len() && added.drop_last()[i] == (key, v);
                assert(added[i] == (key, v));
            },
            None => {
                assert forall|i: int| 0 <= i < added.len() implies (#[trigger] added[i]).0
                    != key by {
                    if i < added.len() - 1 {
                        assert(added.drop_last()[i] == added[i]);
                    }
                }
            },
        }
    }
}

/// Applying a diff whose added entries are consistent to a cache whose
/// entries are consistent leaves every entry consistent: each stands under
/// its own fingerprint and names at least one place. Likewise for naming no
/// place twice.
pub proof fn lemma_diff_keeps_consistency(m: Map<Seq<char>, CacheObjectView>, diff: CacheDiffView)
    ensures
        entries_consistent(m) && diff.consistent() ==> entries_consistent(diff.apply(m)),
        entries_places_distinct(m) && diff.places_distinct() ==> entries_places_distinct(
            diff.apply(m),
        ),
{
    if entries_places_distinct(m) && diff.places_distinct() {
        let after = diff.apply(m);
        assert forall|k: Seq<char>| #[trigger] after.contains_key(k)
            implies after[k].paths.no_duplicates() by {
            lemma_latest_is_added(diff.added, k);
            match latest(diff.added, k) {
                Some(v) => {
                    let i = choose|i: int| 0 <= i < diff.added.len() && diff.added[i] == (k, v);
                    assert(diff.added[i].1.paths.no_duplicates());
                },
                None => {
                    assert(m.contains_key(k));
                },
            }
        }
    }
    if entries_consistent(m) && diff.consistent() {
        let after = diff.apply(m);
        assert forall|k: Seq<char>| #[trigger] after.contains_key(k) implies entry_consistent(
            k,
            after[k],
        ) by {
            lemma_latest_is_added(diff.added, k);
            match latest(diff.added, k) {
                Some(v) => {
                    let i = choose|i: int| 0 <= i < diff.added.len() && diff.added[i] == (k, v);
                    assert(entry_consistent(diff.added[i].0, diff.added[i].1));
                },
                None => {
                    assert(m.contains_key(k));
                },
            }
        }
    }
}

/// Counts that describe a cache add up: every certificate is expired,
/// expiring soon or fine, and only one of these.
pub proof fn lemma_stats_add_up(stats: CacheStats, m: Map<Seq<char>, CacheObjectView>, now: int)
    requires
        m.dom().finite(),
        stats.describes(m, now),
    ensures
        stats.total == stats.ok + stats.expiring_soon + stats.expired,
{
    lemma_count_partition(
        m,
        |v: CacheObjectView| is_expired(v.not_after, now),
        |v: CacheObjectView| is_expiring_soon(v.not_after, now),
        |v: CacheObjectView| is_ok(v.not_after, now),
    );
}

/// Applying the same diff twice leaves the cache as applying it once does.
pub proof fn lemma_diff_idempotent(m: Map<Seq<char>, CacheObjectView>, diff: CacheDiffView)
    ensures
        diff.apply(diff.apply(m)) == diff.apply(m),
{
    assert(diff.apply(diff.apply(m)) =~= diff.apply(m));
}

} // verus!
