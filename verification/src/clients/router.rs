//! The router: a client composed from multiple keyed sub-clients, addressed
//! as one.
//!
//! # Bot ids
//!
//! Bot ids exported by the router are prefixed with the key used to insert
//! the sub-client, `"<key>/<original-id>"`; only the first `/` is
//! significant, so sub-client-local ids may freely contain further `/`
//! characters. [`RouterClient::prefix`] and [`RouterClient::unprefix`] help
//! when building such ids by hand.
//!
//! # Cache
//!
//! The router caches each sub-client's directory result. A listing pass
//! refetches exactly the entries whose cache is unset or whose cached result
//! carries errors: a clean cached success, even an empty one, is never
//! auto-refetched until the cache is invalidated explicitly.
//!
//! # Division of work
//!
//! The router itself is synchronous state: callers that fan directory calls
//! out to sub-clients do so outside (typically concurrently, joining all
//! calls), asking [`RouterClient::keys_to_refresh`] which sub-clients to
//! contact, handing every completed result back through
//! [`RouterClient::apply_refresh`], and reading the merged directory off
//! [`RouterClient::aggregate_bots`].

use vstd::prelude::*;
use vstd::string::*;
use crate::protocol::entity::{
    first_pos, has_char, lemma_first_at, find_first, str_eq, Bot, BotId, BotView,
};
use crate::protocol::result::{ClientError, ClientErrorKind, ClientResult};

verus! {

/// One keyed sub-client with its cached directory result.
pub struct RouterEntry<C> {
    /// The key the sub-client was inserted under.
    pub key: String,
    /// The sub-client handle. The router stores and hands it out; calling it
    /// is the caller's business.
    pub client: C,
    /// The cached outcome of the sub-client's last directory call, unset
    /// until a result is stored or after invalidation.
    pub bots_result: Option<ClientResult<Vec<Bot>>>,
}

/// A client that can be composed from multiple sub-clients to interact with
/// all of them as one.
pub struct RouterClient<C> {
    entries: Vec<RouterEntry<C>>,
}

/// A namespaced id: the sub-client's key, a `'/'`, then the original id.
pub open spec fn prefixed(key: Seq<char>, id: Seq<char>) -> Seq<char> {
    key + "/"@ + id
}

/// A bot as the router re-exports it: the id namespaced, all else untouched.
pub open spec fn namespaced_bot(key: Seq<char>, b: BotView) -> BotView {
    BotView { id: prefixed(key, b.id), ..b }
}

/// Whether a listing pass must contact this entry's sub-client: its cache is
/// unset, or the cached result carries at least one error.
pub open spec fn needs_refresh<C>(e: RouterEntry<C>) -> bool {
    match e.bots_result {
        None => true,
        Some(r) => r.spec_errors().len() > 0,
    }
}

/// The keys a listing pass refetches, in entry order.
pub open spec fn refresh_keys<C>(entries: Seq<RouterEntry<C>>) -> Seq<Seq<char>>
    decreases entries.len(),
{
    if entries.len() == 0 {
        Seq::empty()
    } else {
        refresh_keys(entries.drop_last()) + if needs_refresh(entries.last()) {
            seq![entries.last().key@]
        } else {
            Seq::empty()
        }
    }
}

/// The errors one entry contributes to the merged directory.
pub open spec fn entry_errors<C>(e: RouterEntry<C>) -> Seq<ClientError> {
    match e.bots_result {
        None => Seq::empty(),
        Some(r) => r.spec_errors(),
    }
}

/// The namespaced bots one entry contributes to the merged directory.
pub open spec fn entry_bots<C>(e: RouterEntry<C>) -> Seq<BotView> {
    match e.bots_result {
        None => Seq::empty(),
        Some(r) => match r.spec_value() {
            None => Seq::empty(),
            Some(bots) => bots@.map_values(|b: Bot| namespaced_bot(e.key@, b@)),
        },
    }
}

/// All errors the merged directory carries, in entry order.
pub open spec fn agg_errors<C>(entries: Seq<RouterEntry<C>>) -> Seq<ClientError>
    decreases entries.len(),
{
    if entries.len() == 0 {
        Seq::empty()
    } else {
        agg_errors(entries.drop_last()) + entry_errors(entries.last())
    }
}

/// All namespaced bots the merged directory carries, in entry order.
pub open spec fn agg_bots<C>(entries: Seq<RouterEntry<C>>) -> Seq<BotView>
    decreases entries.len(),
{
    if entries.len() == 0 {
        Seq::empty()
    } else {
        agg_bots(entries.drop_last()) + entry_bots(entries.last())
    }
}

/// Whether any entry carries a cached directory result at all.
pub open spec fn agg_has_cached<C>(entries: Seq<RouterEntry<C>>) -> bool
    decreases entries.len(),
{
    if entries.len() == 0 {
        false
    } else {
        agg_has_cached(entries.drop_last()) || entries.last().bots_result is Some
    }
}

/// Whether any entry's cached directory result carries a value.
pub open spec fn agg_has_value<C>(entries: Seq<RouterEntry<C>>) -> bool
    decreases entries.len(),
{
    if entries.len() == 0 {
        false
    } else {
        agg_has_value(entries.drop_last()) || (entries.last().bots_result matches Some(r)
            && r.spec_value() is Some)
    }
}

impl<C> RouterClient<C> {
    /// The router's entries, in insertion order.
    pub closed spec fn spec_entries(self) -> Seq<RouterEntry<C>> {
        self.entries@
    }

    /// Every key names at most one entry.
    pub open spec fn wf(self) -> bool {
        forall|p: int, q: int|
            0 <= p < q < self.spec_entries().len() ==> (#[trigger] self.spec_entries()[p].key@)
                != (#[trigger] self.spec_entries()[q].key@)
    }

    /// Whether some entry carries this key.
    pub open spec fn spec_has_key(self, key: Seq<char>) -> bool {
        exists|j: int|
            0 <= j < self.spec_entries().len() && (#[trigger] self.spec_entries()[j].key@) == key
    }

    /// An empty router.
    pub fn new() -> (r: Self)
        ensures
            r.wf(),
            r.spec_entries() =~= Seq::<RouterEntry<C>>::empty(),
    {
        RouterClient { entries: Vec::new() }
    }

    /// The entry index carrying `key`, if any.
    fn find_entry(&self, key: &str) -> (r: Option<usize>)
        ensures
            r matches Some(j) ==> j < self.spec_entries().len()
                && self.spec_entries()[j as int].key@ == key@,
            r is None ==> !self.spec_has_key(key@),
    {
        let n = self.entries.len();
        let mut j: usize = 0;
        while j < n
            invariant
                j <= n,
                n == self.entries@.len(),
                forall|p: int| 0 <= p < j ==> (#[trigger] self.entries@[p].key@) != key@,
            decreases n - j,
        {
            if str_eq(self.entries[j].key.as_str(), key) {
                return Some(j);
            }
            j += 1;
        }
        None
    }

    /// Inserts a client with the given key, replacing any client already
    /// there; the new or replaced entry starts with an unset cache.
    pub fn insert_client(&mut self, key: &str, client: C)
        requires
            old(self).wf(),
        ensures
            final(self).wf(),
            forall|j: int|
                0 <= j < old(self).spec_entries().len() && (#[trigger] old(self).spec_entries()[j].key@) == key@ ==> final(self).spec_entries() == old(self).spec_entries().update(
                    j,
                    (RouterEntry {
                        key: old(self).spec_entries()[j].key,
                        client: client,
                        bots_result: None,
                    }),
                ),
            !old(self).spec_has_key(key@) ==> final(self).spec_entries().len() == old(self).spec_entries().len() + 1 && final(self).spec_entries().drop_last() == old(self).spec_entries() && final(self).spec_entries().last().key@ == key@ && final(self).spec_entries().last().client == client && final(self).spec_entries().last().bots_result is None,
    {
        match self.find_entry(key) {
            Some(j) => {
                let mut entry = self.entries.remove(j);
                entry.client = client;
                entry.bots_result = None;
                self.entries.insert(j, entry);
                proof {
                    assert(self.entries@ =~= old(self).entries@.update(
                        j as int,
                        (RouterEntry {
                            key: old(self).entries@[j as int].key,
                            client: client,
                            bots_result: None,
                        }),
                    ));
                    assert forall|p: int, q: int|
                        0 <= p < q < self.entries@.len() implies (#[trigger] self.entries@[p].key@)
                        != (#[trigger] self.entries@[q].key@) by {
                        assert(old(self).entries@[p].key@ != old(self).entries@[q].key@);
                    }
                }
            },
            None => {
                let entry = RouterEntry { key: key.to_owned(), client, bots_result: None };
                self.entries.push(entry);
                proof {
                    assert(self.entries@.drop_last() =~= old(self).entries@);
                }
            },
        }
    }

    /// Removes a client, and its cache with it, by the key used to insert
    /// it; without that key the router is untouched.
    pub fn remove_client(&mut self, key: &str)
        requires
            old(self).wf(),
        ensures
            final(self).wf(),
            forall|j: int|
                0 <= j < old(self).spec_entries().len() && (#[trigger] old(self).spec_entries()[j].key@) == key@ ==> final(self).spec_entries() == old(self).spec_entries().remove(j),
            !old(self).spec_has_key(key@) ==> final(self).spec_entries() == old(self).spec_entries(),
    {
        match self.find_entry(key) {
            Some(j) => {
                let _ = self.entries.remove(j);
                proof {
                    assert forall|p: int, q: int|
                        0 <= p < q < self.entries@.len() implies (#[trigger] self.entries@[p].key@)
                        != (#[trigger] self.entries@[q].key@) by {
                        let p0 = if p < j as int { p } else { p + 1 };
                        let q0 = if q < j as int { q } else { q + 1 };
                        assert(self.entries@[p] == old(self).entries@[p0]);
                        assert(self.entries@[q] == old(self).entries@[q0]);
                        assert(old(self).entries@[p0].key@ != old(self).entries@[q0].key@);
                    }
                }
            },
            None => {},
        }
    }

    /// Invalidates the cached directory result of the entry with the given
    /// key, leaving every other entry untouched.
    pub fn invalidate_bots_cache(&mut self, key: &str)
        requires
            old(self).wf(),
        ensures
            final(self).wf(),
            forall|j: int|
                0 <= j < old(self).spec_entries().len() && (#[trigger] old(self).spec_entries()[j].key@) == key@ ==> final(self).spec_entries() == old(self).spec_entries().update(
                    j,
                    (RouterEntry {
                        key: old(self).spec_entries()[j].key,
                        client: old(self).spec_entries()[j].client,
                        bots_result: None,
                    }),
                ),
            !old(self).spec_has_key(key@) ==> final(self).spec_entries() == old(self).spec_entries(),
    {
        match self.find_entry(key) {
            Some(j) => {
                let mut entry = self.entries.remove(j);
                entry.bots_result = None;
                self.entries.insert(j, entry);
                proof {
                    assert(self.entries@ =~= old(self).entries@.update(
                        j as int,
                        (RouterEntry {
                            key: old(self).entries@[j as int].key,
                            client: old(self).entries@[j as int].client,
                            bots_result: None,
                        }),
                    ));
                    assert forall|p: int, q: int|
                        0 <= p < q < self.entries@.len() implies (#[trigger] self.entries@[p].key@)
                        != (#[trigger] self.entries@[q].key@) by {
                        assert(old(self).entries@[p].key@ != old(self).entries@[q].key@);
                    }
                }
            },
            None => {},
        }
    }

    /// Invalidates every entry's cached directory result.
    pub fn invalidate_all_bots_cache(&mut self)
        requires
            old(self).wf(),
        ensures
            final(self).wf(),
            final(self).spec_entries().len() == old(self).spec_entries().len(),
            forall|j: int|
                0 <= j < old(self).spec_entries().len() ==> (#[trigger] final(self).spec_entries()[j]) == (RouterEntry {
                    key: old(self).spec_entries()[j].key,
                    client: old(self).spec_entries()[j].client,
                    bots_result: None,
                }),
    {
        let n = self.entries.len();
        let mut j: usize = 0;
        while j < n
            invariant
                j <= n,
                n == self.entries@.len(),
                n == old(self).entries@.len(),
                forall|p: int|
                    0 <= p < j ==> (#[trigger] self.entries@[p]) == (RouterEntry {
                        key: old(self).entries@[p].key,
                        client: old(self).entries@[p].client,
                        bots_result: None,
                    }),
                forall|p: int| j <= p < n ==> (#[trigger] self.entries@[p]) == old(self).entries@[p],
            decreases n - j,
        {
            let mut entry = self.entries.remove(j);
            entry.bots_result = None;
            self.entries.insert(j, entry);
            proof {
                assert forall|p: int| j < p < n implies (#[trigger] self.entries@[p]) == old(self).entries@[p] by {
                    assert(self.entries@[p] == old(self).entries@[p]);
                }
            }
            j += 1;
        }
        proof {
            assert forall|p: int, q: int|
                0 <= p < q < self.entries@.len() implies (#[trigger] self.entries@[p].key@)
                != (#[trigger] self.entries@[q].key@) by {
                assert(old(self).entries@[p].key@ != old(self).entries@[q].key@);
            }
        }
    }

    /// Gets a client by the key used to insert it.
    pub fn get_client(&self, key: &str) -> (r: Option<&C>)
        requires
            self.wf(),
        ensures
            r is Some <==> self.spec_has_key(key@),
            r matches Some(c) ==> forall|j: int|
                0 <= j < self.spec_entries().len() && (#[trigger] self.spec_entries()[j].key@)
                    == key@ ==> *c == self.spec_entries()[j].client,
    {
        match self.find_entry(key) {
            Some(j) => Some(&self.entries[j].client),
            None => None,
        }
    }

    /// Stores one sub-client's completed directory result into its entry's
    /// cache. A result whose key was removed meanwhile is silently dropped.
    pub fn store_result(&mut self, key: &str, result: ClientResult<Vec<Bot>>)
        requires
            old(self).wf(),
        ensures
            final(self).wf(),
            final(self).spec_entries().len() == old(self).spec_entries().len(),
            forall|j: int|
                0 <= j < old(self).spec_entries().len() ==> (#[trigger] final(self).spec_entries()[j].key) == old(self).spec_entries()[j].key && final(self).spec_entries()[j].client == old(self).spec_entries()[j].client,
            forall|j: int|
                0 <= j < old(self).spec_entries().len() && (#[trigger] old(self).spec_entries()[j].key@) == key@ ==> final(self).spec_entries()[j].bots_result == Some(result),
            forall|j: int|
                0 <= j < old(self).spec_entries().len() && (#[trigger] old(self).spec_entries()[j].key@) != key@ ==> final(self).spec_entries()[j].bots_result == old(self).spec_entries()[j].bots_result,
    {
        match self.find_entry(key) {
            Some(j) => {
                let mut entry = self.entries.remove(j);
                entry.bots_result = Some(result);
                self.entries.insert(j, entry);
                proof {
                    assert(self.entries@ =~= old(self).entries@.update(
                        j as int,
                        (RouterEntry {
                            key: old(self).entries@[j as int].key,
                            client: old(self).entries@[j as int].client,
                            bots_result: Some(result),
                        }),
                    ));
                    assert forall|p: int, q: int|
                        0 <= p < q < self.entries@.len() implies (#[trigger] self.entries@[p].key@)
                        != (#[trigger] self.entries@[q].key@) by {
                        assert(old(self).entries@[p].key@ != old(self).entries@[q].key@);
                    }
                    assert forall|jj: int|
                        0 <= jj < old(self).entries@.len() && (#[trigger] old(self).entries@[jj].key@)
                        == key@ implies self.entries@[jj].bots_result == Some(result) by {
                        if jj != j as int {
                            if jj < j as int {
                                assert(old(self).entries@[jj].key@ != old(self).entries@[j as int].key@);
                            } else {
                                assert(old(self).entries@[j as int].key@ != old(self).entries@[jj].key@);
                            }
                            assert(false);
                        }
                    }
                }
            },
            None => {},
        }
    }

    /// The keys a listing pass must refetch now: those of every entry whose
    /// cache is unset or whose cached result carries errors, in entry order,
    /// pairwise distinct.
    pub fn keys_to_refresh(&self) -> (r: Vec<String>)
        requires
            self.wf(),
        ensures
            r@.map_values(|s: String| s@) == refresh_keys(self.spec_entries()),
            forall|p: int, q: int|
                0 <= p < q < r@.len() ==> (#[trigger] r@[p]@) != (#[trigger] r@[q]@),
    {
        let n = self.entries.len();
        let mut r: Vec<String> = Vec::new();
        let mut j: usize = 0;
        while j < n
            invariant
                j <= n,
                n == self.entries@.len(),
                r@.map_values(|s: String| s@) == refresh_keys(self.entries@.take(j as int)),
            decreases n - j,
        {
            proof {
                assert(self.entries@.take(j + 1).drop_last() =~= self.entries@.take(j as int));
                assert(self.entries@.take(j + 1).last() == self.entries@[j as int]);
            }
            let entry = &self.entries[j];
            let selected = match &entry.bots_result {
                None => true,
                Some(res) => res.has_errors(),
            };
            if selected {
                r.push(entry.key.clone());
            }
            proof {
                assert(r@.map_values(|s: String| s@) =~= refresh_keys(
                    self.entries@.take(j + 1),
                ));
            }
            j += 1;
        }
        proof {
            assert(self.entries@.take(n as int) =~= self.entries@);
            lemma_refresh_keys_distinct(self.entries@);
            assert forall|p: int, q: int| 0 <= p < q < r@.len() implies (#[trigger] r@[p]@)
                != (#[trigger] r@[q]@) by {
                assert(r@.map_values(|s: String| s@)[p] == r@[p]@);
                assert(r@.map_values(|s: String| s@)[q] == r@[q]@);
            }
        }
        r
    }

    /// Stores a batch of completed directory results, pairing `keys` and
    /// `results` by position: each entry still carrying one of the keys gets
    /// that key's result; results for since-removed keys are dropped; all
    /// other entries are untouched.
    pub fn apply_refresh(&mut self, keys: &Vec<String>, results: Vec<ClientResult<Vec<Bot>>>)
        requires
            old(self).wf(),
            keys@.len() == results@.len(),
            forall|p: int, q: int|
                0 <= p < q < keys@.len() ==> (#[trigger] keys@[p]@) != (#[trigger] keys@[q]@),
        ensures
            final(self).wf(),
            final(self).spec_entries().len() == old(self).spec_entries().len(),
            forall|j: int|
                0 <= j < old(self).spec_entries().len() ==> (#[trigger] final(self).spec_entries()[j].key) == old(self).spec_entries()[j].key && final(self).spec_entries()[j].client == old(self).spec_entries()[j].client,
            forall|j: int, q: int|
                0 <= j < old(self).spec_entries().len() && 0 <= q < keys@.len() && (#[trigger] old(self).spec_entries()[j].key@) == (#[trigger] keys@[q]@) ==> final(self).spec_entries()[j].bots_result == Some(results@[q]),
            forall|j: int|
                0 <= j < old(self).spec_entries().len() && (forall|q: int|
                    0 <= q < keys@.len() ==> (#[trigger] keys@[q]@) != old(self).spec_entries()[j].key@) ==> (#[trigger] final(self).spec_entries()[j].bots_result) == old(self).spec_entries()[j].bots_result,
    {
        let ghost results_orig = results@;
        let mut results = results;
        let m = keys.len();
        let mut p: usize = 0;
        while p < m
            invariant
                p <= m,
                m == keys@.len(),
                results_orig.len() == m,
                results@ == results_orig.skip(p as int),
                forall|x: int, y: int|
                    0 <= x < y < keys@.len() ==> (#[trigger] keys@[x]@) != (#[trigger] keys@[y]@),
                self.wf(),
                self.spec_entries().len() == old(self).spec_entries().len(),
                forall|j: int|
                    0 <= j < old(self).spec_entries().len() ==> (#[trigger] self.spec_entries()[j].key)
                        == old(self).spec_entries()[j].key && self.spec_entries()[j].client == old(self).spec_entries()[j].client,
                forall|j: int, q: int|
                    0 <= j < old(self).spec_entries().len() && 0 <= q < p && (#[trigger] old(self).spec_entries()[j].key@) == (#[trigger] keys@[q]@) ==> self.spec_entries()[j].bots_result
                        == Some(results_orig[q]),
                forall|j: int|
                    0 <= j < old(self).spec_entries().len() && (forall|q: int|
                        0 <= q < p ==> (#[trigger] keys@[q]@) != old(self).spec_entries()[j].key@)
                        ==> (#[trigger] self.spec_entries()[j].bots_result) == old(self).spec_entries()[j].bots_result,
            decreases m - p,
        {
            let result = results.remove(0);
            proof {
                assert(result == results_orig[p as int]);
                assert(results@ =~= results_orig.skip(p + 1));
            }
            let ghost mid = self.spec_entries();
            self.store_result(keys[p].as_str(), result);
            proof {
                assert forall|j: int, q: int|
                    0 <= j < old(self).spec_entries().len() && 0 <= q < p + 1 && (#[trigger] old(self).spec_entries()[j].key@) == (#[trigger] keys@[q]@) implies self.spec_entries()[j].bots_result == Some(results_orig[q]) by {
                    assert(mid[j].key == old(self).spec_entries()[j].key);
                    if q == p as int {
                        assert(mid[j].key@ == keys@[p as int]@);
                        assert(self.spec_entries()[j].bots_result == Some(result));
                    } else {
                        assert(keys@[q]@ != keys@[p as int]@);
                        assert(mid[j].key@ != keys@[p as int]@);
                        assert(self.spec_entries()[j].bots_result == mid[j].bots_result);
                    }
                }
                assert forall|j: int|
                    0 <= j < old(self).spec_entries().len() && (forall|q: int|
                        0 <= q < p + 1 ==> (#[trigger] keys@[q]@) != old(self).spec_entries()[j].key@) implies (#[trigger] self.spec_entries()[j].bots_result) == old(self).spec_entries()[j].bots_result by {
                    assert(mid[j].key == old(self).spec_entries()[j].key);
                    assert(keys@[p as int]@ != old(self).spec_entries()[j].key@);
                    assert(self.spec_entries()[j].bots_result == mid[j].bots_result);
                    assert(mid[j].bots_result == old(self).spec_entries()[j].bots_result);
                }
            }
            p += 1;
        }
    }

    /// The merged directory built from every cached result: all errors in
    /// entry order, and all bots in entry order with their ids namespaced by
    /// their entry's key. An empty or wholly uncached router yields an empty
    /// success, never an error.
    /// The merged directory built from every cached result by the one merge
    /// rule: all errors in entry order; all bots in entry order with their
    /// ids namespaced by their entry's key; the merged value absent when at
    /// least one result is cached and every cached result lacks a value (a
    /// pure failure). An empty or wholly uncached entry set yields an empty
    /// success, never an error.
    pub fn aggregate_bots(&self) -> (r: ClientResult<Vec<Bot>>)
        ensures
            r.spec_errors() == agg_errors(self.spec_entries()),
            r.spec_value() is Some <==> (agg_has_value(self.spec_entries()) || !agg_has_cached(
                self.spec_entries(),
            )),
            r.spec_value() matches Some(v) ==> v@.map_values(|b: Bot| b@) == agg_bots(
                self.spec_entries(),
            ),
    {
        let n = self.entries.len();
        let mut errors: Vec<ClientError> = Vec::new();
        let mut bots: Vec<Bot> = Vec::new();
        let mut saw_cached = false;
        let mut saw_value = false;
        let mut j: usize = 0;
        while j < n
            invariant
                j <= n,
                n == self.entries@.len(),
                errors@ == agg_errors(self.entries@.take(j as int)),
                bots@.map_values(|b: Bot| b@) == agg_bots(self.entries@.take(j as int)),
                saw_cached == agg_has_cached(self.entries@.take(j as int)),
                saw_value == agg_has_value(self.entries@.take(j as int)),
                saw_cached && !saw_value ==> errors@.len() >= 1,
            decreases n - j,
        {
            proof {
                assert(self.entries@.take(j + 1).drop_last() =~= self.entries@.take(j as int));
                assert(self.entries@.take(j + 1).last() == self.entries@[j as int]);
            }
            let entry = &self.entries[j];
            match &entry.bots_result {
                None => {},
                Some(res) => {
                    saw_cached = true;
                    append_errors(&mut errors, res.errors());
                    match res.value() {
                        None => {},
                        Some(list) => {
                            saw_value = true;
                            append_namespaced(&mut bots, entry.key.as_str(), list);
                        },
                    }
                },
            }
            proof {
                assert(errors@ =~= agg_errors(self.entries@.take(j + 1)));
                assert(bots@.map_values(|b: Bot| b@) =~= agg_bots(self.entries@.take(j + 1)));
            }
            j += 1;
        }
        proof {
            assert(self.entries@.take(n as int) =~= self.entries@);
        }
        if saw_cached && !saw_value {
            // Every contributor lacks a value, so the merged value is absent
            // too; each pure failure brought at least one error along.
            match ClientResult::from_parts(None, errors) {
                Ok(cr) => cr,
                Err(_) => {
                    proof {
                        assert(false);
                    }
                    ClientResult::new_ok(Vec::new())
                },
            }
        } else {
            match ClientResult::from_parts(Some(bots), errors) {
                Ok(cr) => cr,
                Err(_) => {
                    proof {
                        assert(false);
                    }
                    ClientResult::new_ok(Vec::new())
                },
            }
        }
    }

    /// Prefixes a bot id with the given key.
    pub fn prefix(key: &str, bot_id: &BotId) -> (r: BotId)
        ensures
            r@ == prefixed(key@, bot_id@),
    {
        let mut s = key.to_owned();
        s.append("/");
        s.append(bot_id.as_str());
        BotId::new(s.as_str())
    }

    /// Unprefixes a bot id, returning the key and the original bot id. Only
    /// the first `/` separates; an id without one belongs to no router.
    pub fn unprefix(bot_id: &BotId) -> (r: Option<(&str, BotId)>)
        ensures
            r is Some <==> has_char(bot_id@, '/'),
            r matches Some(p) ==> has_char(bot_id@, '/') && p.0@ == bot_id@.take(
                first_pos(bot_id@, '/'),
            ) && p.1@ == bot_id@.skip(first_pos(bot_id@, '/') + 1),
    {
        let s = bot_id.as_str();
        match find_first(s, '/') {
            None => None,
            Some(i) => {
                proof {
                    lemma_first_at(s@, '/', i as int);
                }
                let len = s.unicode_len();
                let key = s.substring_char(0, i);
                let id = s.substring_char(i + 1, len);
                Some((key, BotId::new(id)))
            },
        }
    }

    /// The pre-dispatch decision of a conversation call: split the id on its
    /// first `/` into the sub-client key and the unprefixed id, or fail with
    /// an unrouteable-identifier error, in which case no sub-client is to be
    /// contacted.
    pub fn split_route(bot_id: &BotId) -> (r: Result<(String, BotId), ClientError>)
        ensures
            has_char(bot_id@, '/') ==> (r matches Ok(p) && p.0@ == bot_id@.take(
                first_pos(bot_id@, '/'),
            ) && p.1@ == bot_id@.skip(first_pos(bot_id@, '/') + 1)),
            !has_char(bot_id@, '/') ==> (r matches Err(e) && e.kind == ClientErrorKind::Unknown
                && e.message@ == "The bot id does not belong to a router: "@ + bot_id@),
    {
        match Self::unprefix(bot_id) {
            Some((key, id)) => Ok((key.to_owned(), id)),
            None => {
                let mut m = String::new();
                m.append("The bot id does not belong to a router: ");
                m.append(bot_id.as_str());
                proof {
                    assert(m@ =~= "The bot id does not belong to a router: "@ + bot_id@);
                }
                Err(ClientError::new(ClientErrorKind::Unknown, m))
            },
        }
    }

    /// The error a conversation call fails with when its key resolves to no
    /// sub-client.
    pub fn no_client_error(bot_id: &BotId) -> (r: ClientError)
        ensures
            r.kind == ClientErrorKind::Unknown,
            r.message@ == "This router has no client for the given bot id: "@ + bot_id@,
    {
        let mut m = String::new();
        m.append("This router has no client for the given bot id: ");
        m.append(bot_id.as_str());
        proof {
            assert(m@ =~= "This router has no client for the given bot id: "@ + bot_id@);
        }
        ClientError::new(ClientErrorKind::Unknown, m)
    }
}

/// Appends clones of every error in `src` to `dst`, in order.
fn append_errors(dst: &mut Vec<ClientError>, src: &Vec<ClientError>)
    ensures
        final(dst)@ == old(dst)@ + src@,
{
    let n = src.len();
    let mut i: usize = 0;
    while i < n
        invariant
            i <= n,
            n == src@.len(),
            dst@ == old(dst)@ + src@.take(i as int),
        decreases n - i,
    {
        dst.push(src[i].clone());
        proof {
            assert(dst@ =~= old(dst)@ + src@.take(i + 1));
        }
        i += 1;
    }
    proof {
        assert(old(dst)@ + src@.take(n as int) =~= old(dst)@ + src@);
    }
}

/// Appends a namespaced copy of every bot in `src` to `dst`, in order: the
/// id prefixed with `key`, all other fields untouched.
fn append_namespaced(dst: &mut Vec<Bot>, key: &str, src: &Vec<Bot>)
    ensures
        final(dst)@.map_values(|b: Bot| b@) == old(dst)@.map_values(|b: Bot| b@)
            + src@.map_values(|b: Bot| namespaced_bot(key@, b@)),
{
    let n = src.len();
    let mut i: usize = 0;
    while i < n
        invariant
            i <= n,
            n == src@.len(),
            dst@.map_values(|b: Bot| b@) == old(dst)@.map_values(|b: Bot| b@) + src@.take(
                i as int,
            ).map_values(|b: Bot| namespaced_bot(key@, b@)),
        decreases n - i,
    {
        let bot = &src[i];
        let mut s = key.to_owned();
        s.append("/");
        s.append(bot.id.as_str());
        let nb = Bot {
            id: BotId::new(s.as_str()),
            name: bot.name.clone(),
            avatar: bot.avatar.clone(),
            capabilities: bot.capabilities,
        };
        proof {
            assert(nb@ == namespaced_bot(key@, bot@));
        }
        let ghost before = dst@;
        dst.push(nb);
        proof {
            before.lemma_push_map_commute(|b: Bot| b@, nb);
            src@.lemma_map_take_succ(|b: Bot| namespaced_bot(key@, b@), i as int);
            assert(dst@.map_values(|b: Bot| b@) =~= old(dst)@.map_values(|b: Bot| b@)
                + src@.take(i + 1).map_values(|b: Bot| namespaced_bot(key@, b@)));
        }
        i += 1;
    }
    proof {
        assert(src@.take(n as int) =~= src@);
    }
}

impl<C> Default for RouterClient<C> {
    /// An empty router.
    fn default() -> (r: Self)
        ensures
            r.wf(),
            r.spec_entries() =~= Seq::<RouterEntry<C>>::empty(),
    {
        RouterClient::new()
    }
}

/// Under pairwise-distinct entry keys, the keys a listing pass refetches are
/// pairwise distinct too.
proof fn lemma_refresh_keys_distinct<C>(entries: Seq<RouterEntry<C>>)
    requires
        forall|p: int, q: int|
            0 <= p < q < entries.len() ==> (#[trigger] entries[p].key@) != (#[trigger] entries[q].key@),
    ensures
        forall|p: int, q: int|
            0 <= p < q < refresh_keys(entries).len() ==> (#[trigger] refresh_keys(entries)[p])
                != (#[trigger] refresh_keys(entries)[q]),
    decreases entries.len(),
{
    if entries.len() == 0 {
    } else {
        let head = entries.drop_last();
        assert forall|p: int, q: int|
            0 <= p < q < head.len() implies (#[trigger] head[p].key@)
            != (#[trigger] head[q].key@) by {
            assert(head[p] == entries[p]);
            assert(head[q] == entries[q]);
            assert(entries[p].key@ != entries[q].key@);
        }
        lemma_refresh_keys_distinct(head);
        let r_all = refresh_keys(entries);
        let r_head = refresh_keys(head);
        assert forall|p: int, q: int|
            0 <= p < q < r_all.len() implies (#[trigger] r_all[p]) != (#[trigger] r_all[q]) by {
            if q < r_head.len() {
                assert(r_all[p] == r_head[p]);
                assert(r_all[q] == r_head[q]);
            } else {
                assert(needs_refresh(entries.last()));
                assert(r_all[q] == entries.last().key@);
                assert(r_all[p] == r_head[p]);
                if r_all[p] == r_all[q] {
                    assert(r_head.contains(entries.last().key@));
                    lemma_refresh_keys_membership(head, entries.last().key@);
                    let j = choose|j: int|
                        0 <= j < head.len() && (#[trigger] head[j].key@) == entries.last().key@
                            && needs_refresh(head[j]);
                    assert(entries[j] == head[j]);
                    assert(entries[j].key@ != entries[entries.len() - 1].key@);
                    assert(false);
                }
            }
        }
    }
}

/// A key is among the keys a listing pass refetches exactly when some entry
/// carries that key with an unset or errored cache.
pub proof fn lemma_refresh_keys_membership<C>(entries: Seq<RouterEntry<C>>, k: Seq<char>)
    ensures
        refresh_keys(entries).contains(k) <==> exists|j: int|
            0 <= j < entries.len() && (#[trigger] entries[j].key@) == k && needs_refresh(
                entries[j],
            ),
    decreases entries.len(),
{
    if entries.len() == 0 {
    } else {
        let head = entries.drop_last();
        lemma_refresh_keys_membership(head, k);
        let r_all = refresh_keys(entries);
        let r_head = refresh_keys(head);
        if r_all.contains(k) {
            let w = choose|w: int| 0 <= w < r_all.len() && r_all[w] == k;
            if w < r_head.len() {
                assert(r_head[w] == k);
                assert(r_head.contains(k));
                let j = choose|j: int|
                    0 <= j < head.len() && (#[trigger] head[j].key@) == k && needs_refresh(head[j]);
                assert(entries[j] == head[j]);
                assert((#[trigger] entries[j].key@) == k && needs_refresh(entries[j]));
            } else {
                assert(needs_refresh(entries.last()));
                assert(r_all[w] == entries.last().key@);
                let j = entries.len() - 1;
                assert((#[trigger] entries[j].key@) == k && needs_refresh(entries[j]));
            }
        }
        if exists|j: int|
            0 <= j < entries.len() && (#[trigger] entries[j].key@) == k && needs_refresh(
                entries[j],
            ) {
            let j = choose|j: int|
                0 <= j < entries.len() && (#[trigger] entries[j].key@) == k && needs_refresh(
                    entries[j],
                );
            if j < head.len() {
                assert(head[j] == entries[j]);
                assert(r_head.contains(k));
                let w = choose|w: int| 0 <= w < r_head.len() && r_head[w] == k;
                assert(r_all[w] == k);
                assert(r_all.contains(k));
            } else {
                assert(needs_refresh(entries.last()));
                assert(r_all[r_head.len() as int] == k);
                assert(r_all.contains(k));
            }
        }
    }
}

/// A listing pass contacts a key's sub-client exactly when that key's cache
/// is unset or its cached result carries an error. In particular, a key
/// whose first directory result was error-free is not contacted by a second
/// listing pass, while a key whose result carried any error is contacted
/// again.
pub proof fn lemma_refetch_policy<C>(r: RouterClient<C>, j: int)
    requires
        r.wf(),
        0 <= j < r.spec_entries().len(),
    ensures
        refresh_keys(r.spec_entries()).contains(r.spec_entries()[j].key@) <==> needs_refresh(
            r.spec_entries()[j],
        ),
{
    let entries = r.spec_entries();
    let k = entries[j].key@;
    lemma_refresh_keys_membership(entries, k);
    if refresh_keys(entries).contains(k) {
        let j2 = choose|j2: int|
            0 <= j2 < entries.len() && (#[trigger] entries[j2].key@) == k && needs_refresh(
                entries[j2],
            );
        if j2 != j {
            if j2 < j {
                assert(entries[j2].key@ != entries[j].key@);
            } else {
                assert(entries[j].key@ != entries[j2].key@);
            }
            assert(false);
        }
    }
}

/// Aggregation decomposes around any single entry: the merged directory is
/// what every other entry contributes with this entry's namespaced bots and
/// errors spliced in between. So one sub-client's failure never suppresses
/// another sub-client's bots, and no error is lost.
pub proof fn lemma_aggregation_isolates<C>(entries: Seq<RouterEntry<C>>, j: int)
    requires
        0 <= j < entries.len(),
    ensures
        agg_bots(entries) == agg_bots(entries.take(j)) + entry_bots(entries[j]) + agg_bots(
            entries.skip(j + 1),
        ),
        agg_errors(entries) == agg_errors(entries.take(j)) + entry_errors(entries[j])
            + agg_errors(entries.skip(j + 1)),
    decreases entries.len(),
{
    if j == entries.len() - 1 {
        assert(entries.drop_last() =~= entries.take(j));
        assert(entries.skip(j + 1) =~= Seq::<RouterEntry<C>>::empty());
        assert(agg_bots(entries) =~= agg_bots(entries.take(j)) + entry_bots(entries[j])
            + agg_bots(entries.skip(j + 1)));
        assert(agg_errors(entries) =~= agg_errors(entries.take(j)) + entry_errors(entries[j])
            + agg_errors(entries.skip(j + 1)));
    } else {
        let head = entries.drop_last();
        lemma_aggregation_isolates(head, j);
        assert(entries.take(j) =~= head.take(j));
        assert(entries[j] == head[j]);
        let es = entries.skip(j + 1);
        assert(es.drop_last() =~= head.skip(j + 1));
        assert(es.last() == entries.last());
        assert(agg_bots(es) == agg_bots(head.skip(j + 1)) + entry_bots(entries.last()));
        assert(agg_errors(es) == agg_errors(head.skip(j + 1)) + entry_errors(entries.last()));
        assert(agg_bots(entries) =~= agg_bots(entries.take(j)) + entry_bots(entries[j])
            + agg_bots(es));
        assert(agg_errors(entries) =~= agg_errors(entries.take(j)) + entry_errors(entries[j])
            + agg_errors(es));
    }
}

} // verus!
