use std::sync::Arc;
use vstd::prelude::*;
use crate::key::{proxy_view, spec_key, ClientKey, KeyView, MAX_TIMEOUT_MS};

verus! {

/// How many distinct configurations a cache keeps by default.
pub const CLIENT_CACHE_LIMIT: usize = 1024;

/// A constructed client together with the key it was built for.
pub struct CachedClient<C> {
    pub key: ClientKey,
    pub client: C,
}

/// The key that a handle was built for.
pub open spec fn key_of<C>(e: Arc<CachedClient<C>>) -> KeyView {
    e.key@
}

/// Whether some handle of `s` was built for `k`.
pub open spec fn holds_key<C>(s: Seq<Arc<CachedClient<C>>>, k: KeyView) -> bool {
    exists|i: int| 0 <= i < s.len() && #[trigger] key_of(s[i]) == k
}

/// No two handles of `s` share a key.
pub open spec fn distinct_keys<C>(s: Seq<Arc<CachedClient<C>>>) -> bool {
    forall|i: int, j: int|
        0 <= i < s.len() && 0 <= j < s.len() && i != j ==> key_of(#[trigger] s[i]) != key_of(
            #[trigger] s[j],
        )
}

/// The position of the handle for `k` in `s`, where there is one.
pub open spec fn position_of<C>(s: Seq<Arc<CachedClient<C>>>, k: KeyView) -> int {
    choose|i: int| 0 <= i < s.len() && #[trigger] key_of(s[i]) == k
}

/// `s` with the handle for `k` taken out, where there is one.
pub open spec fn without_key<C>(s: Seq<Arc<CachedClient<C>>>, k: KeyView) -> Seq<
    Arc<CachedClient<C>>,
> {
    if holds_key(s, k) {
        s.remove(position_of(s, k))
    } else {
        s
    }
}

/// `s` after `e` was touched: any earlier handle for its key taken out, `e` at the
/// most-recently-used end.
pub open spec fn touched<C>(s: Seq<Arc<CachedClient<C>>>, e: Arc<CachedClient<C>>) -> Seq<
    Arc<CachedClient<C>>,
> {
    without_key(s, key_of(e)).push(e)
}

/// `s` with the least-recently-touched handle dropped while it holds more than `capacity`.
pub open spec fn trimmed<C>(s: Seq<Arc<CachedClient<C>>>, capacity: nat) -> Seq<
    Arc<CachedClient<C>>,
> {
    if s.len() > capacity {
        s.subrange(s.len() - capacity, s.len() as int)
    } else {
        s
    }
}

/// Storing a handle in a well-formed cache keeps it within its capacity; where the cache was
/// full and held nothing for the new key, exactly the least recently touched handle leaves.
pub proof fn lemma_insert_bounded<C>(s: Seq<Arc<CachedClient<C>>>, e: Arc<CachedClient<C>>, capacity: nat)
    requires
        capacity >= 1,
        s.len() <= capacity,
        distinct_keys(s),
    ensures
        trimmed(touched(s, e), capacity).len() <= capacity,
        !holds_key(s, key_of(e)) && s.len() == capacity ==> trimmed(touched(s, e), capacity)
            == s.drop_first().push(e),
{
    if !holds_key(s, key_of(e)) && s.len() == capacity {
        assert(trimmed(touched(s, e), capacity) =~= s.drop_first().push(e));
    }
}

/// Storing a handle for a key not yet held, with room to spare, appends it.
proof fn lemma_insert_fresh<C>(s: Seq<Arc<CachedClient<C>>>, e: Arc<CachedClient<C>>, capacity: nat)
    requires
        !holds_key(s, key_of(e)),
        s.len() < capacity,
    ensures
        trimmed(touched(s, e), capacity) == s.push(e),
{
}

/// After `a`, `b` and `c` were cached in that order into a cache with room for them, touching
/// `a` leaves the order `b`, `c`, `a` at the most-recently-used end, so an overflow evicts `b`
/// before `a` or `c`.
pub proof fn lemma_touch_reorders<C>(
    s: Seq<Arc<CachedClient<C>>>,
    a: Arc<CachedClient<C>>,
    b: Arc<CachedClient<C>>,
    c: Arc<CachedClient<C>>,
    capacity: nat,
)
    requires
        distinct_keys(s),
        s.len() + 3 <= capacity,
        !holds_key(s, key_of(a)),
        !holds_key(s, key_of(b)),
        !holds_key(s, key_of(c)),
        key_of(a) != key_of(b),
        key_of(a) != key_of(c),
        key_of(b) != key_of(c),
    ensures
        ({
            let s1 = trimmed(touched(s, a), capacity);
            let s2 = trimmed(touched(s1, b), capacity);
            let s3 = trimmed(touched(s2, c), capacity);
            &&& holds_key(s3, key_of(a))
            &&& s3[position_of(s3, key_of(a))] == a
            &&& touched(s3, a) == s.push(b).push(c).push(a)
        }),
{
    lemma_insert_fresh(s, a, capacity);
    let s1 = s.push(a);
    assert(!holds_key(s1, key_of(b))) by {
        if holds_key(s1, key_of(b)) {
            let i = choose|i: int| 0 <= i < s1.len() && #[trigger] key_of(s1[i]) == key_of(b);
            if i < s.len() {
                assert(s1[i] == s[i]);
            }
        }
    }
    lemma_insert_fresh(s1, b, capacity);
    let s2 = s1.push(b);
    assert(!holds_key(s2, key_of(c))) by {
        if holds_key(s2, key_of(c)) {
            let i = choose|i: int| 0 <= i < s2.len() && #[trigger] key_of(s2[i]) == key_of(c);
            if i < s.len() {
                assert(s2[i] == s[i]);
            } else if i == s.len() {
                assert(s2[i] == a);
            }
        }
    }
    lemma_insert_fresh(s2, c, capacity);
    let s3 = s2.push(c);
    let n = s.len() as int;
    assert(key_of(s3[n]) == key_of(a));
    assert(holds_key(s3, key_of(a)));
    let p = position_of(s3, key_of(a));
    assert(p == n) by {
        if p < n {
            assert(s3[p] == s[p]);
        } else if p == n + 1 {
            assert(s3[p] == b);
        } else if p == n + 2 {
            assert(s3[p] == c);
        }
    }
    assert(s3.remove(n) =~= s.push(b).push(c));
}

/// Right after a handle is stored, looking its key up finds that handle.
pub proof fn lemma_lookup_after_insert<C>(s: Seq<Arc<CachedClient<C>>>, e: Arc<CachedClient<C>>, capacity: nat)
    requires
        capacity >= 1,
        s.len() <= capacity,
        distinct_keys(s),
    ensures
        holds_key(trimmed(touched(s, e), capacity), key_of(e)),
        ({
            let t = trimmed(touched(s, e), capacity);
            t[position_of(t, key_of(e))] == e
        }),
{
    let u = without_key(s, key_of(e));
    assert(!holds_key(u, key_of(e))) by {
        if holds_key(u, key_of(e)) {
            let p = choose|p: int| 0 <= p < u.len() && #[trigger] key_of(u[p]) == key_of(e);
            if holds_key(s, key_of(e)) {
                let i = position_of(s, key_of(e));
                let ip = if p < i { p } else { p + 1 };
                assert(u[p] == s[ip]);
            }
        }
    }
    let w = u.push(e);
    let t = trimmed(w, capacity);
    assert(t.len() >= 1);
    assert(t[t.len() - 1] == e);
    assert(holds_key(t, key_of(e)));
    let p = position_of(t, key_of(e));
    if p != t.len() - 1 {
        let off = w.len() - t.len();
        assert(t[p] == w[p + off]);
        assert(w[p + off] == u[p + off]);
    }
}

/// A bounded map from connection configurations to shared client handles, ordered from least
/// to most recently touched.
///
/// A handle given out is an `Arc`: it stays valid for its holder after its entry has been
/// evicted or replaced, and only the cache's own share is dropped. Threads share one cache
/// under a lock of the application's choosing; each method runs under it.
pub struct ClientCache<C> {
    entries: Vec<Arc<CachedClient<C>>>,
    capacity: usize,
}

impl<C> ClientCache<C> {
    /// The handles, least recently touched first.
    pub closed spec fn view(&self) -> Seq<Arc<CachedClient<C>>> {
        self.entries@
    }

    pub closed spec fn spec_capacity(&self) -> nat {
        self.capacity as nat
    }

    pub open spec fn wf(&self) -> bool {
        &&& self.spec_capacity() >= 1
        &&& self.view().len() <= self.spec_capacity()
        &&& distinct_keys(self.view())
    }

    /// An empty cache that keeps at most [`CLIENT_CACHE_LIMIT`] handles.
    pub fn new() -> (r: Self)
        ensures
            r.wf(),
            r.view() == Seq::<Arc<CachedClient<C>>>::empty(),
            r.spec_capacity() == CLIENT_CACHE_LIMIT,
    {
        Self::with_capacity(CLIENT_CACHE_LIMIT)
    }

    /// An empty cache that keeps at most `capacity` handles.
    pub fn with_capacity(capacity: usize) -> (r: Self)
        requires
            capacity >= 1,
        ensures
            r.wf(),
            r.view() == Seq::<Arc<CachedClient<C>>>::empty(),
            r.spec_capacity() == capacity,
    {
        ClientCache { entries: Vec::new(), capacity }
    }

    /// How many handles are held.
    pub fn len(&self) -> (r: usize)
        ensures
            r == self.view().len(),
    {
        self.entries.len()
    }

    /// The bound given at construction.
    pub fn capacity(&self) -> (r: usize)
        ensures
            r == self.spec_capacity(),
    {
        self.capacity
    }

    /// Where the handle for `key` stands, if there is one.
    fn find(&self, key: &ClientKey) -> (r: Option<usize>)
        requires
            self.wf(),
        ensures
            match r {
                Some(i) => i < self.view().len() && key_of(self.view()[i as int]) == key@
                    && position_of(self.view(), key@) == i,
                None => !holds_key(self.view(), key@),
            },
    {
        let mut i: usize = 0;
        while i < self.entries.len()
            invariant
                self.wf(),
                i <= self.entries@.len(),
                forall|j: int| 0 <= j < i ==> key_of(#[trigger] self.entries@[j]) != key@,
            decreases self.entries@.len() - i,
        {
            if self.entries[i].key.same_as(key) {
                let ghost s = self.view();
                assert(key_of(s[i as int]) == key@);
                assert(holds_key(s, key@));
                let ghost p = position_of(s, key@);
                assert(p == i) by {
                    assert(key_of(s[p]) == key@);
                    assert(distinct_keys(s));
                }
                return Some(i);
            }
            i = i + 1;
        }
        None
    }

    /// Whether a handle for `key` is held.
    pub fn contains(&self, key: &ClientKey) -> (r: bool)
        requires
            self.wf(),
        ensures
            r == holds_key(self.view(), key@),
    {
        self.find(key).is_some()
    }

    /// Moves the handle at `i` to the most-recently-used end.
    fn move_to_back(&mut self, i: usize) -> (r: Arc<CachedClient<C>>)
        requires
            old(self).wf(),
            i < old(self).view().len(),
        ensures
            r == old(self).view()[i as int],
            final(self).wf(),
            final(self).spec_capacity() == old(self).spec_capacity(),
            final(self).view() == old(self).view().remove(i as int).push(r),
    {
        let e = self.entries.remove(i);
        let out = e.clone();
        self.entries.push(e);
        proof {
            let s = old(self).view();
            let t = self.view();
            assert forall|a: int, b: int|
                0 <= a < t.len() && 0 <= b < t.len() && a != b implies key_of(
                #[trigger] t[a],
            ) != key_of(#[trigger] t[b]) by {
                let ia = if a < t.len() - 1 {
                    if a < i { a } else { a + 1 }
                } else {
                    i as int
                };
                let ib = if b < t.len() - 1 {
                    if b < i { b } else { b + 1 }
                } else {
                    i as int
                };
                assert(t[a] == s[ia]);
                assert(t[b] == s[ib]);
            }
        }
        out
    }

    /// Looks `key` up. A hit is a touch: the handle moves to the most-recently-used end.
    pub fn get(&mut self, key: &ClientKey) -> (r: Option<Arc<CachedClient<C>>>)
        requires
            old(self).wf(),
        ensures
            final(self).wf(),
            final(self).spec_capacity() == old(self).spec_capacity(),
            match r {
                Some(e) => holds_key(old(self).view(), key@) && key_of(e) == key@
                    && e == old(self).view()[position_of(old(self).view(), key@)]
                    && final(self).view() == touched(old(self).view(), e),
                None => !holds_key(old(self).view(), key@) && final(self).view() == old(
                    self,
                ).view(),
            },
    {
        match self.find(key) {
            Some(i) => {
                let e = self.move_to_back(i);
                Some(e)
            },
            None => None,
        }
    }

    /// Stores `e` under its key as the most recently touched handle, replacing any handle
    /// held for that key; where that leaves more than `capacity` handles, the least recently
    /// touched one is evicted.
    pub fn insert(&mut self, e: Arc<CachedClient<C>>)
        requires
            old(self).wf(),
        ensures
            final(self).wf(),
            final(self).spec_capacity() == old(self).spec_capacity(),
            final(self).view() == trimmed(
                touched(old(self).view(), e),
                old(self).spec_capacity(),
            ),
    {
        let ghost s = self.view();
        match self.find(&e.key) {
            Some(i) => {
                let _ = self.entries.remove(i);
                proof {
                    let t = self.view();
                    assert forall|a: int, b: int|
                        0 <= a < t.len() && 0 <= b < t.len() && a != b implies key_of(
                        #[trigger] t[a],
                    ) != key_of(#[trigger] t[b]) by {
                        let ia = if a < i { a } else { a + 1 };
                        let ib = if b < i { b } else { b + 1 };
                        assert(t[a] == s[ia]);
                        assert(t[b] == s[ib]);
                    }
                }
            },
            None => {},
        }
        let ghost u = self.view();
        assert(u == without_key(s, key_of(e)));
        assert(!holds_key(u, key_of(e))) by {
            if holds_key(u, key_of(e)) {
                let p = choose|p: int| 0 <= p < u.len() && #[trigger] key_of(u[p]) == key_of(e);
                if holds_key(s, key_of(e)) {
                    let i = position_of(s, key_of(e));
                    let ip = if p < i { p } else { p + 1 };
                    assert(u[p] == s[ip]);
                }
            }
        }
        self.entries.push(e);
        proof {
            let t = self.view();
            assert forall|a: int, b: int|
                0 <= a < t.len() && 0 <= b < t.len() && a != b implies key_of(
                #[trigger] t[a],
            ) != key_of(#[trigger] t[b]) by {
                if a < u.len() && b < u.len() {
                    assert(t[a] == u[a]);
                    assert(t[b] == u[b]);
                } else if a < u.len() {
                    assert(t[a] == u[a]);
                } else if b < u.len() {
                    assert(t[b] == u[b]);
                }
            }
        }
        if self.entries.len() > self.capacity {
            let _ = self.entries.remove(0);
            proof {
                let t = self.view();
                let w = touched(s, e);
                assert(t =~= w.subrange(w.len() - self.capacity, w.len() as int));
            }
        }
        assert(self.view() =~= trimmed(touched(s, e), self.capacity as nat));
    }

    /// Returns the handle held for `key`, touching it; on a miss, builds one with `builder`,
    /// stores it as by [`ClientCache::insert`] and returns it. A failed build changes nothing.
    pub fn get_or_try_insert<E, F: FnOnce() -> Result<C, E>>(&mut self, key: ClientKey, builder: F) -> (r: Result<Arc<CachedClient<C>>, E>)
        requires
            old(self).wf(),
            builder.requires(()),
        ensures
            final(self).wf(),
            final(self).spec_capacity() == old(self).spec_capacity(),
            holds_key(old(self).view(), key@) ==> ({
                let e = old(self).view()[position_of(old(self).view(), key@)];
                &&& r == Ok::<Arc<CachedClient<C>>, E>(e)
                &&& final(self).view() == touched(old(self).view(), e)
            }),
            !holds_key(old(self).view(), key@) ==> match r {
                Ok(e) => key_of(e) == key@ && builder.ensures((), Ok::<C, E>(e.client))
                    && final(self).view() == trimmed(
                    touched(old(self).view(), e),
                    old(self).spec_capacity(),
                ),
                Err(x) => builder.ensures((), Err::<C, E>(x)) && final(self).view() == old(
                    self,
                ).view(),
            },
            r is Ok ==> holds_key(final(self).view(), key@) && final(self).view()[position_of(
                final(self).view(),
                key@,
            )] == r->Ok_0,
    {
        let ghost s = self.view();
        match self.get(&key) {
            Some(e) => {
                proof {
                    lemma_lookup_after_insert(s, e, self.capacity as nat);
                    assert(touched(s, e).len() <= self.capacity);
                }
                Ok(e)
            },
            None => match builder() {
                Ok(client) => {
                    let e = Arc::new(CachedClient { key, client });
                    let out = e.clone();
                    self.insert(e);
                    proof {
                        lemma_lookup_after_insert(s, e, self.capacity as nat);
                    }
                    Ok(out)
                },
                Err(x) => Err(x),
            },
        }
    }
}

/// Returns the cached handle for a configuration, touching it, or builds one with `builder`
/// and caches it, exactly as [`ClientCache::get_or_try_insert`] does for the key derived
/// from the profile's label, the proxy and the timeout's bucket.
pub fn get_or_build_client<C, E, F: FnOnce() -> Result<C, E>>(
    cache: &mut ClientCache<C>,
    label: &str,
    proxy: &Option<String>,
    timeout: u64,
    builder: F,
) -> (r: Result<Arc<CachedClient<C>>, E>)
    requires
        old(cache).wf(),
        timeout <= MAX_TIMEOUT_MS,
        builder.requires(()),
    ensures
        ({
            let k = spec_key(label@, proxy_view(*proxy), timeout as nat);
            &&& final(cache).wf()
            &&& final(cache).spec_capacity() == old(cache).spec_capacity()
            &&& holds_key(old(cache).view(), k) ==> ({
                let e = old(cache).view()[position_of(old(cache).view(), k)];
                &&& r == Ok::<Arc<CachedClient<C>>, E>(e)
                &&& final(cache).view() == touched(old(cache).view(), e)
            })
            &&& !holds_key(old(cache).view(), k) ==> match r {
                Ok(e) => key_of(e) == k && builder.ensures((), Ok::<C, E>(e.client))
                    && final(cache).view() == trimmed(
                    touched(old(cache).view(), e),
                    old(cache).spec_capacity(),
                ),
                Err(x) => builder.ensures((), Err::<C, E>(x)) && final(cache).view() == old(
                    cache,
                ).view(),
            }
            &&& r is Ok ==> holds_key(final(cache).view(), k) && final(cache).view()[position_of(
                final(cache).view(),
                k,
            )] == r->Ok_0
        }),
{
    let key = ClientKey::derive(label, proxy, timeout);
    cache.get_or_try_insert(key, builder)
}

} // verus!
