//! The credentials cache for OIDC tokens and workspace `user_key`s.
//!
//! Entries are keyed by `"{api_endpoint}|{issuer}"` (tokens) and
//! `"{api_endpoint}|{tenant_id}"` (user keys), so several platforms coexist in
//! one file. The file itself is read and written by the caller; this module
//! holds the in-memory store and every rule about what a lookup, an update or
//! a logout does to it.

use vstd::prelude::*;
use crate::text::{chars_of, chars_start_with, copy_opt_string, copy_string, owned, push_str, starts_with, str_eq};

verus! {

/// A single cached credential entry.
#[derive(Debug)]
pub struct CachedToken {
    /// The OIDC ID token.
    pub id_token: String,
    /// A refresh token, when one was issued.
    pub refresh_token: Option<String>,
    /// Token expiry as a Unix timestamp (seconds), if known.
    pub expires_at: Option<i64>,
    /// The issuer the token was obtained from.
    pub issuer: String,
}

/// A cached workspace-scoped `user_key`.
#[derive(Debug)]
pub struct CachedUserKey {
    /// The workspace-scoped key sent as `X-Tenzir-UserKey`.
    pub user_key: String,
    /// Expiry as a Unix timestamp (seconds), if known.
    pub expires_at: Option<i64>,
}

/// A copy of a cached token.
pub fn copy_token(t: &CachedToken) -> (r: CachedToken)
    ensures
        r == *t,
{
    CachedToken {
        id_token: copy_string(&t.id_token),
        refresh_token: copy_opt_string(&t.refresh_token),
        expires_at: t.expires_at,
        issuer: copy_string(&t.issuer),
    }
}

/// A copy of a cached user key.
pub fn copy_user_key(k: &CachedUserKey) -> (r: CachedUserKey)
    ensures
        r == *k,
{
    CachedUserKey { user_key: copy_string(&k.user_key), expires_at: k.expires_at }
}

/// The cache key for a platform endpoint and a second component (an issuer
/// for tokens, a tenant id for user keys).
pub open spec fn cache_key_of(api_endpoint: Seq<char>, second: Seq<char>) -> Seq<char> {
    api_endpoint + "|"@ + second
}

/// `"{api_endpoint}|{second}"`.
pub fn cache_key(api_endpoint: &str, second: &str) -> (r: String)
    ensures
        r@ == cache_key_of(api_endpoint@, second@),
{
    let mut k = owned(api_endpoint);
    push_str(&mut k, "|");
    push_str(&mut k, second);
    k
}

/// Two keys with the same second component are equal only for equal
/// endpoints.
pub proof fn lemma_cache_key_injective(a: Seq<char>, b: Seq<char>, second: Seq<char>)
    requires
        cache_key_of(a, second) == cache_key_of(b, second),
    ensures
        a == b,
{
    reveal_strlit("|");
    assert(cache_key_of(a, second).len() == a.len() + 1 + second.len());
    assert(a.len() == b.len());
    assert(cache_key_of(a, second).take(a.len() as int) =~= a);
    assert(cache_key_of(b, second).take(b.len() as int) =~= b);
}

/// A map from string keys to values, kept as two parallel vectors with no key
/// occurring twice.
pub struct EntryMap<V> {
    keys: Vec<String>,
    values: Vec<V>,
}

/// Whether some position of `keys` holds `k`.
pub open spec fn has_key(keys: Seq<String>, k: Seq<char>) -> bool {
    exists|i: int| 0 <= i < keys.len() && #[trigger] keys[i]@ == k
}

impl<V> EntryMap<V> {
    /// The keys, in storage order.
    pub closed spec fn key_seq(&self) -> Seq<String> {
        self.keys@
    }

    /// The values, in storage order.
    pub closed spec fn value_seq(&self) -> Seq<V> {
        self.values@
    }

    /// Both vectors have one entry per key and no key occurs twice.
    pub open spec fn wf(&self) -> bool {
        &&& self.key_seq().len() == self.value_seq().len()
        &&& forall|i: int, j: int|
            0 <= i < j < self.key_seq().len() ==> #[trigger] self.key_seq()[i]@ != #[trigger] self.key_seq()[j]@
    }

    /// The entries as a map from key to value.
    pub open spec fn view(&self) -> Map<Seq<char>, V> {
        Map::new(
            |k: Seq<char>| has_key(self.key_seq(), k),
            |k: Seq<char>|
                self.value_seq()[choose|i: int| 0 <= i < self.key_seq().len() && #[trigger] self.key_seq()[i]@ == k],
        )
    }

    /// The entry at position `i` is what the map holds for its key.
    pub proof fn lemma_view_at(&self, i: int)
        requires
            self.wf(),
            0 <= i < self.key_seq().len(),
        ensures
            self.view().dom().contains(self.key_seq()[i]@),
            self.view()[self.key_seq()[i]@] == self.value_seq()[i],
    {
        let k = self.key_seq()[i]@;
        assert(has_key(self.key_seq(), k));
        let j = choose|j: int| 0 <= j < self.key_seq().len() && #[trigger] self.key_seq()[j]@ == k;
        if j != i {
            if j < i {
                assert(self.key_seq()[j]@ != self.key_seq()[i]@);
            } else {
                assert(self.key_seq()[i]@ != self.key_seq()[j]@);
            }
        }
    }

    /// An empty map.
    pub fn new() -> (m: Self)
        ensures
            m.wf(),
            m.view() == Map::<Seq<char>, V>::empty(),
    {
        let m = EntryMap { keys: Vec::new(), values: Vec::new() };
        assert(m.view() =~= Map::<Seq<char>, V>::empty());
        m
    }

    /// The number of entries.
    pub fn len(&self) -> (n: usize)
        requires
            self.wf(),
        ensures
            n == self.key_seq().len(),
            n == self.view().dom().len(),
    {
        proof {
            self.lemma_dom_len();
        }
        self.keys.len()
    }

    /// The domain of the map has one key per stored entry.
    proof fn lemma_dom_len(&self)
        requires
            self.wf(),
        ensures
            self.view().dom().finite(),
            self.view().dom().len() == self.key_seq().len(),
    {
        let ks = self.key_seq().map_values(|s: String| s@);
        assert forall|i: int, j: int| 0 <= i < j < ks.len() implies ks[i] != ks[j] by {
            assert(self.key_seq()[i]@ != self.key_seq()[j]@);
        }
        assert(ks.no_duplicates());
        ks.unique_seq_to_set();
        assert forall|k: Seq<char>| self.view().dom().contains(k) <==> ks.to_set().contains(k) by {
            if self.view().dom().contains(k) {
                let i = choose|i: int| 0 <= i < self.key_seq().len() && #[trigger] self.key_seq()[i]@ == k;
                assert(ks[i] == k);
            }
            if ks.to_set().contains(k) {
                let i = choose|i: int| 0 <= i < ks.len() && ks[i] == k;
                assert(self.key_seq()[i]@ == k);
            }
        }
        assert(self.view().dom() =~= ks.to_set());
    }

    /// The key stored at position `i`.
    pub fn key_at(&self, i: usize) -> (k: &String)
        requires
            self.wf(),
            i < self.key_seq().len(),
        ensures
            *k == self.key_seq()[i as int],
            self.view().dom().contains(k@),
    {
        proof {
            self.lemma_view_at(i as int);
        }
        &self.keys[i]
    }

    /// The value stored at position `i`.
    pub fn value_at(&self, i: usize) -> (v: &V)
        requires
            self.wf(),
            i < self.key_seq().len(),
        ensures
            *v == self.view()[self.key_seq()[i as int]@],
    {
        proof {
            self.lemma_view_at(i as int);
        }
        &self.values[i]
    }

    /// The position of `k`, if it is stored.
    fn position(&self, k: &str) -> (r: Option<usize>)
        requires
            self.wf(),
        ensures
            match r {
                Some(i) => i < self.key_seq().len() && self.key_seq()[i as int]@ == k@,
                None => !self.view().dom().contains(k@),
            },
    {
        let mut i: usize = 0;
        while i < self.keys.len()
            invariant
                self.wf(),
                i <= self.keys.len(),
                forall|j: int| 0 <= j < i ==> #[trigger] self.key_seq()[j]@ != k@,
            decreases self.keys.len() - i,
        {
            if str_eq(self.keys[i].as_str(), k) {
                return Some(i);
            }
            i = i + 1;
        }
        None
    }

    /// The value stored under `k`, if any.
    pub fn get(&self, k: &str) -> (r: Option<&V>)
        requires
            self.wf(),
        ensures
            r.is_some() == self.view().dom().contains(k@),
            r.is_some() ==> *r.unwrap() == self.view()[k@],
    {
        match self.position(k) {
            Some(i) => {
                proof {
                    self.lemma_view_at(i as int);
                }
                Some(&self.values[i])
            },
            None => None,
        }
    }

    /// Store `v` under `k`, replacing any value already there.
    pub fn insert(&mut self, k: String, v: V)
        requires
            old(self).wf(),
        ensures
            final(self).wf(),
            final(self).view() == old(self).view().insert(k@, v),
    {
        let ghost old_self = *self;
        match self.position(k.as_str()) {
            Some(i) => {
                self.values.set(i, v);
                proof {
                    assert(self.key_seq() == old_self.key_seq());
                    assert forall|q: Seq<char>|
                        self.view().dom().contains(q) == old_self.view().insert(k@, v).dom().contains(q) by {
                        if q == k@ {
                            self.lemma_view_at(i as int);
                        }
                    }
                    assert forall|q: Seq<char>| #[trigger] self.view().dom().contains(q)
                        implies self.view()[q] == old_self.view().insert(k@, v)[q] by {
                        let j = choose|j: int| 0 <= j < self.key_seq().len() && #[trigger] self.key_seq()[j]@ == q;
                        self.lemma_view_at(j);
                        if j != i {
                            old_self.lemma_view_at(j);
                        }
                    }
                    assert(self.view() =~= old_self.view().insert(k@, v));
                }
            },
            None => {
                let ghost kv = k@;
                self.keys.push(k);
                self.values.push(v);
                proof {
                    let n = old_self.key_seq().len() as int;
                    assert forall|a: int, b: int|
                        0 <= a < b < self.key_seq().len() implies #[trigger] self.key_seq()[a]@ != #[trigger] self.key_seq()[b]@ by {
                        if b == n {
                            assert(old_self.key_seq()[a] == self.key_seq()[a]);
                            if self.key_seq()[a]@ == kv {
                                old_self.lemma_view_at(a);
                            }
                        } else {
                            assert(old_self.key_seq()[a]@ != old_self.key_seq()[b]@);
                        }
                    }
                    assert forall|q: Seq<char>|
                        self.view().dom().contains(q) == old_self.view().insert(kv, v).dom().contains(q) by {
                        if q == kv {
                            self.lemma_view_at(n);
                        } else if self.view().dom().contains(q) {
                            let j = choose|j: int| 0 <= j < self.key_seq().len() && #[trigger] self.key_seq()[j]@ == q;
                            assert(j < n);
                            assert(old_self.key_seq()[j]@ == q);
                        } else if old_self.view().dom().contains(q) {
                            let j = choose|j: int| 0 <= j < old_self.key_seq().len() && #[trigger] old_self.key_seq()[j]@ == q;
                            assert(self.key_seq()[j]@ == q);
                        }
                    }
                    assert forall|q: Seq<char>| #[trigger] self.view().dom().contains(q)
                        implies self.view()[q] == old_self.view().insert(kv, v)[q] by {
                        let j = choose|j: int| 0 <= j < self.key_seq().len() && #[trigger] self.key_seq()[j]@ == q;
                        self.lemma_view_at(j);
                        if j != n {
                            old_self.lemma_view_at(j);
                        }
                    }
                    assert(self.view() =~= old_self.view().insert(kv, v));
                }
            },
        }
    }

    /// Remove the entry under `k`; returns whether there was one.
    pub fn remove(&mut self, k: &str) -> (removed: bool)
        requires
            old(self).wf(),
        ensures
            final(self).wf(),
            removed == old(self).view().dom().contains(k@),
            final(self).view() == old(self).view().remove(k@),
    {
        let ghost old_self = *self;
        match self.position(k) {
            Some(i) => {
                self.keys.remove(i);
                self.values.remove(i);
                proof {
                    old_self.lemma_view_at(i as int);
                    let n = old_self.key_seq().len() as int;
                    // position p in the new vectors is position `src(p)` in the old ones
                    assert forall|p: int| 0 <= p < n - 1 implies
                        #[trigger] self.key_seq()[p] == old_self.key_seq()[if p < i { p } else { p + 1 }]
                        && self.value_seq()[p] == old_self.value_seq()[if p < i { p } else { p + 1 }] by {}
                    assert forall|a: int, b: int|
                        0 <= a < b < self.key_seq().len() implies #[trigger] self.key_seq()[a]@ != #[trigger] self.key_seq()[b]@ by {
                        let sa = if a < i { a } else { a + 1 };
                        let sb = if b < i { b } else { b + 1 };
                        assert(self.key_seq()[a] == old_self.key_seq()[sa]);
                        assert(self.key_seq()[b] == old_self.key_seq()[sb]);
                        assert(old_self.key_seq()[sa]@ != old_self.key_seq()[sb]@);
                    }
                    assert forall|q: Seq<char>|
                        self.view().dom().contains(q) == old_self.view().remove(k@).dom().contains(q) by {
                        if self.view().dom().contains(q) {
                            let j = choose|j: int| 0 <= j < self.key_seq().len() && #[trigger] self.key_seq()[j]@ == q;
                            let sj = if j < i { j } else { j + 1 };
                            assert(self.key_seq()[j] == old_self.key_seq()[sj]);
                            assert(old_self.key_seq()[sj]@ != old_self.key_seq()[i as int]@);
                            assert(old_self.key_seq()[sj]@ == q);
                        }
                        if old_self.view().remove(k@).dom().contains(q) {
                            let j = choose|j: int| 0 <= j < old_self.key_seq().len() && #[trigger] old_self.key_seq()[j]@ == q;
                            assert(j != i);
                            let p = if j < i { j } else { j - 1 };
                            assert(self.key_seq()[p] == old_self.key_seq()[j]);
                            assert(self.key_seq()[p]@ == q);
                        }
                    }
                    assert forall|q: Seq<char>| #[trigger] self.view().dom().contains(q)
                        implies self.view()[q] == old_self.view().remove(k@)[q] by {
                        let j = choose|j: int| 0 <= j < self.key_seq().len() && #[trigger] self.key_seq()[j]@ == q;
                        let sj = if j < i { j } else { j + 1 };
                        assert(self.key_seq()[j] == old_self.key_seq()[sj]);
                        self.lemma_view_at(j);
                        old_self.lemma_view_at(sj);
                    }
                    assert(self.view() =~= old_self.view().remove(k@));
                }
                true
            },
            None => {
                proof {
                    assert(self.view() =~= old_self.view().remove(k@));
                }
                false
            },
        }
    }
}


impl<V> EntryMap<V> {
    /// The first position whose key begins with `p`, if any.
    fn first_with_prefix(&self, p: &Vec<char>) -> (r: Option<usize>)
        requires
            self.wf(),
        ensures
            match r {
                Some(j) => j < self.key_seq().len() && starts_with(self.key_seq()[j as int]@, p@),
                None => forall|k: Seq<char>| #[trigger] self.view().dom().contains(k) ==> !starts_with(k, p@),
            },
    {
        let mut i: usize = 0;
        while i < self.keys.len()
            invariant
                self.wf(),
                i <= self.keys.len(),
                forall|j: int| 0 <= j < i ==> !starts_with(#[trigger] self.key_seq()[j]@, p@),
            decreases self.keys.len() - i,
        {
            let kc = chars_of(self.keys[i].as_str());
            if chars_start_with(&kc, p) {
                return Some(i);
            }
            i = i + 1;
        }
        proof {
            assert forall|k: Seq<char>| #[trigger] self.view().dom().contains(k) implies !starts_with(k, p@) by {
                let j = choose|j: int| 0 <= j < self.key_seq().len() && #[trigger] self.key_seq()[j]@ == k;
                assert(!starts_with(self.key_seq()[j]@, p@));
            }
        }
        None
    }

    /// Remove every entry whose key begins with `prefix`; returns whether any
    /// entry was removed.
    pub fn remove_prefixed(&mut self, prefix: &str) -> (removed: bool)
        requires
            old(self).wf(),
        ensures
            final(self).wf(),
            final(self).view() == without_prefixed(old(self).view(), prefix@),
            removed == exists|k: Seq<char>| #[trigger] old(self).view().dom().contains(k) && starts_with(k, prefix@),
    {
        let ghost start = self.view();
        let p = chars_of(prefix);
        let mut any = false;
        loop
            invariant
                self.wf(),
                p@ == prefix@,
                start == old(self).view(),
                forall|k: Seq<char>| #[trigger] self.view().dom().contains(k) ==> start.dom().contains(k) && self.view()[k] == start[k],
                forall|k: Seq<char>| #[trigger] start.dom().contains(k) && !starts_with(k, prefix@) ==> self.view().dom().contains(k),
                any == exists|k: Seq<char>| #[trigger] start.dom().contains(k) && starts_with(k, prefix@) && !self.view().dom().contains(k),
            decreases self.key_seq().len(),
        {
            match self.first_with_prefix(&p) {
                None => {
                    proof {
                        assert(self.view() =~= without_prefixed(start, prefix@));
                        if exists|k: Seq<char>| #[trigger] start.dom().contains(k) && starts_with(k, prefix@) {
                            let k = choose|k: Seq<char>| #[trigger] start.dom().contains(k) && starts_with(k, prefix@);
                            assert(!self.view().dom().contains(k));
                        }
                    }
                    return any;
                },
                Some(j) => {
                    let k = copy_string(&self.keys[j]);
                    let ghost before = *self;
                    proof {
                        before.lemma_view_at(j as int);
                        before.lemma_dom_len();
                    }
                    self.remove(k.as_str());
                    proof {
                        self.lemma_dom_len();
                        assert(before.view().dom().remove(k@) =~= self.view().dom());
                        assert(start.dom().contains(k@) && starts_with(k@, prefix@) && !self.view().dom().contains(k@));
                    }
                    any = true;
                },
            }
        }
    }
}

/// `m` without the entries whose key begins with `prefix`.
pub open spec fn without_prefixed<V>(m: Map<Seq<char>, V>, prefix: Seq<char>) -> Map<Seq<char>, V> {
    m.restrict(Set::new(|k: Seq<char>| !starts_with(k, prefix)))
}

/// The value a map holds for `k`, if any.
pub open spec fn lookup<V>(m: Map<Seq<char>, V>, k: Seq<char>) -> Option<V> {
    if m.dom().contains(k) {
        Some(m[k])
    } else {
        None
    }
}

/// The full credentials file: tokens and user keys, each keyed by
/// [`cache_key`].
pub struct CredentialStore {
    /// Cached OIDC tokens, keyed by `"{api_endpoint}|{issuer}"`.
    pub tokens: EntryMap<CachedToken>,
    /// Cached user keys, keyed by `"{api_endpoint}|{tenant_id}"`.
    pub user_keys: EntryMap<CachedUserKey>,
}

impl CredentialStore {
    /// Both maps are well formed.
    pub open spec fn wf(&self) -> bool {
        self.tokens.wf() && self.user_keys.wf()
    }

    /// A store with no entries.
    pub fn new() -> (s: Self)
        ensures
            s.wf(),
            s.tokens.view() == Map::<Seq<char>, CachedToken>::empty(),
            s.user_keys.view() == Map::<Seq<char>, CachedUserKey>::empty(),
    {
        CredentialStore { tokens: EntryMap::new(), user_keys: EntryMap::new() }
    }
}

/// The token map after storing `t` for `api_endpoint`.
pub open spec fn put_token(
    tokens: Map<Seq<char>, CachedToken>,
    api_endpoint: Seq<char>,
    t: CachedToken,
) -> Map<Seq<char>, CachedToken> {
    tokens.insert(cache_key_of(api_endpoint, t.issuer@), t)
}

/// The user-key map after a logout from `api_endpoint`: every key of that
/// endpoint is gone.
pub open spec fn logout_user_keys(
    keys: Map<Seq<char>, CachedUserKey>,
    api_endpoint: Seq<char>,
) -> Map<Seq<char>, CachedUserKey> {
    without_prefixed(keys, api_endpoint + "|"@)
}

/// A handle to the credentials cache stored at `path`.
///
/// The file is loaded into the handle by the caller; [`Cache::needs_save`]
/// says whether the entries changed in a way that must be written back.
pub struct Cache {
    path: String,
    store: CredentialStore,
    unsaved: bool,
}

impl Cache {
    /// The backing file path.
    pub closed spec fn path_view(&self) -> Seq<char> {
        self.path@
    }

    /// The cached tokens.
    pub closed spec fn tokens(&self) -> Map<Seq<char>, CachedToken> {
        self.store.tokens.view()
    }

    /// The cached user keys.
    pub closed spec fn user_keys(&self) -> Map<Seq<char>, CachedUserKey> {
        self.store.user_keys.view()
    }

    /// Whether the entries changed since they were loaded or saved.
    pub closed spec fn dirty(&self) -> bool {
        self.unsaved
    }

    /// The store is well formed.
    pub closed spec fn wf(&self) -> bool {
        self.store.wf()
    }

    /// A cache backed by `path` with no entries loaded (the file need not exist).
    pub fn new(path: String) -> (c: Self)
        ensures
            c.wf(),
            c.path_view() == path@,
            c.tokens() == Map::<Seq<char>, CachedToken>::empty(),
            c.user_keys() == Map::<Seq<char>, CachedUserKey>::empty(),
            !c.dirty(),
    {
        Cache { path, store: CredentialStore::new(), unsaved: false }
    }

    /// A cache backed by `path` holding the entries read from it.
    pub fn with_store(path: String, store: CredentialStore) -> (c: Self)
        requires
            store.wf(),
        ensures
            c.wf(),
            c.path_view() == path@,
            c.tokens() == store.tokens.view(),
            c.user_keys() == store.user_keys.view(),
            !c.dirty(),
    {
        Cache { path, store, unsaved: false }
    }

    /// The backing file path.
    pub fn path(&self) -> (p: &str)
        ensures
            p@ == self.path_view(),
    {
        self.path.as_str()
    }

    /// The entries, for writing them back.
    pub fn store(&self) -> (s: &CredentialStore)
        requires
            self.wf(),
        ensures
            s.wf(),
            s.tokens.view() == self.tokens(),
            s.user_keys.view() == self.user_keys(),
    {
        &self.store
    }

    /// Whether the entries must be written back to the file.
    pub fn needs_save(&self) -> (r: bool)
        ensures
            r == self.dirty(),
    {
        self.unsaved
    }

    /// Record that the entries were written back.
    pub fn mark_saved(&mut self)
        ensures
            final(self).wf() == old(self).wf(),
            final(self).path_view() == old(self).path_view(),
            final(self).tokens() == old(self).tokens(),
            final(self).user_keys() == old(self).user_keys(),
            !final(self).dirty(),
    {
        self.unsaved = false;
    }

    /// The cached token for `(api_endpoint, issuer)`, if any.
    pub fn get(&self, api_endpoint: &str, issuer: &str) -> (r: Option<CachedToken>)
        requires
            self.wf(),
        ensures
            r == lookup(self.tokens(), cache_key_of(api_endpoint@, issuer@)),
    {
        let key = cache_key(api_endpoint, issuer);
        match self.store.tokens.get(key.as_str()) {
            Some(t) => Some(copy_token(t)),
            None => None,
        }
    }

    /// Store `token` for `(api_endpoint, token.issuer)`.
    pub fn put(&mut self, api_endpoint: &str, token: CachedToken)
        requires
            old(self).wf(),
        ensures
            final(self).wf(),
            final(self).path_view() == old(self).path_view(),
            final(self).tokens() == put_token(old(self).tokens(), api_endpoint@, token),
            final(self).user_keys() == old(self).user_keys(),
            final(self).dirty(),
    {
        let key = cache_key(api_endpoint, token.issuer.as_str());
        self.store.tokens.insert(key, token);
        self.unsaved = true;
    }

    /// Log out of `(api_endpoint, issuer)`: remove its token and every user
    /// key of `api_endpoint`. Returns whether a token was removed.
    pub fn remove(&mut self, api_endpoint: &str, issuer: &str) -> (removed: bool)
        requires
            old(self).wf(),
        ensures
            final(self).wf(),
            final(self).path_view() == old(self).path_view(),
            removed == old(self).tokens().dom().contains(cache_key_of(api_endpoint@, issuer@)),
            final(self).tokens() == old(self).tokens().remove(cache_key_of(api_endpoint@, issuer@)),
            final(self).user_keys() == logout_user_keys(old(self).user_keys(), api_endpoint@),
            final(self).dirty() == (old(self).dirty() || removed || exists|k: Seq<char>|
                #[trigger] old(self).user_keys().dom().contains(k) && starts_with(k, api_endpoint@ + "|"@)),
    {
        let key = cache_key(api_endpoint, issuer);
        let removed = self.store.tokens.remove(key.as_str());
        let mut prefix = owned(api_endpoint);
        push_str(&mut prefix, "|");
        let keys_removed = self.store.user_keys.remove_prefixed(prefix.as_str());
        if removed || keys_removed {
            self.unsaved = true;
        }
        removed
    }

    /// The cached `user_key` for `(api_endpoint, tenant_id)`, if any.
    pub fn get_user_key(&self, api_endpoint: &str, tenant_id: &str) -> (r: Option<CachedUserKey>)
        requires
            self.wf(),
        ensures
            r == lookup(self.user_keys(), cache_key_of(api_endpoint@, tenant_id@)),
    {
        let key = cache_key(api_endpoint, tenant_id);
        match self.store.user_keys.get(key.as_str()) {
            Some(k) => Some(copy_user_key(k)),
            None => None,
        }
    }

    /// Store a `user_key` for `(api_endpoint, tenant_id)`.
    pub fn put_user_key(&mut self, api_endpoint: &str, tenant_id: &str, key: CachedUserKey)
        requires
            old(self).wf(),
        ensures
            final(self).wf(),
            final(self).path_view() == old(self).path_view(),
            final(self).tokens() == old(self).tokens(),
            final(self).user_keys() == old(self).user_keys().insert(cache_key_of(api_endpoint@, tenant_id@), key),
            final(self).dirty(),
    {
        let k = cache_key(api_endpoint, tenant_id);
        self.store.user_keys.insert(k, key);
        self.unsaved = true;
    }

    /// Remove the cached `user_key` for `(api_endpoint, tenant_id)`; returns
    /// whether there was one.
    pub fn remove_user_key(&mut self, api_endpoint: &str, tenant_id: &str) -> (removed: bool)
        requires
            old(self).wf(),
        ensures
            final(self).wf(),
            final(self).path_view() == old(self).path_view(),
            removed == old(self).user_keys().dom().contains(cache_key_of(api_endpoint@, tenant_id@)),
            final(self).tokens() == old(self).tokens(),
            final(self).user_keys() == old(self).user_keys().remove(cache_key_of(api_endpoint@, tenant_id@)),
            final(self).dirty() == (old(self).dirty() || removed),
    {
        let k = cache_key(api_endpoint, tenant_id);
        let removed = self.store.user_keys.remove(k.as_str());
        if removed {
            self.unsaved = true;
        }
        removed
    }
}

// --- laws -------------------------------------------------------------------

/// A token read back after it was stored is the token that was stored.
pub proof fn law_get_after_put(tokens: Map<Seq<char>, CachedToken>, api_endpoint: Seq<char>, t: CachedToken)
    ensures
        lookup(put_token(tokens, api_endpoint, t), cache_key_of(api_endpoint, t.issuer@)) == Some(t),
{
}

/// Storing a token for one endpoint leaves what another endpoint reads for
/// the same issuer unchanged.
pub proof fn law_endpoints_are_isolated(
    tokens: Map<Seq<char>, CachedToken>,
    a: Seq<char>,
    b: Seq<char>,
    t: CachedToken,
)
    requires
        a != b,
    ensures
        lookup(put_token(tokens, a, t), cache_key_of(b, t.issuer@)) == lookup(tokens, cache_key_of(b, t.issuer@)),
{
    if cache_key_of(a, t.issuer@) == cache_key_of(b, t.issuer@) {
        lemma_cache_key_injective(a, b, t.issuer@);
    }
}

/// After a logout the token is gone, and a second logout removes nothing.
pub proof fn law_logout_forgets_token(tokens: Map<Seq<char>, CachedToken>, api_endpoint: Seq<char>, issuer: Seq<char>)
    ensures
        lookup(tokens.remove(cache_key_of(api_endpoint, issuer)), cache_key_of(api_endpoint, issuer)) == None::<CachedToken>,
        !tokens.remove(cache_key_of(api_endpoint, issuer)).dom().contains(cache_key_of(api_endpoint, issuer)),
{
}

/// After a logout from an endpoint no user key of that endpoint remains, and
/// the user keys of endpoints that are not an extension of it stay.
pub proof fn law_logout_forgets_user_keys(
    keys: Map<Seq<char>, CachedUserKey>,
    api_endpoint: Seq<char>,
    tenant_id: Seq<char>,
    other: Seq<char>,
)
    ensures
        lookup(logout_user_keys(keys, api_endpoint), cache_key_of(api_endpoint, tenant_id)) == None::<CachedUserKey>,
        !starts_with(other, api_endpoint + "|"@) ==> lookup(logout_user_keys(keys, api_endpoint), other) == lookup(keys, other),
{
    let k = cache_key_of(api_endpoint, tenant_id);
    let p = api_endpoint + "|"@;
    assert(k.take(p.len() as int) =~= p);
}

} // verus!
