//! ERC-20 metadata cache: each token's metadata is fetched once and kept.

use vstd::prelude::*;
use crate::address::{Address, lemma_address_view_eq};

verus! {

/// Decimals and symbol of a token.
#[derive(Debug, PartialEq, Eq)]
pub struct TokenMeta {
    pub decimals: u8,
    pub symbol: String,
}

impl Clone for TokenMeta {
    fn clone(&self) -> (c: Self)
        ensures
            c == *self,
    {
        TokenMeta { decimals: self.decimals, symbol: self.symbol.clone() }
    }
}

/// The byte strings of the cached tokens, in entry order.
pub open spec fn key_views(entries: Seq<(Address, TokenMeta)>) -> Seq<Seq<u8>> {
    entries.map_values(|e: (Address, TokenMeta)| e.0@)
}

/// The map that a list of entries with distinct tokens stands for.
pub open spec fn entries_map(entries: Seq<(Address, TokenMeta)>) -> Map<Seq<u8>, TokenMeta>
    decreases entries.len(),
{
    if entries.len() == 0 {
        Map::empty()
    } else {
        entries_map(entries.drop_last()).insert(entries.last().0@, entries.last().1)
    }
}

/// The map of the entries holds exactly their tokens.
proof fn lemma_entries_map_dom(entries: Seq<(Address, TokenMeta)>)
    ensures
        entries_map(entries).dom() == key_views(entries).to_set(),
    decreases entries.len(),
{
    if entries.len() > 0 {
        lemma_entries_map_dom(entries.drop_last());
        assert(key_views(entries) =~= key_views(entries.drop_last()).push(entries.last().0@));
        key_views(entries.drop_last()).lemma_push_to_set_commute(entries.last().0@);
    } else {
        assert(key_views(entries).to_set() =~= Set::<Seq<u8>>::empty());
    }
}

/// With distinct tokens, the map of the entries gives each token the
/// metadata of its entry.
proof fn lemma_entries_map_lookup(entries: Seq<(Address, TokenMeta)>, i: int)
    requires
        key_views(entries).no_duplicates(),
        0 <= i < entries.len(),
    ensures
        entries_map(entries).contains_key(entries[i].0@),
        entries_map(entries)[entries[i].0@] == entries[i].1,
    decreases entries.len(),
{
    if i < entries.len() - 1 {
        let rest = entries.drop_last();
        assert(key_views(rest) =~= key_views(entries).drop_last());
        assert(rest[i] == entries[i]);
        assert(key_views(entries)[i] != key_views(entries)[entries.len() - 1]);
        lemma_entries_map_lookup(rest, i);
    }
}

/// Replacing the metadata of an entry updates that token's metadata.
proof fn lemma_entries_map_update(entries: Seq<(Address, TokenMeta)>, i: int, meta: TokenMeta)
    requires
        key_views(entries).no_duplicates(),
        0 <= i < entries.len(),
    ensures
        entries_map(entries.update(i, (entries[i].0, meta))) == entries_map(entries).insert(
            entries[i].0@,
            meta,
        ),
    decreases entries.len(),
{
    let updated = entries.update(i, (entries[i].0, meta));
    let rest = entries.drop_last();
    if i == entries.len() - 1 {
        assert(updated.drop_last() =~= rest);
        assert(entries_map(updated) =~= entries_map(entries).insert(entries[i].0@, meta));
    } else {
        assert(key_views(rest) =~= key_views(entries).drop_last());
        assert(rest[i] == entries[i]);
        lemma_entries_map_update(rest, i, meta);
        assert(updated.drop_last() =~= rest.update(i, (rest[i].0, meta)));
        assert(key_views(entries)[i] != key_views(entries)[entries.len() - 1]);
        assert(entries_map(updated) =~= entries_map(entries).insert(entries[i].0@, meta));
    }
}

/// Caches token metadata so that each token is fetched from `source` once.
pub struct TokenMetaCache<S> {
    source: S,
    entries: Vec<(Address, TokenMeta)>,
}

impl<S> TokenMetaCache<S> {
    /// Each token has at most one entry.
    #[verifier::type_invariant]
    spec fn inv(self) -> bool {
        key_views(self.entries@).no_duplicates()
    }

    /// The metadata source the cache fills from.
    pub closed spec fn spec_source(&self) -> S {
        self.source
    }
}

impl<S> View for TokenMetaCache<S> {
    type V = Map<Seq<u8>, TokenMeta>;

    /// The cached metadata of each token.
    closed spec fn view(&self) -> Map<Seq<u8>, TokenMeta> {
        entries_map(self.entries@)
    }
}

impl<S> TokenMetaCache<S> {
    /// An empty cache over `source`.
    pub fn new(source: S) -> (c: Self)
        ensures
            c@ == Map::<Seq<u8>, TokenMeta>::empty(),
            c.spec_source() == source,
    {
        TokenMetaCache { source, entries: Vec::new() }
    }

    /// The metadata source the cache fills from.
    pub fn source(&self) -> (s: &S)
        ensures
            *s == self.spec_source(),
    {
        &self.source
    }

    /// Position of `token`'s entry, if it has one.
    fn find(&self, token: &Address) -> (at: Option<usize>)
        ensures
            at matches Some(i) ==> i < self.entries@.len() && self.entries@[i as int].0@
                == token@,
            at is None ==> !key_views(self.entries@).contains(token@),
    {
        let mut i: usize = 0;
        while i < self.entries.len()
            invariant
                0 <= i <= self.entries@.len(),
                forall|j: int| 0 <= j < i ==> self.entries@[j].0@ != token@,
            decreases self.entries@.len() - i,
        {
            if self.entries[i].0 == *token {
                return Some(i);
            }
            i = i + 1;
        }
        proof {
            if key_views(self.entries@).contains(token@) {
                let j = choose|j: int|
                    0 <= j < self.entries@.len() && key_views(self.entries@)[j] == token@;
                assert(self.entries@[j].0@ == token@);
            }
        }
        None
    }

    /// The cached metadata of `token`, or `None` on a miss.
    pub fn cached(&self, token: &Address) -> (meta: Option<TokenMeta>)
        ensures
            meta == if self@.contains_key(token@) {
                Some(self@[token@])
            } else {
                None::<TokenMeta>
            },
    {
        proof {
            use_type_invariant(self);
            lemma_entries_map_dom(self.entries@);
        }
        match self.find(token) {
            Some(i) => {
                proof {
                    lemma_entries_map_lookup(self.entries@, i as int);
                }
                Some(self.entries[i].1.clone())
            },
            None => None,
        }
    }

    /// Cache `meta` as the metadata of `token`.
    pub fn insert(&mut self, token: Address, meta: TokenMeta)
        ensures
            final(self)@ == old(self)@.insert(token@, meta),
            final(self).spec_source() == old(self).spec_source(),
    {
        proof {
            use_type_invariant(&*self);
        }
        let at = self.find(&token);
        let mut entries: Vec<(Address, TokenMeta)> = Vec::new();
        std::mem::swap(&mut entries, &mut self.entries);
        let ghost prev = entries@;
        match at {
            Some(i) => {
                let old_token = entries[i].0;
                proof {
                    lemma_address_view_eq(old_token, token);
                    lemma_entries_map_update(prev, i as int, meta);
                }
                entries.set(i, (old_token, meta));
                proof {
                    assert(entries@ == prev.update(i as int, (prev[i as int].0, meta)));
                    assert(key_views(entries@) =~= key_views(prev));
                }
            },
            None => {
                entries.push((token, meta));
                proof {
                    assert(entries@.drop_last() =~= prev);
                    assert(key_views(entries@) =~= key_views(prev).push(token@));
                }
            },
        }
        self.entries = entries;
    }

    /// Number of cached tokens.
    pub fn len(&self) -> (n: usize)
        ensures
            n == self@.len(),
    {
        proof {
            use_type_invariant(self);
            lemma_entries_map_dom(self.entries@);
            key_views(self.entries@).unique_seq_to_set();
        }
        self.entries.len()
    }

    /// Whether no token is cached.
    pub fn is_empty(&self) -> (b: bool)
        ensures
            b == (self@.len() == 0),
    {
        proof {
            use_type_invariant(self);
            lemma_entries_map_dom(self.entries@);
            key_views(self.entries@).unique_seq_to_set();
        }
        self.entries.len() == 0
    }
}

/// A token is fetched from the source at most once: after its metadata is
/// cached, every later lookup is a hit returning that metadata until it is
/// cached anew, and caching one token leaves every other token's entry as
/// it was.
pub proof fn lemma_cache_hit_after_insert(
    cache: Map<Seq<u8>, TokenMeta>,
    token: Seq<u8>,
    meta: TokenMeta,
    other: Seq<u8>,
)
    requires
        other != token,
    ensures
        cache.insert(token, meta).contains_key(token),
        cache.insert(token, meta)[token] == meta,
        cache.insert(token, meta).contains_key(other) == cache.contains_key(other),
        cache.contains_key(other) ==> cache.insert(token, meta)[other] == cache[other],
{
}

/// The cache after the first `k` lookups of `tokens`, starting empty. A
/// lookup that hits leaves the cache as it is; one that misses fetches the
/// token, and `fetched[i]` is what the fetch of lookup `i` gave: metadata,
/// which is cached, or `None` for a failed fetch, which caches nothing.
pub open spec fn cache_at(
    tokens: Seq<Seq<u8>>,
    fetched: Seq<Option<TokenMeta>>,
    k: nat,
) -> Map<Seq<u8>, TokenMeta>
    decreases k,
{
    if k == 0 || k > tokens.len() {
        Map::empty()
    } else {
        let before = cache_at(tokens, fetched, (k - 1) as nat);
        let token = tokens[k - 1];
        if before.contains_key(token) {
            before
        } else {
            match fetched[k - 1] {
                Some(meta) => before.insert(token, meta),
                None => before,
            }
        }
    }
}

/// Whether lookup `i` misses the cache and goes to the source.
pub open spec fn fetches_at(tokens: Seq<Seq<u8>>, fetched: Seq<Option<TokenMeta>>, i: nat) -> bool {
    !cache_at(tokens, fetched, i).contains_key(tokens[i as int])
}

/// What lookup `i` answers: the cached metadata on a hit, else what the
/// fetch gave (`None` for an error).
pub open spec fn answer_at(
    tokens: Seq<Seq<u8>>,
    fetched: Seq<Option<TokenMeta>>,
    i: nat,
) -> Option<TokenMeta> {
    let cache = cache_at(tokens, fetched, i);
    if cache.contains_key(tokens[i as int]) {
        Some(cache[tokens[i as int]])
    } else {
        fetched[i as int]
    }
}

/// The tokens among the first `k` lookups whose fetch succeeded.
pub open spec fn fetched_tokens(
    tokens: Seq<Seq<u8>>,
    fetched: Seq<Option<TokenMeta>>,
    k: nat,
) -> Set<Seq<u8>> {
    Set::new(
        |t: Seq<u8>|
            exists|i: nat|
                i < k && tokens[i as int] == t && #[trigger] fetches_at(tokens, fetched, i)
                    && fetched[i as int] is Some,
    )
}

/// Once cached, a token keeps its metadata through every later lookup.
proof fn lemma_cache_keeps(
    tokens: Seq<Seq<u8>>,
    fetched: Seq<Option<TokenMeta>>,
    i: nat,
    j: nat,
    token: Seq<u8>,
)
    requires
        i <= j <= tokens.len(),
        cache_at(tokens, fetched, i).contains_key(token),
    ensures
        cache_at(tokens, fetched, j).contains_key(token),
        cache_at(tokens, fetched, j)[token] == cache_at(tokens, fetched, i)[token],
    decreases j,
{
    if i < j {
        lemma_cache_keeps(tokens, fetched, i, (j - 1) as nat, token);
    }
}

/// The cache holds exactly the tokens fetched successfully so far.
proof fn lemma_cache_dom(tokens: Seq<Seq<u8>>, fetched: Seq<Option<TokenMeta>>, k: nat)
    requires
        k <= tokens.len(),
    ensures
        cache_at(tokens, fetched, k).dom() == fetched_tokens(tokens, fetched, k),
    decreases k,
{
    if k > 0 {
        let p = (k - 1) as nat;
        lemma_cache_dom(tokens, fetched, p);
        let before = fetched_tokens(tokens, fetched, p);
        let after = fetched_tokens(tokens, fetched, k);
        assert forall|t: Seq<u8>| after.contains(t) == (before.contains(t) || (t == tokens[p as int]
            && fetches_at(tokens, fetched, p) && fetched[p as int] is Some)) by {
            if after.contains(t) {
                let i = choose|i: nat|
                    i < k && tokens[i as int] == t && #[trigger] fetches_at(tokens, fetched, i)
                        && fetched[i as int] is Some;
                if i < p {
                    assert(before.contains(t));
                }
            }
            if before.contains(t) {
                let i = choose|i: nat|
                    i < p && tokens[i as int] == t && #[trigger] fetches_at(tokens, fetched, i)
                        && fetched[i as int] is Some;
                assert(after.contains(t));
            }
        }
        assert(cache_at(tokens, fetched, k).dom() =~= after);
    }
}

/// A sequence of lookups through the cache, starting empty, where each miss
/// fetches from the source and `fetched[i]` is what the fetch of lookup `i`
/// gave. A token is fetched again only after a failed fetch: once a fetch of
/// it succeeds, no later lookup fetches it, and every later lookup of it
/// answers the metadata of that first fetch. A failed fetch caches nothing,
/// and the cache holds exactly the tokens fetched successfully, so its length
/// is their number.
pub proof fn lemma_each_token_fetched_once(
    tokens: Seq<Seq<u8>>,
    fetched: Seq<Option<TokenMeta>>,
)
    requires
        fetched.len() == tokens.len(),
    ensures
        forall|i: nat, j: nat|
            i < j < tokens.len() && tokens[i as int] == tokens[j as int] && #[trigger] fetches_at(
                tokens,
                fetched,
                i,
            ) && #[trigger] fetches_at(tokens, fetched, j) ==> fetched[i as int] is None,
        forall|i: nat, j: nat|
            i < j < tokens.len() && tokens[i as int] == tokens[j as int] && #[trigger] fetches_at(
                tokens,
                fetched,
                i,
            ) && fetched[i as int] is Some ==> #[trigger] answer_at(tokens, fetched, j)
                == fetched[i as int],
        forall|i: nat|
            i < tokens.len() && #[trigger] fetches_at(tokens, fetched, i) && fetched[i as int] is None
                ==> cache_at(tokens, fetched, i + 1) == cache_at(tokens, fetched, i),
        cache_at(tokens, fetched, tokens.len()).dom() == fetched_tokens(
            tokens,
            fetched,
            tokens.len(),
        ),
        cache_at(tokens, fetched, tokens.len()).len() == fetched_tokens(
            tokens,
            fetched,
            tokens.len(),
        ).len(),
{
    assert forall|i: nat, j: nat|
        i < j < tokens.len() && tokens[i as int] == tokens[j as int] && fetches_at(
            tokens,
            fetched,
            i,
        ) && fetched[i as int] is Some implies cache_at(tokens, fetched, j).contains_key(
        tokens[j as int],
    ) && cache_at(tokens, fetched, j)[tokens[j as int]] == fetched[i as int]->0 by {
        lemma_cache_keeps(tokens, fetched, i + 1, j, tokens[i as int]);
    }
    lemma_cache_dom(tokens, fetched, tokens.len());
}

} // verus!
