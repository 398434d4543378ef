use vstd::prelude::*;
use crate::model::LlmResponse;

verus! {

/// Name for the hex digest that blake3 assigns to a prompt: a fixed function
/// of the characters alone, the same in every process.
pub uninterp spec fn digest_of(prompt: Seq<char>) -> Seq<char>;

/// Relies on blake3::hash and blake3::Hash::to_hex: the digest is a pure
/// function of the input bytes, rendered as 64 hex characters.
#[verifier::external_body]
fn hash_key(prompt: &str) -> (r: String)
    ensures
        r@ == digest_of(prompt@),
        r@.len() == 64,
{
    blake3::hash(prompt.as_bytes()).to_hex().to_string()
}

/// The cache key derived for a prompt; identical prompts always yield the
/// identical key.
pub fn prompt_digest(prompt: &str) -> (r: String)
    ensures
        r@ == digest_of(prompt@),
        r@.len() == 64,
{
    hash_key(prompt)
}

/// One cached response: keyed by the prompt digest, dead once `expires_at`
/// (seconds) is reached.
pub struct CacheEntry {
    pub key: String,
    pub response: LlmResponse,
    pub expires_at: u64,
}

/// Bounded, time-limited map from prompt digests to previously produced
/// responses.
pub struct SemanticCache {
    pub entries: Vec<CacheEntry>,
    pub max_capacity: u64,
    pub ttl_secs: u64,
}

impl SemanticCache {
    /// Keys are unique and the entry count never passes the capacity.
    pub open spec fn wf(self) -> bool {
        &&& self.entries@.len() <= self.max_capacity
        &&& forall|i: int, j: int|
            0 <= i < j < self.entries@.len() ==> self.entries@[i].key@ != self.entries@[j].key@
    }

    /// First entry stored under `key`, if any.
    pub open spec fn spec_lookup(entries: Seq<CacheEntry>, key: Seq<char>) -> Option<CacheEntry>
        decreases entries.len(),
    {
        if entries.len() == 0 {
            None
        } else if entries[0].key@ == key {
            Some(entries[0])
        } else {
            Self::spec_lookup(entries.drop_first(), key)
        }
    }

    /// What a lookup at time `now` observes: the stored response, unless the
    /// entry is absent or already expired.
    pub open spec fn spec_get(self, key: Seq<char>, now: u64) -> Option<LlmResponse> {
        match Self::spec_lookup(self.entries@, key) {
            Some(e) => if now < e.expires_at {
                Some(e.response)
            } else {
                None
            },
            None => None,
        }
    }

    /// Everything an insertion under key `k` promises: the fresh entry is
    /// found under `k` and is returned by every read before `exp` and by
    /// none from `exp` on, while every entry surviving under another key
    /// was already present, unchanged.
    pub open spec fn spec_put_effect(
        pre: Self,
        post: Self,
        k: Seq<char>,
        response: LlmResponse,
        exp: u64,
    ) -> bool {
        &&& (match Self::spec_lookup(post.entries@, k) {
            Some(e) => e.key@ == k && e.response == response && e.expires_at == exp,
            None => false,
        })
        &&& (forall|t: u64| t < exp ==> post.spec_get(k, t) == Some(response))
        &&& (forall|t: u64| t >= exp ==> post.spec_get(k, t) is None)
        &&& (forall|k2: Seq<char>|
            k2 != k ==> (match #[trigger] Self::spec_lookup(post.entries@, k2) {
                Some(e) => Self::spec_lookup(pre.entries@, k2) == Some(e),
                None => true,
            }))
    }

    /// Law: once a response is stored under a key, every read of that key
    /// before the expiry instant returns exactly that response, and every
    /// read from the expiry instant on is a miss.
    pub proof fn lemma_round_trip_with_expiry(
        pre: Self,
        post: Self,
        k: Seq<char>,
        response: LlmResponse,
        exp: u64,
        t: u64,
    )
        requires
            Self::spec_put_effect(pre, post, k, response, exp),
        ensures
            post.spec_get(k, t) == if t < exp {
                Some(response)
            } else {
                None::<LlmResponse>
            },
    {
    }

    proof fn lemma_lookup_props(entries: Seq<CacheEntry>, key: Seq<char>)
        ensures
            (Self::spec_lookup(entries, key) is None) <==> (forall|i: int|
                0 <= i < entries.len() ==> entries[i].key@ != key),
            (match Self::spec_lookup(entries, key) {
                Some(e) => e.key@ == key && exists|i: int| 0 <= i < entries.len() && entries[i] == e,
                None => true,
            }),
        decreases entries.len(),
    {
        if entries.len() > 0 {
            let rest = entries.drop_first();
            Self::lemma_lookup_props(rest, key);
            assert(forall|i: int| 0 <= i < rest.len() ==> rest[i] == entries[i + 1]);
            if entries[0].key@ != key {
                match Self::spec_lookup(rest, key) {
                    Some(e) => {
                        let i = choose|i: int| 0 <= i < rest.len() && rest[i] == e;
                        assert(entries[i + 1] == e);
                    },
                    None => {
                        assert forall|i: int|
                            0 <= i < entries.len() implies entries[i].key@ != key by {
                            if i > 0 {
                                assert(rest[i - 1] == entries[i]);
                            }
                        }
                    },
                }
            }
        }
    }

    /// The first match decides the lookup.
    proof fn lemma_lookup_at(entries: Seq<CacheEntry>, key: Seq<char>, i: int)
        requires
            0 <= i < entries.len(),
            entries[i].key@ == key,
            forall|j: int| 0 <= j < i ==> entries[j].key@ != key,
        ensures
            Self::spec_lookup(entries, key) == Some(entries[i]),
        decreases i,
    {
        if i > 0 {
            let rest = entries.drop_first();
            assert(forall|j: int| 0 <= j < rest.len() ==> rest[j] == entries[j + 1]);
            Self::lemma_lookup_at(rest, key, i - 1);
        }
    }

    /// Under unique keys, holding `key` at any position decides the lookup.
    proof fn lemma_lookup_unique(entries: Seq<CacheEntry>, key: Seq<char>, i: int)
        requires
            0 <= i < entries.len(),
            entries[i].key@ == key,
            forall|a: int, b: int|
                0 <= a < b < entries.len() ==> entries[a].key@ != entries[b].key@,
        ensures
            Self::spec_lookup(entries, key) == Some(entries[i]),
    {
        assert forall|j: int| 0 <= j < i implies entries[j].key@ != key by {
            assert(entries[j].key@ != entries[i].key@);
        }
        Self::lemma_lookup_at(entries, key, i);
    }

    pub fn new(max_capacity: u64, ttl_secs: u64) -> (c: SemanticCache)
        ensures
            c.wf(),
            c.entries@.len() == 0,
            c.max_capacity == max_capacity,
            c.ttl_secs == ttl_secs,
    {
        SemanticCache { entries: Vec::new(), max_capacity, ttl_secs }
    }

    /// Look the prompt up at time `now` (seconds): the cached response, or a
    /// miss when nothing valid is stored under the prompt's digest.
    #[verifier::loop_isolation(false)]
    pub fn get(&self, prompt: &str, now: u64) -> (r: Option<LlmResponse>)
        ensures
            r == self.spec_get(digest_of(prompt@), now),
    {
        let key = hash_key(prompt);
        let ghost k = digest_of(prompt@);
        let n = self.entries.len();
        let mut i: usize = 0;
        while i < n
            invariant
                n == self.entries@.len(),
                i <= n,
                key@ == k,
                forall|j: int| 0 <= j < i ==> self.entries@[j].key@ != k,
            decreases n - i,
        {
            if self.entries[i].key == key {
                proof {
                    Self::lemma_lookup_at(self.entries@, k, i as int);
                }
                let e = &self.entries[i];
                if now < e.expires_at {
                    return Some(e.response.clone());
                } else {
                    return None;
                }
            }
            i = i + 1;
        }
        proof {
            Self::lemma_lookup_props(self.entries@, k);
        }
        None
    }

    /// Store the response under the prompt's digest at time `now` (seconds),
    /// with a fresh expiry one TTL ahead. An existing entry for the digest is
    /// overwritten in place; otherwise, at capacity, the oldest entry is
    /// evicted to make room. A zero-capacity cache stores nothing.
    #[verifier::loop_isolation(false)]
    pub fn put(&mut self, prompt: &str, response: LlmResponse, now: u64)
        requires
            old(self).wf(),
            now + old(self).ttl_secs <= u64::MAX,
        ensures
            final(self).wf(),
            final(self).max_capacity == old(self).max_capacity,
            final(self).ttl_secs == old(self).ttl_secs,
            old(self).max_capacity == 0 ==> *final(self) == *old(self),
            old(self).max_capacity > 0 ==> Self::spec_put_effect(
                *old(self),
                *final(self),
                digest_of(prompt@),
                response,
                (now + old(self).ttl_secs) as u64,
            ),
    {
        if self.max_capacity == 0 {
            return ;
        }
        let key = hash_key(prompt);
        let exp = now + self.ttl_secs;
        let ghost k = digest_of(prompt@);
        let ghost pre = self.entries@;
        let n = self.entries.len();
        let mut i: usize = 0;
        while i < n
            invariant
                n == self.entries@.len(),
                i <= n,
                key@ == k,
                *self == *old(self),
                forall|j: int| 0 <= j < i ==> self.entries@[j].key@ != k,
            decreases n - i,
        {
            if self.entries[i].key == key {
                let entry = CacheEntry { key, response, expires_at: exp };
                self.entries.remove(i);
                self.entries.insert(i, entry);
                proof {
                    self.lemma_put_overwrite(pre, k, i as int, entry, *old(self));
                }
                return ;
            }
            i = i + 1;
        }
        let at_capacity = self.entries.len() as u64 >= self.max_capacity;
        if at_capacity {
            self.entries.remove(0);
        }
        let entry = CacheEntry { key, response, expires_at: exp };
        self.entries.push(entry);
        proof {
            self.lemma_put_insert(pre, k, at_capacity, entry, *old(self));
        }
    }

    /// Overwriting the first (and, by uniqueness, only) entry holding `k`
    /// leaves every other entry where it was.
    proof fn lemma_put_overwrite(
        &self,
        pre: Seq<CacheEntry>,
        k: Seq<char>,
        i: int,
        entry: CacheEntry,
        prev: Self,
    )
        requires
            prev.entries@ == pre,
            prev.wf(),
            self.max_capacity == prev.max_capacity,
            self.ttl_secs == prev.ttl_secs,
            0 <= i < pre.len(),
            pre[i].key@ == k,
            forall|j: int| 0 <= j < i ==> pre[j].key@ != k,
            entry.key@ == k,
            self.entries@ == pre.remove(i).insert(i, entry),
        ensures
            self.wf(),
            Self::spec_put_effect(prev, *self, k, entry.response, entry.expires_at),
    {
        let post = self.entries@;
        assert(post =~= pre.update(i, entry));
        assert forall|a: int| 0 <= a < post.len() implies post[a].key@ == pre[a].key@ by {
            if a != i {
                assert(post[a] == pre[a]);
            }
        }
        Self::lemma_lookup_at(post, k, i);
        assert forall|k2: Seq<char>|
            k2 != k implies (match #[trigger] Self::spec_lookup(post, k2) {
            Some(e) => Self::spec_lookup(pre, k2) == Some(e),
            None => true,
        }) by {
            Self::lemma_lookup_props(post, k2);
            match Self::spec_lookup(post, k2) {
                Some(e) => {
                    let j = choose|j: int| 0 <= j < post.len() && post[j] == e;
                    assert(j != i);
                    assert(pre[j] == e);
                    Self::lemma_lookup_unique(pre, k2, j);
                },
                None => {},
            }
        }
    }

    /// Appending a fresh entry for an absent key, after evicting the oldest
    /// entry when the cache is full, keeps keys unique, keeps the count
    /// bounded, and preserves every surviving entry.
    proof fn lemma_put_insert(
        &self,
        pre: Seq<CacheEntry>,
        k: Seq<char>,
        at_capacity: bool,
        entry: CacheEntry,
        prev: Self,
    )
        requires
            prev.entries@ == pre,
            prev.wf(),
            prev.max_capacity > 0,
            self.max_capacity == prev.max_capacity,
            self.ttl_secs == prev.ttl_secs,
            forall|j: int| 0 <= j < pre.len() ==> pre[j].key@ != k,
            entry.key@ == k,
            at_capacity <==> pre.len() >= prev.max_capacity,
            self.entries@ == if at_capacity {
                pre.remove(0).push(entry)
            } else {
                pre.push(entry)
            },
        ensures
            self.wf(),
            Self::spec_put_effect(prev, *self, k, entry.response, entry.expires_at),
    {
        let post = self.entries@;
        let kept = if at_capacity {
            pre.remove(0)
        } else {
            pre
        };
        let ghost shift: int = if at_capacity {
            1
        } else {
            0
        };
        assert(post == kept.push(entry));
        assert forall|a: int| 0 <= a < kept.len() implies kept[a] == pre[a + shift] by {}
        let last = post.len() - 1;
        assert(post[last] == entry);
        assert forall|j: int| 0 <= j < last implies post[j].key@ != k by {
            assert(post[j] == pre[j + shift]);
        }
        Self::lemma_lookup_at(post, k, last);
        assert forall|k2: Seq<char>|
            k2 != k implies (match #[trigger] Self::spec_lookup(post, k2) {
            Some(e) => Self::spec_lookup(pre, k2) == Some(e),
            None => true,
        }) by {
            Self::lemma_lookup_props(post, k2);
            match Self::spec_lookup(post, k2) {
                Some(e) => {
                    let j = choose|j: int| 0 <= j < post.len() && post[j] == e;
                    assert(j != last);
                    assert(pre[j + shift] == e);
                    Self::lemma_lookup_unique(pre, k2, j + shift);
                },
                None => {},
            }
        }
        assert forall|a: int, b: int|
            0 <= a < b < post.len() implies post[a].key@ != post[b].key@ by {
            if b != last {
                assert(post[a] == pre[a + shift]);
                assert(post[b] == pre[b + shift]);
            } else {
                assert(post[a] == pre[a + shift]);
            }
        }
    }
}

} // verus!
