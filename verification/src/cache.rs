//! The cache: a store of bytes under text keys, with single keys and whole
//! prefixes of keys to forget.

use vstd::prelude::*;

verus! {

/// Whether `key` starts with `prefix`.
pub open spec fn has_prefix(key: Seq<char>, prefix: Seq<char>) -> bool {
    prefix.len() <= key.len() && key.take(prefix.len() as int) == prefix
}

/// Whether `a` holds nothing that `b` does not hold.
pub open spec fn within(a: Map<Seq<char>, Seq<u8>>, b: Map<Seq<char>, Seq<u8>>) -> bool {
    forall|k: Seq<char>| #[trigger] a.contains_key(k) ==> b.contains_key(k) && a[k] == b[k]
}

/// `m` without the keys that start with `prefix`.
pub open spec fn without_prefix(m: Map<Seq<char>, Seq<u8>>, prefix: Seq<char>) -> Map<
    Seq<char>,
    Seq<u8>,
> {
    Map::new(|k: Seq<char>| m.contains_key(k) && !has_prefix(k, prefix), |k: Seq<char>| m[k])
}

/// Whether `m` holds no key that starts with `prefix`.
pub open spec fn holds_none_under(m: Map<Seq<char>, Seq<u8>>, prefix: Seq<char>) -> bool {
    forall|k: Seq<char>| #[trigger] m.contains_key(k) ==> !has_prefix(k, prefix)
}

/// Forgetting a key that is not there changes nothing, and forgetting a
/// prefix twice is forgetting it once.
pub proof fn lemma_forgetting_is_idempotent(
    m: Map<Seq<char>, Seq<u8>>,
    key: Seq<char>,
    prefix: Seq<char>,
)
    ensures
        !m.contains_key(key) ==> m.remove(key) == m,
        m.remove(key).remove(key) == m.remove(key),
        without_prefix(without_prefix(m, prefix), prefix) == without_prefix(m, prefix),
        holds_none_under(m, prefix) ==> without_prefix(m, prefix) == m,
        holds_none_under(without_prefix(m, prefix), prefix),
{
    if !m.contains_key(key) {
        assert(m.remove(key) =~= m);
    }
    assert(m.remove(key).remove(key) =~= m.remove(key));
    assert(without_prefix(without_prefix(m, prefix), prefix) =~= without_prefix(m, prefix));
    if holds_none_under(m, prefix) {
        assert(without_prefix(m, prefix) =~= m);
    }
}

/// A cache. `entries` is what the cache may still serve: a read serves
/// nothing else, and a cache forgets exactly what it is asked to forget.
/// One that is not `exact` may fail to keep what it is given, or to serve
/// what it keeps.
pub trait Cache {
    /// What the cache may serve.
    spec fn entries(&self) -> Map<Seq<char>, Seq<u8>>;

    /// Whether the cache keeps all that it is given and serves all that it
    /// keeps.
    spec fn exact(&self) -> bool;

    /// The bytes under `key`, if the cache serves them.
    fn get(&self, key: &str) -> (out: Option<Vec<u8>>)
        ensures
            out matches Some(bytes) ==> self.entries().contains_key(key@) && self.entries()[key@]
                == bytes@,
            self.exact() && self.entries().contains_key(key@) ==> out is Some,
    ;

    /// Puts `value` under `key`, to be served for `ttl` seconds, or
    /// without an end where `ttl` is `None`.
    fn set(&mut self, key: &str, value: &[u8], ttl: Option<u64>)
        ensures
            within(final(self).entries(), old(self).entries().insert(key@, value@)),
            final(self).exact() == old(self).exact(),
            old(self).exact() && ttl != Some(0u64) ==> final(self).entries()
                == old(self).entries().insert(key@, value@),
    ;

    /// Forgets `key`, and nothing else. Where the cache does not hold
    /// `key`, it stays as it is.
    fn del(&mut self, key: &str)
        ensures
            final(self).entries() == old(self).entries().remove(key@),
            !final(self).entries().contains_key(key@),
            !old(self).entries().contains_key(key@) ==> final(self).entries() == old(
                self,
            ).entries(),
            final(self).exact() == old(self).exact(),
    ;

    /// Forgets every key that starts with `prefix`, and nothing else.
    /// Where the cache holds no such key, it stays as it is; so to forget
    /// a prefix again changes nothing.
    fn del_prefix(&mut self, prefix: &str)
        ensures
            final(self).entries() == without_prefix(old(self).entries(), prefix@),
            holds_none_under(old(self).entries(), prefix@) ==> final(self).entries() == old(
                self,
            ).entries(),
            holds_none_under(final(self).entries(), prefix@),
            final(self).exact() == old(self).exact(),
    ;
}

/// The cache that keeps nothing: every read misses.
pub struct NoopCache;

impl Cache for NoopCache {
    open spec fn entries(&self) -> Map<Seq<char>, Seq<u8>> {
        Map::empty()
    }

    open spec fn exact(&self) -> bool {
        false
    }

    fn get(&self, key: &str) -> (out: Option<Vec<u8>>)
        ensures
            out is None,
    {
        None
    }

    fn set(&mut self, key: &str, value: &[u8], ttl: Option<u64>) {
    }

    fn del(&mut self, key: &str) {
    }

    fn del_prefix(&mut self, prefix: &str) {
    }
}

} // verus!
