//! Response caching of `GET` requests, keyed by method and path.

use vstd::prelude::*;
use vstd::string::StringExecFns;
use crate::http::Method;
use crate::sharded::{ShardedLruCache, shard_of};
use crate::lru::{EntryView, get_spec, put_spec, remove_spec};
use crate::text::{contains_str, has_sub};

verus! {

/// The cache key of a request: the method's name, `:`, the path.
pub open spec fn cache_key(m: Method, path: Seq<char>) -> Seq<char> {
    m@ + ":"@ + path
}

/// Whether a `Cache-Control` header (`None` when missing or not text) asks to
/// skip the cache: it mentions `no-cache` or `no-store`.
pub open spec fn skips_cache(cc: Option<Seq<char>>) -> bool {
    match cc {
        Some(v) => has_sub(v, "no-cache"@) || has_sub(v, "no-store"@),
        None => false,
    }
}

/// A cache lookup of the `GET` of `path` at time `now` over the shards
/// `shards`: the shards afterwards (the key's shard as `get_spec` leaves it)
/// and the body found, if a live entry is there.
pub open spec fn cached_get(shards: Seq<Seq<EntryView>>, path: Seq<char>, now: u64) -> (Seq<Seq<EntryView>>, Option<Seq<u8>>) {
    let key = cache_key(Method::GET, path);
    let shard = shard_of(key, shards.len());
    let (after, found) = get_spec(shards[shard], key, now);
    (shards.update(shard, after), found)
}

/// What the cache does for a request before it is forwarded.
#[derive(Debug)]
pub enum CacheStep {
    /// Not a `GET`: forwarded untouched (`X-Cache: BYPASS`).
    Bypass,
    /// Answered from the cache with this body (`X-Cache: HIT`).
    Hit(Vec<u8>),
    /// Forwarded; a 200 answer is stored under this key (`X-Cache: MISS`).
    Miss(String),
}

/// The response cache in front of the upstream.
pub struct CacheMiddleware {
    pub cache: ShardedLruCache,
}

impl CacheMiddleware {
    /// A cache middleware over `cache`.
    pub fn new(cache: ShardedLruCache) -> (m: Self)
        ensures
            m.cache == cache,
    {
        CacheMiddleware { cache }
    }

    /// The middleware's name.
    pub fn name(&self) -> (n: &'static str)
        ensures
            n@ == "CacheMiddleware"@,
    {
        proof {
            reveal_strlit("CacheMiddleware");
        }
        "CacheMiddleware"
    }

    /// Its place in the chain.
    pub fn priority(&self) -> (p: i32)
        ensures
            p == 10,
    {
        10
    }

    /// Before forwarding a request with this method, path and
    /// `Cache-Control` header: a `POST`, `PUT` or `DELETE` drops the cached
    /// `GET` of the path, and any method but `GET` bypasses the cache; a
    /// `GET` is answered from the cache unless the header asks to skip it or
    /// nothing is cached (or it has expired), and is otherwise a miss.
    pub fn begin(&mut self, method: &Method, path: &str, cache_control: Option<&str>) -> (s: CacheStep)
        requires
            old(self).cache.wf(),
        ensures
            final(self).cache.wf(),
            final(self).cache.capacity_per_shard() == old(self).cache.capacity_per_shard(),
            final(self).cache.max_bytes_per_shard() == old(self).cache.max_bytes_per_shard(),
            !(method is GET) ==> {
                &&& s is Bypass
                &&& (method is POST || method is PUT || method is DELETE) ==> final(self).cache@
                    == old(self).cache@.update(
                    shard_of(cache_key(Method::GET, path@), old(self).cache@.len()),
                    remove_spec(
                        old(self).cache@[shard_of(cache_key(Method::GET, path@), old(self).cache@.len())],
                        cache_key(Method::GET, path@),
                    ),
                )
                &&& !(method is POST || method is PUT || method is DELETE) ==> final(self).cache@
                    == old(self).cache@
            },
            method is GET && skips_cache(
                match cache_control {
                    Some(v) => Some(v@),
                    None => None,
                },
            ) ==> (final(self).cache@ == old(self).cache@ && (s matches CacheStep::Miss(k) && k@
                == cache_key(Method::GET, path@))),
            method is GET && !skips_cache(
                match cache_control {
                    Some(v) => Some(v@),
                    None => None,
                },
            ) ==> exists|now: u64|
                {
                    &&& final(self).cache@ == (#[trigger] cached_get(old(self).cache@, path@, now)).0
                    &&& match s {
                        CacheStep::Hit(body) => cached_get(old(self).cache@, path@, now).1 == Some(body@),
                        CacheStep::Miss(k) => k@ == cache_key(Method::GET, path@) && cached_get(
                            old(self).cache@,
                            path@,
                            now,
                        ).1 is None,
                        CacheStep::Bypass => false,
                    }
                },
    {
        proof {
            reveal_strlit("GET:");
            reveal_strlit("GET");
            reveal_strlit(":");
            reveal_strlit("no-cache");
            reveal_strlit("no-store");
        }
        let key = String::from_str("GET:").concat(path);
        proof {
            assert(key@ =~= cache_key(Method::GET, path@));
        }
        match method {
            Method::GET => {},
            Method::POST | Method::PUT | Method::DELETE => {
                self.cache.remove(key.as_str());
                return CacheStep::Bypass;
            },
            _ => {
                return CacheStep::Bypass;
            },
        }
        let skip = match cache_control {
            Some(v) => contains_str(v, "no-cache") || contains_str(v, "no-store"),
            None => false,
        };
        if !skip {
            let ghost before = self.cache@;
            let r = self.cache.get(key.as_str());
            proof {
                let now = choose|now: u64|
                    {
                        &&& self.cache@ == before.update(
                            shard_of(key@, before.len()),
                            get_spec(before[shard_of(key@, before.len())], key@, now).0,
                        )
                        &&& (r matches Some(v) ==> get_spec(before[shard_of(key@, before.len())], key@, now).1
                            == Some(v@))
                        &&& (r is None ==> get_spec(before[shard_of(key@, before.len())], key@, now).1 is None)
                    };
                assert(self.cache@ == cached_get(before, path@, now).0);
            }
            match r {
                Some(body) => {
                    return CacheStep::Hit(body);
                },
                None => {},
            }
        }
        CacheStep::Miss(key)
    }

    /// After the upstream answered a miss under `key` with `status`: a 200
    /// answer's body is stored, with no expiry.
    pub fn finish(&mut self, key: String, status: u16, body: Vec<u8>)
        requires
            old(self).cache.wf(),
            status == 200 ==> old(self).cache.capacity_per_shard() > 0,
            status == 200 ==> crate::lru::bytes_of(old(self).cache@[shard_of(key@, old(self).cache@.len())])
                + body@.len() <= usize::MAX,
        ensures
            final(self).cache.wf(),
            status == 200 ==> final(self).cache@ == old(self).cache@.update(
                shard_of(key@, old(self).cache@.len()),
                put_spec(
                    old(self).cache@[shard_of(key@, old(self).cache@.len())],
                    old(self).cache.capacity_per_shard(),
                    old(self).cache.max_bytes_per_shard(),
                    key@,
                    body@,
                    None,
                ).0,
            ),
            status != 200 ==> final(self).cache@ == old(self).cache@,
    {
        if status == 200 {
            self.cache.put(key, body, None);
        }
    }
}

} // verus!
