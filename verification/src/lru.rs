//! One shard of the response cache: a least-recently-used map from keys to
//! byte strings, with a fixed pool of entries kept as a doubly linked list
//! inside a vector, an optional byte budget and optional expiry times.

use vstd::prelude::*;
use vstd::hash_map::StringHashMap;
use crate::clock::now_millis;

verus! {

broadcast use vstd::seq_lib::group_seq_properties;

/// The null link.
const NULL: usize = usize::MAX;

/// What a cache entry holds, as a value: its key, its bytes and when it
/// expires (milliseconds on the wall clock), if ever.
pub type EntryView = (Seq<char>, Seq<u8>, Option<u64>);

/// A slot of the pool.  A slot is either in the recency list or in the free
/// list; `prev` and `next` link it into the one it is in.
#[derive(Debug)]
struct Node {
    key: String,
    value: Vec<u8>,
    expires_at: Option<u64>,
    prev: usize,
    next: usize,
}

/// One LRU shard.
pub struct LruShard {
    map: StringHashMap<usize>,
    nodes: Vec<Node>,
    head: usize,
    tail: usize,
    free_list: usize,
    current_bytes: usize,
    max_bytes: usize,
    /// The slots of the recency list, most recently used first.
    order: Ghost<Seq<usize>>,
    /// The slots of the free list, in list order.
    free: Ghost<Seq<usize>>,
}

/// The total size of the values of `es`.
pub open spec fn bytes_of(es: Seq<EntryView>) -> nat
    decreases es.len(),
{
    if es.len() == 0 {
        0
    } else {
        bytes_of(es.drop_last()) + es.last().1.len()
    }
}

/// Whether some entry of `es` has key `k`.
pub open spec fn has_key(es: Seq<EntryView>, k: Seq<char>) -> bool {
    exists|i: int| 0 <= i < es.len() && (#[trigger] es[i]).0 == k
}

/// The position of the entry with key `k` in `es` (meaningful when
/// `has_key(es, k)`).
pub open spec fn key_pos(es: Seq<EntryView>, k: Seq<char>) -> int {
    choose|i: int| 0 <= i < es.len() && (#[trigger] es[i]).0 == k
}

/// No two entries of `es` have the same key.
pub open spec fn distinct_keys(es: Seq<EntryView>) -> bool {
    forall|i: int, j: int| 0 <= i < es.len() && 0 <= j < es.len() && i != j ==> (#[trigger] es[i]).0
        != (#[trigger] es[j]).0
}

/// Whether an entry with expiry `exp` has expired at time `now`.
pub open spec fn expired(exp: Option<u64>, now: u64) -> bool {
    exp matches Some(e) && now > e
}

/// The entries left once the least recently used ones are dropped, one by
/// one, until a value of `len` bytes fits within `max` bytes, or none is left.
pub open spec fn evict_until_fits(es: Seq<EntryView>, len: nat, max: nat) -> Seq<EntryView>
    decreases es.len(),
{
    if es.len() > 0 && bytes_of(es) + len > max {
        evict_until_fits(es.drop_last(), len, max)
    } else {
        es
    }
}

/// The entries after a lookup of `k` at time `now`, and what the lookup gives
/// back: a live entry moves to the front and its value is given back; an
/// expired one is dropped and nothing is given back.
pub open spec fn get_spec(es: Seq<EntryView>, k: Seq<char>, now: u64) -> (
    Seq<EntryView>,
    Option<Seq<u8>>,
) {
    if has_key(es, k) {
        let i = key_pos(es, k);
        if expired(es[i].2, now) {
            (es.remove(i), None)
        } else {
            (seq![es[i]] + es.remove(i), Some(es[i].1))
        }
    } else {
        (es, None)
    }
}

/// The entries after a store of `(k, v, exp)` in a shard of `cap` slots and a
/// budget of `max` bytes (0: no budget), and the number of entries the store
/// reports as evicted.  With a budget, the least recently used entries are
/// dropped first until the value fits.  A key still present is then updated
/// and moved to the front, and the store reports no eviction; otherwise the
/// least recently used entry makes room when every slot is taken, and the new
/// entry goes to the front.
pub open spec fn put_spec(
    es: Seq<EntryView>,
    cap: nat,
    max: nat,
    k: Seq<char>,
    v: Seq<u8>,
    exp: Option<u64>,
) -> (Seq<EntryView>, nat) {
    let es1 = if max > 0 {
        evict_until_fits(es, v.len(), max)
    } else {
        es
    };
    let evicted = (es.len() - es1.len()) as nat;
    if has_key(es1, k) {
        (seq![(k, v, exp)] + es1.remove(key_pos(es1, k)), 0)
    } else if es1.len() >= cap {
        (seq![(k, v, exp)] + es1.drop_last(), evicted + 1)
    } else {
        (seq![(k, v, exp)] + es1, evicted)
    }
}

/// The entries after the entry with key `k`, if any, is removed.
pub open spec fn remove_spec(es: Seq<EntryView>, k: Seq<char>) -> Seq<EntryView> {
    if has_key(es, k) {
        es.remove(key_pos(es, k))
    } else {
        es
    }
}

/// A copy of a byte string.
fn copy_bytes(v: &Vec<u8>) -> (c: Vec<u8>)
    ensures
        c@ == v@,
{
    let mut c: Vec<u8> = Vec::with_capacity(v.len());
    let mut i: usize = 0;
    while i < v.len()
        invariant
            i <= v.len(),
            c@ == v@.take(i as int),
        decreases v.len() - i,
    {
        c.push(v[i]);
        i = i + 1;
        assert(c@ =~= v@.take(i as int));
    }
    assert(v@.take(v.len() as int) =~= v@);
    c
}

spec fn entry_of(n: Node) -> EntryView {
    (n.key@, n.value@, n.expires_at)
}

/// The links of `nodes` spell out the recency list `order` from `head` to
/// `tail` and the free list `free` from `free_list`.
spec fn links_ok(
    nodes: Seq<Node>,
    head: usize,
    tail: usize,
    free_list: usize,
    order: Seq<usize>,
    free: Seq<usize>,
) -> bool {
    &&& nodes.len() < NULL
    &&& forall|i: int| 0 <= i < order.len() ==> #[trigger] order[i] < nodes.len()
    &&& forall|j: int| 0 <= j < free.len() ==> #[trigger] free[j] < nodes.len()
    &&& order.no_duplicates()
    &&& free.no_duplicates()
    &&& forall|i: int, j: int|
        0 <= i < order.len() && 0 <= j < free.len() ==> #[trigger] order[i] != #[trigger] free[j]
    &&& head == (if order.len() == 0 {
        NULL
    } else {
        order[0]
    })
    &&& tail == (if order.len() == 0 {
        NULL
    } else {
        order.last()
    })
    &&& forall|i: int|
        0 <= i < order.len() ==> #[trigger] nodes[order[i] as int].prev == (if i == 0 {
            NULL
        } else {
            order[i - 1]
        })
    &&& forall|i: int|
        0 <= i < order.len() ==> #[trigger] nodes[order[i] as int].next == (if i == order.len()
            - 1 {
            NULL
        } else {
            order[i + 1]
        })
    &&& (nodes.len() > 0 ==> free_list == (if free.len() == 0 {
        NULL
    } else {
        free[0]
    }))
    &&& forall|j: int|
        0 <= j < free.len() ==> #[trigger] nodes[free[j] as int].next == (if j == free.len() - 1 {
            NULL
        } else {
            free[j + 1]
        })
}

spec fn entries_of(nodes: Seq<Node>, order: Seq<usize>) -> Seq<EntryView> {
    Seq::new(order.len(), |i: int| entry_of(nodes[order[i] as int]))
}

impl View for LruShard {
    /// The entries, most recently used first.
    type V = Seq<EntryView>;

    closed spec fn view(&self) -> Seq<EntryView> {
        entries_of(self.nodes@, self.order@)
    }
}

/// The total size of `es` minus the entry at `i` is the total less its size.
proof fn lemma_bytes_remove(es: Seq<EntryView>, i: int)
    requires
        0 <= i < es.len(),
    ensures
        bytes_of(es.remove(i)) + es[i].1.len() == bytes_of(es),
    decreases es.len(),
{
    if i == es.len() - 1 {
        assert(es.remove(i) =~= es.drop_last());
    } else {
        lemma_bytes_remove(es.drop_last(), i);
        assert(es.remove(i).drop_last() =~= es.drop_last().remove(i));
        assert(es.remove(i).last() == es.last());
    }
}

/// The total size of `e` followed by `es`.
proof fn lemma_bytes_prepend(e: EntryView, es: Seq<EntryView>)
    ensures
        bytes_of(seq![e] + es) == e.1.len() + bytes_of(es),
    decreases es.len(),
{
    if es.len() > 0 {
        lemma_bytes_prepend(e, es.drop_last());
        assert((seq![e] + es).drop_last() =~= seq![e] + es.drop_last());
    } else {
        assert((seq![e] + es).drop_last() =~= Seq::<EntryView>::empty());
    }
}

/// A prefix of the entries is no bigger than all of them.
proof fn lemma_bytes_prefix(es: Seq<EntryView>, n: int)
    requires
        0 <= n <= es.len(),
    ensures
        bytes_of(es.take(n)) <= bytes_of(es),
    decreases es.len(),
{
    if n < es.len() {
        lemma_bytes_prefix(es.drop_last(), n);
        assert(es.drop_last().take(n) =~= es.take(n));
    } else {
        assert(es.take(n) =~= es);
    }
}

/// Dropping the least recently used entries leaves a prefix of the entries.
proof fn lemma_evict_prefix(es: Seq<EntryView>, len: nat, max: nat)
    ensures
        evict_until_fits(es, len, max).len() <= es.len(),
        evict_until_fits(es, len, max) =~= es.take(evict_until_fits(es, len, max).len() as int),
        evict_until_fits(es, len, max).len() == 0 || bytes_of(evict_until_fits(es, len, max)) + len
            <= max,
    decreases es.len(),
{
    if es.len() > 0 && bytes_of(es) + len > max {
        lemma_evict_prefix(es.drop_last(), len, max);
        let r = evict_until_fits(es.drop_last(), len, max);
        assert(es.drop_last().take(r.len() as int) =~= es.take(r.len() as int));
    }
}

/// A key found in a list of entries with distinct keys is found at one place.
proof fn lemma_key_pos(es: Seq<EntryView>, i: int)
    requires
        distinct_keys(es),
        0 <= i < es.len(),
    ensures
        has_key(es, es[i].0),
        key_pos(es, es[i].0) == i,
{
}

impl LruShard {
    /// The number of slots.
    pub closed spec fn capacity(&self) -> nat {
        self.nodes@.len()
    }

    /// The byte budget (0: none).
    pub closed spec fn max_bytes_spec(&self) -> nat {
        self.max_bytes as nat
    }

    /// The shard is well formed: the links spell out the two lists, which
    /// share no slot and together account for every slot; the map sends each
    /// key of the recency list to its slot; the byte count is the total size.
    pub closed spec fn wf(&self) -> bool {
        &&& links_ok(
            self.nodes@,
            self.head,
            self.tail,
            self.free_list,
            self.order@,
            self.free@,
        )
        &&& self.order@.len() + self.free@.len() == self.nodes@.len()
        &&& forall|k: Seq<char>| #[trigger]
            self.map@.contains_key(k) <==> has_key(self@, k)
        &&& forall|i: int|
            0 <= i < self.order@.len() ==> self.map@[(#[trigger] self.nodes@[self.order@[i] as int]).key@]
                == self.order@[i]
        &&& self.current_bytes == bytes_of(self@)
    }

    proof fn lemma_wf_facts(&self)
        requires
            self.wf(),
        ensures
            distinct_keys(self@),
            self@.len() <= self.capacity(),
            self@.len() == self.order@.len(),
            forall|k: Seq<char>|
                has_key(self@, k) ==> self.map@.contains_key(k) && self.order@[key_pos(self@, k)]
                    == self.map@[k] && 0 <= key_pos(self@, k) < self@.len(),
    {
        assert forall|i: int, j: int|
            0 <= i < self@.len() && 0 <= j < self@.len() && i != j implies (#[trigger] self@[i]).0
            != (#[trigger] self@[j]).0 by {
            if self@[i].0 == self@[j].0 {
                assert(self.map@[self.nodes@[self.order@[i] as int].key@] == self.order@[i]);
                assert(self.map@[self.nodes@[self.order@[j] as int].key@] == self.order@[j]);
            }
        }
        assert forall|k: Seq<char>| has_key(self@, k) implies self.map@.contains_key(k)
            && self.order@[key_pos(self@, k)] == self.map@[k] && 0 <= key_pos(self@, k) < self@.len() by {
            let p = key_pos(self@, k);
            assert(self.map@[self.nodes@[self.order@[p] as int].key@] == self.order@[p]);
        }
    }

    /// The total size of the stored values.
    pub fn stored_bytes(&self) -> (n: usize)
        requires
            self.wf(),
        ensures
            n == bytes_of(self@),
    {
        self.current_bytes
    }

    /// The number of slots.
    pub fn slots(&self) -> (n: usize)
        ensures
            n == self.capacity(),
    {
        self.nodes.len()
    }

    /// A well-formed shard holds each key once.
    pub proof fn lemma_wf_distinct(&self)
        requires
            self.wf(),
        ensures
            distinct_keys(self@),
    {
        self.lemma_wf_facts();
    }

    /// A shard of `capacity` slots and a budget of `max_bytes` bytes (0: none).
    /// Every slot starts on the free list.
    pub fn new(capacity: usize, max_bytes: usize) -> (s: Self)
        requires
            capacity < usize::MAX,
        ensures
            s.wf(),
            s@ == Seq::<EntryView>::empty(),
            s.capacity() == capacity,
            s.max_bytes_spec() == max_bytes,
    {
        let mut nodes: Vec<Node> = Vec::with_capacity(capacity);
        let mut i: usize = 0;
        while i < capacity
            invariant
                i <= capacity < usize::MAX,
                nodes@.len() == i,
                forall|j: int|
                    0 <= j < i ==> (#[trigger] nodes@[j]).next == (if j + 1 < capacity {
                        (j + 1) as usize
                    } else {
                        NULL
                    }),
            decreases capacity - i,
        {
            nodes.push(
                Node {
                    key: String::new(),
                    value: Vec::new(),
                    expires_at: None,
                    prev: NULL,
                    next: if i + 1 < capacity {
                        i + 1
                    } else {
                        NULL
                    },
                },
            );
            i = i + 1;
        }
        let ghost free = Seq::new(capacity as nat, |j: int| j as usize);
        let s = LruShard {
            map: StringHashMap::with_capacity(capacity),
            nodes,
            head: NULL,
            tail: NULL,
            free_list: 0,
            current_bytes: 0,
            max_bytes,
            order: Ghost(Seq::empty()),
            free: Ghost(free),
        };
        proof {
            assert(s@ =~= Seq::<EntryView>::empty());
            assert forall|j: int| 0 <= j < free.len() implies #[trigger] s.nodes@[free[j] as int].next
                == (if j == free.len() - 1 {
                NULL
            } else {
                free[j + 1]
            }) by {
                assert(free[j] == j);
            }
        }
        s
    }

    /// Unlinks the slot at place `p` of the recency list.
    fn remove_node(&mut self, idx: usize, Ghost(p): Ghost<int>)
        requires
            links_ok(
                old(self).nodes@,
                old(self).head,
                old(self).tail,
                old(self).free_list,
                old(self).order@,
                old(self).free@,
            ),
            0 <= p < old(self).order@.len(),
            old(self).order@[p] == idx,
        ensures
            links_ok(
                final(self).nodes@,
                final(self).head,
                final(self).tail,
                final(self).free_list,
                old(self).order@.remove(p),
                old(self).free@,
            ),
            final(self).nodes@.len() == old(self).nodes@.len(),
            forall|j: int|
                0 <= j < old(self).nodes@.len() ==> entry_of(#[trigger] final(self).nodes@[j])
                    == entry_of(old(self).nodes@[j]),
            final(self).nodes@[idx as int] == old(self).nodes@[idx as int],
            final(self).map == old(self).map,
            final(self).order == old(self).order,
            final(self).free == old(self).free,
            final(self).free_list == old(self).free_list,
            final(self).current_bytes == old(self).current_bytes,
            final(self).max_bytes == old(self).max_bytes,
    {
        let ghost order = self.order@;
        let ghost free = self.free@;
        let prev = self.nodes[idx].prev;
        let next = self.nodes[idx].next;
        proof {
            if p > 0 {
                assert(order[p - 1] != order[p]);
            }
            if p < order.len() - 1 {
                assert(order[p + 1] != order[p]);
            }
        }
        if prev != NULL {
            self.nodes[prev].next = next;
        } else {
            self.head = next;
        }
        if next != NULL {
            self.nodes[next].prev = prev;
        } else {
            self.tail = prev;
        }
        proof {
            let o2 = order.remove(p);
            let nodes = self.nodes@;
            assert forall|i: int| 0 <= i < o2.len() implies #[trigger] nodes[o2[i] as int].prev == (
            if i == 0 {
                NULL
            } else {
                o2[i - 1]
            }) by {
                if i < p {
                    assert(o2[i] == order[i]);
                    if i > 0 {
                        assert(o2[i - 1] == order[i - 1]);
                    }
                    if p < order.len() - 1 {
                        assert(order[i] != order[p + 1]);
                    }
                } else {
                    assert(o2[i] == order[i + 1]);
                    if i > p {
                        assert(o2[i - 1] == order[i]);
                    } else if i > 0 {
                        assert(o2[i - 1] == order[i - 1]);
                    }
                    if i == p {
                    } else {
                        assert(order[i + 1] != order[p + 1]);
                    }
                }
            }
            assert forall|i: int| 0 <= i < o2.len() implies #[trigger] nodes[o2[i] as int].next == (
            if i == o2.len() - 1 {
                NULL
            } else {
                o2[i + 1]
            }) by {
                if i < p {
                    assert(o2[i] == order[i]);
                    if i + 1 < p {
                        assert(o2[i + 1] == order[i + 1]);
                    }
                    if i + 1 == p && p < order.len() - 1 {
                        assert(o2[i + 1] == order[p + 1]);
                    }
                    if p > 0 {
                        if i != p - 1 {
                            assert(order[i] != order[p - 1]);
                        }
                    }
                } else {
                    assert(o2[i] == order[i + 1]);
                    if i + 1 < o2.len() {
                        assert(o2[i + 1] == order[i + 2]);
                    }
                    if p > 0 {
                        assert(order[i + 1] != order[p - 1]);
                    }
                }
            }
            assert forall|j: int| 0 <= j < free.len() implies #[trigger] nodes[free[j] as int].next
                == (if j == free.len() - 1 {
                NULL
            } else {
                free[j + 1]
            }) by {
                if p > 0 {
                    assert(order[p - 1] != free[j]);
                }
                if p < order.len() - 1 {
                    assert(order[p + 1] != free[j]);
                }
            }
            assert forall|i: int, j: int|
                0 <= i < o2.len() && 0 <= j < free.len() implies #[trigger] o2[i] != #[trigger] free[j] by {
                if i < p {
                    assert(o2[i] == order[i]);
                } else {
                    assert(o2[i] == order[i + 1]);
                }
            }
            assert forall|i: int| 0 <= i < o2.len() implies #[trigger] o2[i] < nodes.len() by {
                if i < p {
                    assert(o2[i] == order[i]);
                } else {
                    assert(o2[i] == order[i + 1]);
                }
            }
            assert forall|j: int| 0 <= j < nodes.len() implies entry_of(#[trigger] nodes[j])
                == entry_of(old(self).nodes@[j]) by {}
            if p > 0 {
                assert(order[p - 1] != idx);
            }
            if p < order.len() - 1 {
                assert(order[p + 1] != idx);
            }
        }
    }

    /// Links slot `idx`, which is in neither list, at the front of the recency
    /// list.
    fn push_front(&mut self, idx: usize)
        requires
            links_ok(
                old(self).nodes@,
                old(self).head,
                old(self).tail,
                old(self).free_list,
                old(self).order@,
                old(self).free@,
            ),
            idx < old(self).nodes@.len(),
            !old(self).order@.contains(idx),
            !old(self).free@.contains(idx),
        ensures
            links_ok(
                final(self).nodes@,
                final(self).head,
                final(self).tail,
                final(self).free_list,
                seq![idx] + old(self).order@,
                old(self).free@,
            ),
            final(self).nodes@.len() == old(self).nodes@.len(),
            forall|j: int|
                0 <= j < old(self).nodes@.len() ==> entry_of(#[trigger] final(self).nodes@[j])
                    == entry_of(old(self).nodes@[j]),
            final(self).map == old(self).map,
            final(self).order == old(self).order,
            final(self).free == old(self).free,
            final(self).free_list == old(self).free_list,
            final(self).current_bytes == old(self).current_bytes,
            final(self).max_bytes == old(self).max_bytes,
    {
        let ghost order = self.order@;
        let ghost free = self.free@;
        self.nodes[idx].prev = NULL;
        let head = self.head;
        self.nodes[idx].next = head;
        if head != NULL {
            self.nodes[head].prev = idx;
        }
        self.head = idx;
        if self.tail == NULL {
            self.tail = idx;
        }
        proof {
            let o2 = seq![idx] + order;
            let nodes = self.nodes@;
            assert forall|i: int| 0 <= i < order.len() implies order[i] != idx by {
                assert(order.contains(order[i]));
            }
            assert forall|j: int| 0 <= j < free.len() implies free[j] != idx by {
                assert(free.contains(free[j]));
            }
            assert forall|i: int| 0 <= i < o2.len() implies #[trigger] nodes[o2[i] as int].prev == (
            if i == 0 {
                NULL
            } else {
                o2[i - 1]
            }) by {
                if i > 0 {
                    assert(o2[i] == order[i - 1]);
                    if i > 1 {
                        assert(order[i - 1] != order[0]);
                    }
                }
            }
            assert forall|i: int| 0 <= i < o2.len() implies #[trigger] nodes[o2[i] as int].next == (
            if i == o2.len() - 1 {
                NULL
            } else {
                o2[i + 1]
            }) by {
                if i > 0 {
                    assert(o2[i] == order[i - 1]);
                }
            }
            assert forall|j: int| 0 <= j < free.len() implies #[trigger] nodes[free[j] as int].next
                == (if j == free.len() - 1 {
                NULL
            } else {
                free[j + 1]
            }) by {
                if order.len() > 0 {
                    assert(order[0] != free[j]);
                }
            }
            assert(o2.no_duplicates()) by {
                assert forall|a: int, b: int| 0 <= a < o2.len() && 0 <= b < o2.len() && a != b implies o2[a]
                    != o2[b] by {
                    if a > 0 && b > 0 {
                        assert(o2[a] == order[a - 1] && o2[b] == order[b - 1]);
                    }
                    if a > 0 {
                        assert(o2[a] == order[a - 1]);
                    }
                    if b > 0 {
                        assert(o2[b] == order[b - 1]);
                    }
                }
            }
            assert forall|i: int, j: int|
                0 <= i < o2.len() && 0 <= j < free.len() implies #[trigger] o2[i] != #[trigger] free[j] by {
                if i > 0 {
                    assert(o2[i] == order[i - 1]);
                }
            }
            assert forall|i: int| 0 <= i < o2.len() implies #[trigger] o2[i] < nodes.len() by {
                if i > 0 {
                    assert(o2[i] == order[i - 1]);
                }
            }
            if order.len() > 0 {
                assert(o2.last() == order.last());
            }
        }
    }

    /// Takes the entry in slot `idx`, at place `p` of the recency list, out of
    /// the shard and puts the slot back on the free list.  Gives back the size
    /// of the value it held.
    fn unlink_entry(&mut self, idx: usize, Ghost(p): Ghost<int>) -> (freed: usize)
        requires
            old(self).wf(),
            0 <= p < old(self).order@.len(),
            old(self).order@[p] == idx,
        ensures
            final(self).wf(),
            final(self)@ == old(self)@.remove(p),
            freed == old(self)@[p].1.len(),
            final(self).capacity() == old(self).capacity(),
            final(self).max_bytes_spec() == old(self).max_bytes_spec(),
    {
        let ghost order = self.order@;
        let ghost free = self.free@;
        let ghost es = self@;
        proof {
            self.lemma_wf_facts();
            lemma_bytes_remove(es, p);
        }
        self.remove_node(idx, Ghost(p));
        let bytes_freed = self.nodes[idx].value.len();
        self.map.remove(self.nodes[idx].key.as_str());
        self.current_bytes = self.current_bytes - bytes_freed;
        self.nodes[idx].value = Vec::new();
        self.nodes[idx].next = self.free_list;
        self.free_list = idx;
        self.order = Ghost(order.remove(p));
        self.free = Ghost(seq![idx] + free);
        proof {
            let o2 = order.remove(p);
            let f2 = seq![idx] + free;
            let nodes = self.nodes@;
            assert forall|i: int| 0 <= i < o2.len() implies o2[i] != idx by {
                if i < p {
                    assert(o2[i] == order[i]);
                } else {
                    assert(o2[i] == order[i + 1]);
                }
            }
            assert forall|j: int| 0 <= j < free.len() implies free[j] != idx by {
                assert(order[p] != free[j]);
            }
            assert(self@ =~= es.remove(p)) by {
                assert forall|i: int| 0 <= i < o2.len() implies #[trigger] self@[i] == es.remove(p)[i] by {
                    if i < p {
                        assert(o2[i] == order[i]);
                    } else {
                        assert(o2[i] == order[i + 1]);
                    }
                }
            }
            assert forall|j: int| 0 <= j < f2.len() implies #[trigger] nodes[f2[j] as int].next == (if j
                == f2.len() - 1 {
                NULL
            } else {
                f2[j + 1]
            }) by {
                if j > 0 {
                    assert(f2[j] == free[j - 1]);
                }
            }
            assert forall|i: int| 0 <= i < o2.len() implies #[trigger] nodes[o2[i] as int].prev == (if i
                == 0 {
                NULL
            } else {
                o2[i - 1]
            }) by {}
            assert forall|i: int| 0 <= i < o2.len() implies #[trigger] nodes[o2[i] as int].next == (if i
                == o2.len() - 1 {
                NULL
            } else {
                o2[i + 1]
            }) by {}
            assert(f2.no_duplicates()) by {
                assert forall|a: int, b: int| 0 <= a < f2.len() && 0 <= b < f2.len() && a != b implies f2[a]
                    != f2[b] by {
                    if a > 0 {
                        assert(f2[a] == free[a - 1]);
                    }
                    if b > 0 {
                        assert(f2[b] == free[b - 1]);
                    }
                }
            }
            assert forall|i: int, j: int|
                0 <= i < o2.len() && 0 <= j < f2.len() implies #[trigger] o2[i] != #[trigger] f2[j] by {
                if j > 0 {
                    assert(f2[j] == free[j - 1]);
                    if i < p {
                        assert(o2[i] == order[i]);
                    } else {
                        assert(o2[i] == order[i + 1]);
                    }
                }
            }
            assert forall|j: int| 0 <= j < f2.len() implies #[trigger] f2[j] < nodes.len() by {
                if j > 0 {
                    assert(f2[j] == free[j - 1]);
                }
            }
            let k = es[p].0;
            assert forall|q: Seq<char>| #[trigger] self.map@.contains_key(q) <==> has_key(self@, q) by {
                if has_key(self@, q) {
                    let w = choose|w: int| 0 <= w < self@.len() && (#[trigger] self@[w]).0 == q;
                    if w < p {
                        assert(es[w].0 == q);
                    } else {
                        assert(es[w + 1].0 == q);
                    }
                }
                if self.map@.contains_key(q) {
                    assert(has_key(es, q));
                    let w = key_pos(es, q);
                    assert(w != p);
                    if w < p {
                        assert(self@[w].0 == q);
                    } else {
                        assert(self@[w - 1].0 == q);
                    }
                }
            }
            assert forall|i: int| 0 <= i < o2.len() implies self.map@[(#[trigger] nodes[o2[i] as int]).key@]
                == o2[i] by {
                if i < p {
                    assert(o2[i] == order[i]);
                    assert(es[i].0 != k);
                } else {
                    assert(o2[i] == order[i + 1]);
                    assert(es[i + 1].0 != k);
                }
            }
        }
        bytes_freed
    }

    /// Drops the least recently used entry, if any, and gives back its key and
    /// the size of its value.
    fn evict_lru(&mut self) -> (r: Option<(String, usize)>)
        requires
            old(self).wf(),
        ensures
            final(self).wf(),
            old(self)@.len() == 0 ==> (r is None && final(self)@ == old(self)@),
            old(self)@.len() > 0 ==> (r matches Some(kb) && kb.0@ == old(self)@.last().0 && kb.1
                == old(self)@.last().1.len() && final(self)@ == old(self)@.drop_last()),
            final(self).capacity() == old(self).capacity(),
            final(self).max_bytes_spec() == old(self).max_bytes_spec(),
    {
        if self.tail == NULL {
            proof {
                if self.order@.len() > 0 {
                    assert(self.order@.last() < self.nodes@.len());
                }
            }
            return None;
        }
        let lru_idx = self.tail;
        let ghost p = self.order@.len() - 1;
        let key = self.nodes[lru_idx].key.clone();
        proof {
            assert(self@.remove(p) =~= self@.drop_last());
        }
        let bytes_freed = self.unlink_entry(lru_idx, Ghost(p));
        Some((key, bytes_freed))
    }

    /// Makes the entry in slot `idx`, at place `p`, the most recently used.
    fn move_to_front(&mut self, idx: usize, Ghost(p): Ghost<int>)
        requires
            old(self).wf(),
            0 <= p < old(self).order@.len(),
            old(self).order@[p] == idx,
        ensures
            final(self).wf(),
            final(self)@ == seq![old(self)@[p]] + old(self)@.remove(p),
            final(self).order@ == seq![idx] + old(self).order@.remove(p),
            final(self).capacity() == old(self).capacity(),
            final(self).max_bytes_spec() == old(self).max_bytes_spec(),
    {
        let ghost order = self.order@;
        let ghost es = self@;
        if self.head == idx {
            proof {
                assert(p == 0) by {
                    if p != 0 {
                        assert(order[0] != order[p]);
                    }
                }
                assert(seq![es[p]] + es.remove(p) =~= es);
                assert(seq![idx] + order.remove(p) =~= order);
            }
            return;
        }
        self.remove_node(idx, Ghost(p));
        proof {
            assert(!order.remove(p).contains(idx)) by {
                assert forall|i: int| 0 <= i < order.remove(p).len() implies order.remove(p)[i] != idx by {
                    if i < p {
                        assert(order.remove(p)[i] == order[i]);
                    } else {
                        assert(order.remove(p)[i] == order[i + 1]);
                    }
                }
            }
            assert(!self.free@.contains(idx)) by {
                assert forall|j: int| 0 <= j < self.free@.len() implies self.free@[j] != idx by {
                    assert(order[p] != self.free@[j]);
                }
            }
        }
        self.order = Ghost(order.remove(p));
        self.push_front(idx);
        self.order = Ghost(seq![idx] + order.remove(p));
        proof {
            let o2 = seq![idx] + order.remove(p);
            assert(self@ =~= seq![es[p]] + es.remove(p)) by {
                assert forall|i: int| 0 <= i < o2.len() implies #[trigger] self@[i] == (seq![es[p]]
                    + es.remove(p))[i] by {
                    if i > 0 {
                        if i - 1 < p {
                            assert(o2[i] == order[i - 1]);
                        } else {
                            assert(o2[i] == order[i]);
                        }
                    }
                }
            }
            lemma_bytes_remove(es, p);
            lemma_bytes_prepend(es[p], es.remove(p));
            self.lemma_wf_facts_from_old(es, order, p);
        }
    }

    /// The map and byte facts of a shard whose recency list was reordered by
    /// moving place `p` to the front.
    proof fn lemma_wf_facts_from_old(&self, es: Seq<EntryView>, order: Seq<usize>, p: int)
        requires
            0 <= p < order.len(),
            order.len() == es.len(),
            self.order@ == seq![order[p]] + order.remove(p),
            self@ == seq![es[p]] + es.remove(p),
            forall|k: Seq<char>| #[trigger] self.map@.contains_key(k) <==> has_key(es, k),
            forall|i: int|
                0 <= i < order.len() ==> self.map@[(#[trigger] self.nodes@[order[i] as int]).key@]
                    == order[i],
        ensures
            forall|k: Seq<char>| #[trigger] self.map@.contains_key(k) <==> has_key(self@, k),
            forall|i: int|
                0 <= i < self.order@.len() ==> self.map@[(#[trigger] self.nodes@[self.order@[i] as int]).key@]
                    == self.order@[i],
    {
        let o2 = self.order@;
        assert forall|k: Seq<char>| #[trigger] self.map@.contains_key(k) <==> has_key(self@, k) by {
            if has_key(self@, k) {
                let w = choose|w: int| 0 <= w < self@.len() && (#[trigger] self@[w]).0 == k;
                if w == 0 {
                    assert(es[p].0 == k);
                } else if w - 1 < p {
                    assert(es[w - 1].0 == k);
                } else {
                    assert(es[w].0 == k);
                }
            }
            if has_key(es, k) {
                let w = choose|w: int| 0 <= w < es.len() && (#[trigger] es[w]).0 == k;
                if w == p {
                    assert(self@[0].0 == k);
                } else if w < p {
                    assert(self@[w + 1].0 == k);
                } else {
                    assert(self@[w].0 == k);
                }
            }
        }
        assert forall|i: int| 0 <= i < o2.len() implies self.map@[(#[trigger] self.nodes@[o2[i] as int]).key@]
            == o2[i] by {
            if i == 0 {
                assert(o2[0] == order[p]);
            } else if i - 1 < p {
                assert(o2[i] == order[i - 1]);
            } else {
                assert(o2[i] == order[i]);
            }
        }
    }

    /// Looks `key` up at time `now` (milliseconds on the wall clock), as
    /// `get_spec` says.
    pub fn get_at(&mut self, key: &str, now: u64) -> (r: Option<Vec<u8>>)
        requires
            old(self).wf(),
        ensures
            final(self).wf(),
            final(self)@ == get_spec(old(self)@, key@, now).0,
            r matches Some(v) ==> get_spec(old(self)@, key@, now).1 == Some(v@),
            r is None ==> get_spec(old(self)@, key@, now).1 is None,
            final(self).capacity() == old(self).capacity(),
            final(self).max_bytes_spec() == old(self).max_bytes_spec(),
    {
        proof {
            self.lemma_wf_facts();
        }
        let found = self.map.get(key);
        match found {
            Some(slot) => {
                let idx: usize = *slot;
                let ghost p = key_pos(self@, key@);
                if let Some(exp) = self.nodes[idx].expires_at {
                    if now > exp {
                        self.unlink_entry(idx, Ghost(p));
                        return None;
                    }
                }
                let ghost es = self@;
                proof {
                    assert(self.order@[p] == idx);
                    assert(es[p] == entry_of(self.nodes@[idx as int]));
                }
                self.move_to_front(idx, Ghost(p));
                proof {
                    assert(self.order@[0] == idx);
                    assert(self@[0] == es[p]);
                    assert(self@[0] == entry_of(self.nodes@[idx as int]));
                }
                let v = copy_bytes(&self.nodes[idx].value);
                Some(v)
            },
            None => None,
        }
    }

    /// Looks `key` up now; see `get_at`.  Whether an entry has expired depends
    /// on the clock; either way the shard moves as `get_at` says for the time
    /// read.
    pub fn get(&mut self, key: &str) -> (r: Option<Vec<u8>>)
        requires
            old(self).wf(),
        ensures
            final(self).wf(),
            exists|now: u64|
                {
                    &&& final(self)@ == get_spec(old(self)@, key@, now).0
                    &&& (r matches Some(v) ==> get_spec(old(self)@, key@, now).1 == Some(v@))
                    &&& (r is None ==> get_spec(old(self)@, key@, now).1 is None)
                },
            final(self).capacity() == old(self).capacity(),
            final(self).max_bytes_spec() == old(self).max_bytes_spec(),
    {
        let now = now_millis();
        self.get_at(key, now)
    }

    /// Drops least recently used entries until a value of `val_len` bytes
    /// fits the budget or none is left; gives back how many were dropped.
    fn evict_for(&mut self, val_len: usize) -> (count: usize)
        requires
            old(self).wf(),
            old(self).max_bytes > 0,
            bytes_of(old(self)@) + val_len <= usize::MAX,
        ensures
            final(self).wf(),
            final(self)@ == evict_until_fits(old(self)@, val_len as nat, old(self).max_bytes as nat),
            count == old(self)@.len() - final(self)@.len(),
            final(self).capacity() == old(self).capacity(),
            final(self).max_bytes_spec() == old(self).max_bytes_spec(),
            final(self).max_bytes == old(self).max_bytes,
    {
        let ghost es0 = self@;
        let ghost cap = self.capacity();
        let mut evicted_count: usize = 0;
        proof {
            self.lemma_wf_facts();
        }
        while self.current_bytes + val_len > self.max_bytes && self.tail != NULL
            invariant
                self.wf(),
                self.capacity() == cap,
                self.max_bytes_spec() == old(self).max_bytes_spec(),
                self.max_bytes == old(self).max_bytes,
                self.max_bytes > 0,
                val_len == val_len,
                self@.len() <= es0.len(),
                self@ =~= es0.take(self@.len() as int),
                evict_until_fits(self@, val_len as nat, self.max_bytes as nat) == evict_until_fits(
                    es0,
                    val_len as nat,
                    self.max_bytes as nat,
                ),
                evicted_count == es0.len() - self@.len(),
                self.current_bytes + val_len <= usize::MAX,
                es0.len() <= cap,
                cap < usize::MAX,
            decreases self@.len(),
        {
            proof {
                if self.order@.len() == 0 {
                    assert(self.tail == NULL);
                }
            }
            let ghost before = self@;
            self.evict_lru();
            evicted_count = evicted_count + 1;
            proof {
                assert(before.drop_last() =~= es0.take(before.len() - 1));
            }
        }
        proof {
            if self.tail == NULL {
                assert(self.order@.len() == 0) by {
                    if self.order@.len() > 0 {
                        assert(self.order@.last() < self.nodes@.len());
                    }
                }
            }
            assert(evict_until_fits(self@, val_len as nat, self.max_bytes as nat) == self@);
        }
        evicted_count
    }

    /// Replaces the value and expiry of the entry in slot `idx`, at place `p`,
    /// and makes it the most recently used.
    fn update_entry(&mut self, idx: usize, Ghost(p): Ghost<int>, value: Vec<u8>, expires_at: Option<u64>)
        requires
            old(self).wf(),
            0 <= p < old(self).order@.len(),
            old(self).order@[p] == idx,
            bytes_of(old(self)@) + value@.len() <= usize::MAX,
        ensures
            final(self).wf(),
            final(self)@ == seq![(old(self)@[p].0, value@, expires_at)] + old(self)@.remove(p),
            final(self).capacity() == old(self).capacity(),
            final(self).max_bytes_spec() == old(self).max_bytes_spec(),
    {
        let ghost es1 = self@;
        let val_len = value.len();
        proof {
            self.lemma_wf_facts();
            lemma_bytes_remove(es1, p);
        }
        let old_len = self.nodes[idx].value.len();
        self.current_bytes = self.current_bytes + val_len - old_len;
        self.nodes[idx].value = value;
        self.nodes[idx].expires_at = expires_at;
        let ghost es2 = self@;
        proof {
            let order = self.order@;
            assert(es2 =~= es1.update(p, (es1[p].0, value@, expires_at))) by {
                assert forall|i: int| 0 <= i < es2.len() implies #[trigger] es2[i] == es1.update(
                    p,
                    (es1[p].0, value@, expires_at),
                )[i] by {
                    if i != p {
                        assert(order[i] != order[p]);
                    }
                }
            }
            assert(es2.remove(p) =~= es1.remove(p));
            lemma_bytes_remove(es2, p);
            assert forall|k: Seq<char>| #[trigger] self.map@.contains_key(k) <==> has_key(es2, k) by {
                if has_key(es2, k) {
                    let w = choose|w: int| 0 <= w < es2.len() && (#[trigger] es2[w]).0 == k;
                    assert(es1[w].0 == k);
                }
                if has_key(es1, k) {
                    let w = choose|w: int| 0 <= w < es1.len() && (#[trigger] es1[w]).0 == k;
                    assert(es2[w].0 == k);
                }
            }
        }
        self.move_to_front(idx, Ghost(p));
        proof {
            assert(es2.remove(p) =~= es1.remove(p));
        }
    }

    /// Stores a new entry for a key the shard does not hold, making room by
    /// dropping the least recently used entry when every slot is taken; gives
    /// back 1 when it dropped one, else 0.
    fn insert_entry(&mut self, key: String, value: Vec<u8>, expires_at: Option<u64>) -> (evicted: usize)
        requires
            old(self).wf(),
            old(self).capacity() > 0,
            !has_key(old(self)@, key@),
            bytes_of(old(self)@) + value@.len() <= usize::MAX,
        ensures
            final(self).wf(),
            old(self)@.len() >= old(self).capacity() ==> evicted == 1 && final(self)@ == seq![(key@, value@, expires_at)] + old(self)@.drop_last(),
            old(self)@.len() < old(self).capacity() ==> evicted == 0 && final(self)@ == seq![(key@, value@, expires_at)] + old(self)@,
            final(self).capacity() == old(self).capacity(),
            final(self).max_bytes_spec() == old(self).max_bytes_spec(),
    {
        let ghost es1 = self@;
        let ghost cap = self.capacity();
        let val_len = value.len();
        let mut evicted_count: usize = 0;
        proof {
            self.lemma_wf_facts();
        }
        if self.free_list == NULL {
            proof {
                assert(self.free@.len() == 0);
                assert(true);
            }
            self.evict_lru();
            evicted_count = evicted_count + 1;
        }
        let ghost es3 = self@;
        let ghost free = self.free@;
        let ghost order = self.order@;
        proof {
            assert(free.len() > 0);
            assert(!has_key(es3, key@)) by {
                if has_key(es3, key@) {
                    let w = choose|w: int| 0 <= w < es3.len() && (#[trigger] es3[w]).0 == key@;
                    assert(es1[w].0 == key@);
                }
            }
        }
        let new_idx = self.free_list;
        self.free_list = self.nodes[new_idx].next;
        self.free = Ghost(free.drop_first());
        self.nodes[new_idx].key = key.clone();
        self.nodes[new_idx].value = value;
        self.nodes[new_idx].expires_at = expires_at;
        self.map.insert(key, new_idx);
        self.current_bytes = self.current_bytes + val_len;
        proof {
            let nodes = self.nodes@;
            assert(!order.contains(new_idx)) by {
                assert forall|i: int| 0 <= i < order.len() implies order[i] != new_idx by {
                    assert(order[i] != free[0]);
                }
            }
            assert(!free.drop_first().contains(new_idx)) by {
                assert forall|j: int| 0 <= j < free.len() - 1 implies free.drop_first()[j] != new_idx by {
                    assert(free[j + 1] != free[0]);
                }
            }
            assert forall|i: int| 0 <= i < order.len() implies #[trigger] nodes[order[i] as int].prev == (
            if i == 0 {
                NULL
            } else {
                order[i - 1]
            }) by {
                assert(order[i] != free[0]);
            }
            assert forall|i: int| 0 <= i < order.len() implies #[trigger] nodes[order[i] as int].next == (
            if i == order.len() - 1 {
                NULL
            } else {
                order[i + 1]
            }) by {
                assert(order[i] != free[0]);
            }
            let f2 = free.drop_first();
            assert forall|j: int| 0 <= j < f2.len() implies #[trigger] nodes[f2[j] as int].next == (if j
                == f2.len() - 1 {
                NULL
            } else {
                f2[j + 1]
            }) by {
                assert(free[j + 1] != free[0]);
            }
            assert forall|j: int| 0 <= j < f2.len() implies #[trigger] f2[j] < nodes.len() by {
                assert(f2[j] == free[j + 1]);
            }
            assert forall|i: int, j: int|
                0 <= i < order.len() && 0 <= j < f2.len() implies #[trigger] order[i] != #[trigger] f2[j] by {
                assert(f2[j] == free[j + 1]);
            }
            assert(f2.no_duplicates()) by {
                assert forall|a: int, b: int| 0 <= a < f2.len() && 0 <= b < f2.len() && a != b implies f2[a]
                    != f2[b] by {
                    assert(f2[a] == free[a + 1] && f2[b] == free[b + 1]);
                }
            }
            assert(self.free_list == (if f2.len() == 0 {
                NULL
            } else {
                f2[0]
            }));
        }
        self.push_front(new_idx);
        self.order = Ghost(seq![new_idx] + order);
        proof {
            let o2 = self.order@;
            let e = (key@, value@, expires_at);
            assert(self@ =~= seq![e] + es3) by {
                assert forall|i: int| 0 <= i < o2.len() implies #[trigger] self@[i] == (seq![e]
                    + es3)[i] by {
                    if i > 0 {
                        assert(o2[i] == order[i - 1]);
                        assert(order[i - 1] != new_idx);
                    }
                }
            }
            lemma_bytes_prepend(e, es3);
            assert forall|k: Seq<char>| #[trigger] self.map@.contains_key(k) <==> has_key(self@, k) by {
                if has_key(self@, k) {
                    let w = choose|w: int| 0 <= w < self@.len() && (#[trigger] self@[w]).0 == k;
                    if w > 0 {
                        assert(es3[w - 1].0 == k);
                    }
                }
                if has_key(es3, k) {
                    let w = choose|w: int| 0 <= w < es3.len() && (#[trigger] es3[w]).0 == k;
                    assert(self@[w + 1].0 == k);
                }
                if k == key@ {
                    assert(self@[0].0 == k);
                }
            }
            assert forall|i: int| 0 <= i < o2.len() implies self.map@[(#[trigger] self.nodes@[o2[i] as int]).key@]
                == o2[i] by {
                if i > 0 {
                    assert(o2[i] == order[i - 1]);
                    assert(es3[i - 1].0 != key@);
                }
            }
            if es1.len() >= cap {
                assert(es3 == es1.drop_last());
            } else {
                assert(es3 == es1);
            }
        }
        evicted_count
    }

    /// Stores `value` under `key`, expiring at `expires_at` (milliseconds on
    /// the wall clock) if given, as `put_spec` says, and gives back the number
    /// of entries it reports as evicted.  The shard must have a slot, and the
    /// byte count must not overflow.
    pub fn put(&mut self, key: String, value: Vec<u8>, expires_at: Option<u64>) -> (evicted: usize)
        requires
            old(self).wf(),
            old(self).capacity() > 0,
            bytes_of(old(self)@) + value@.len() <= usize::MAX,
        ensures
            final(self).wf(),
            (final(self)@, evicted as nat) == put_spec(
                old(self)@,
                old(self).capacity(),
                old(self).max_bytes_spec(),
                key@,
                value@,
                expires_at,
            ),
            final(self).capacity() == old(self).capacity(),
            final(self).max_bytes_spec() == old(self).max_bytes_spec(),
    {
        let ghost es0 = self@;
        let val_len = value.len();
        let mut evicted_count: usize = 0;
        if self.max_bytes > 0 {
            evicted_count = self.evict_for(val_len);
        }
        let ghost es1 = self@;
        proof {
            self.lemma_wf_facts();
            lemma_evict_prefix(es0, val_len as nat, self.max_bytes as nat);
            assert(bytes_of(es1) <= bytes_of(es0)) by {
                lemma_bytes_prefix(es0, es1.len() as int);
            }
        }
        let found = self.map.get(key.as_str());
        match found {
            Some(slot) => {
                let idx: usize = *slot;
                let ghost p = key_pos(es1, key@);
                self.update_entry(idx, Ghost(p), value, expires_at);
                0
            },
            None => {
                let more = self.insert_entry(key, value, expires_at);
                evicted_count + more
            },
        }
    }

    /// Removes the entry with key `key`, if any; tells whether there was one.
    pub fn remove(&mut self, key: &str) -> (found: bool)
        requires
            old(self).wf(),
        ensures
            final(self).wf(),
            found == has_key(old(self)@, key@),
            final(self)@ == remove_spec(old(self)@, key@),
            final(self).capacity() == old(self).capacity(),
            final(self).max_bytes_spec() == old(self).max_bytes_spec(),
    {
        proof {
            self.lemma_wf_facts();
        }
        let found = self.map.get(key);
        match found {
            Some(slot) => {
                let idx: usize = *slot;
                let ghost p = key_pos(self@, key@);
                self.unlink_entry(idx, Ghost(p));
                true
            },
            None => false,
        }
    }
}

/// A store followed by a lookup of the same key, before the stored entry
/// expires, gives back the stored value and leaves that entry most recently
/// used.
pub proof fn law_get_after_put(
    es: Seq<EntryView>,
    cap: nat,
    max: nat,
    k: Seq<char>,
    v: Seq<u8>,
    exp: Option<u64>,
    now: u64,
)
    requires
        distinct_keys(es),
        cap > 0,
        !expired(exp, now),
    ensures
        get_spec(put_spec(es, cap, max, k, v, exp).0, k, now).1 == Some(v),
        get_spec(put_spec(es, cap, max, k, v, exp).0, k, now).0 == put_spec(es, cap, max, k, v, exp).0,
{
    let r = put_spec(es, cap, max, k, v, exp).0;
    assert(r[0] == (k, v, exp));
    assert(has_key(r, k));
    lemma_put_distinct(es, cap, max, k, v, exp);
    lemma_key_pos(r, 0);
    assert(seq![r[0]] + r.remove(0) =~= r);
}

/// A store keeps the keys distinct.
pub proof fn lemma_put_distinct(
    es: Seq<EntryView>,
    cap: nat,
    max: nat,
    k: Seq<char>,
    v: Seq<u8>,
    exp: Option<u64>,
)
    requires
        distinct_keys(es),
        cap > 0,
    ensures
        distinct_keys(put_spec(es, cap, max, k, v, exp).0),
{
    let es1 = if max > 0 {
        evict_until_fits(es, v.len(), max)
    } else {
        es
    };
    lemma_evict_prefix(es, v.len(), max);
    assert(distinct_keys(es1)) by {
        assert forall|i: int, j: int| 0 <= i < es1.len() && 0 <= j < es1.len() && i != j implies (#[trigger] es1[i]).0
            != (#[trigger] es1[j]).0 by {
            assert(es1[i] == es[i] && es1[j] == es[j]);
        }
    }
    let r = put_spec(es, cap, max, k, v, exp).0;
    let rest = if has_key(es1, k) {
        es1.remove(key_pos(es1, k))
    } else if es1.len() >= cap {
        es1.drop_last()
    } else {
        es1
    };
    assert(r == seq![(k, v, exp)] + rest);
    assert forall|i: int| 0 <= i < rest.len() implies (#[trigger] rest[i]).0 != k by {
        if has_key(es1, k) {
            let p = key_pos(es1, k);
            assert(es1[p].0 == k);
            if i < p {
                assert(rest[i] == es1[i]);
            } else {
                assert(rest[i] == es1[i + 1]);
            }
        } else if es1.len() >= cap {
            assert(rest[i] == es1[i]);
        } else {
            assert(rest[i] == es1[i]);
        }
    }
    assert forall|i: int, j: int| 0 <= i < rest.len() && 0 <= j < rest.len() && i != j implies (#[trigger] rest[i]).0
        != (#[trigger] rest[j]).0 by {
        if has_key(es1, k) {
            let p = key_pos(es1, k);
            let a = if i < p { i } else { i + 1 };
            let b = if j < p { j } else { j + 1 };
            assert(rest[i] == es1[a] && rest[j] == es1[b]);
        } else if es1.len() >= cap {
            assert(rest[i] == es1[i] && rest[j] == es1[j]);
        } else {
            assert(rest[i] == es1[i] && rest[j] == es1[j]);
        }
    }
    assert forall|i: int, j: int| 0 <= i < r.len() && 0 <= j < r.len() && i != j implies (#[trigger] r[i]).0
        != (#[trigger] r[j]).0 by {
        if i > 0 {
            assert(r[i] == rest[i - 1]);
        }
        if j > 0 {
            assert(r[j] == rest[j - 1]);
        }
    }
}

/// A shard never holds more entries than it has slots.
pub proof fn law_put_within_capacity(
    es: Seq<EntryView>,
    cap: nat,
    max: nat,
    k: Seq<char>,
    v: Seq<u8>,
    exp: Option<u64>,
)
    requires
        es.len() <= cap,
        cap > 0,
    ensures
        put_spec(es, cap, max, k, v, exp).0.len() <= cap,
{
    lemma_evict_prefix(es, v.len(), max);
}

/// With a byte budget, a store leaves the shard within budget, unless the
/// stored value alone is over it, in which case it is the only entry left.
pub proof fn law_put_within_budget(
    es: Seq<EntryView>,
    cap: nat,
    max: nat,
    k: Seq<char>,
    v: Seq<u8>,
    exp: Option<u64>,
)
    requires
        max > 0,
        cap > 0,
    ensures
        bytes_of(put_spec(es, cap, max, k, v, exp).0) <= max || put_spec(
            es,
            cap,
            max,
            k,
            v,
            exp,
        ).0.len() == 1,
{
    let es1 = evict_until_fits(es, v.len(), max);
    lemma_evict_prefix(es, v.len(), max);
    let r = put_spec(es, cap, max, k, v, exp).0;
    if es1.len() == 0 {
        assert(!has_key(es1, k));
        assert(r =~= seq![(k, v, exp)]);
    } else {
        let rest = if has_key(es1, k) {
            es1.remove(key_pos(es1, k))
        } else if es1.len() >= cap {
            es1.drop_last()
        } else {
            es1
        };
        assert(r == seq![(k, v, exp)] + rest);
        lemma_bytes_prepend((k, v, exp), rest);
        if has_key(es1, k) {
            let p = key_pos(es1, k);
            lemma_bytes_remove(es1, p);
        } else if es1.len() >= cap {
            lemma_bytes_prefix(es1, es1.len() - 1);
            assert(es1.take(es1.len() - 1) =~= es1.drop_last());
        }
    }
}

/// After the entry with a key is removed, a lookup of that key finds nothing
/// and changes nothing.
pub proof fn law_get_after_remove(es: Seq<EntryView>, k: Seq<char>, now: u64)
    requires
        distinct_keys(es),
    ensures
        get_spec(remove_spec(es, k), k, now) == (remove_spec(es, k), None::<Seq<u8>>),
{
    let r = remove_spec(es, k);
    if has_key(es, k) {
        let p = key_pos(es, k);
        assert(!has_key(r, k)) by {
            if has_key(r, k) {
                let w = choose|w: int| 0 <= w < r.len() && (#[trigger] r[w]).0 == k;
                if w < p {
                    assert(es[w].0 == k);
                } else {
                    assert(es[w + 1].0 == k);
                }
            }
        }
    }
}

/// An entry just read is not the one the next insertion of another key
/// evicts: a read moves it to the front, and with room for two entries or
/// more (and no byte budget) eviction takes from the back.
pub proof fn law_read_entry_survives_next_put(
    es: Seq<EntryView>,
    cap: nat,
    k: Seq<char>,
    now: u64,
    k2: Seq<char>,
    v2: Seq<u8>,
    exp2: Option<u64>,
)
    requires
        distinct_keys(es),
        cap >= 2,
        get_spec(es, k, now).1 is Some,
        k2 != k,
    ensures
        has_key(put_spec(get_spec(es, k, now).0, cap, 0, k2, v2, exp2).0, k),
{
    let es1 = get_spec(es, k, now).0;
    assert(es1[0].0 == k);
    let out = put_spec(es1, cap, 0, k2, v2, exp2).0;
    if has_key(es1, k2) {
        let p = key_pos(es1, k2);
        assert(p != 0);
        assert(es1.remove(p)[0] == es1[0]);
        assert(out[1] == es1.remove(p)[0]);
    } else if es1.len() >= cap {
        assert(es1.drop_last()[0] == es1[0]);
        assert(out[1] == es1[0]);
    } else {
        assert(out[1] == es1[0]);
    }
    assert(out[1].0 == k);
}

/// What a shard keeps true through any sequence of operations: no key twice,
/// no more entries than slots, and, with a byte budget, no more bytes than
/// the budget.
pub open spec fn shard_ok(es: Seq<EntryView>, cap: nat, max: nat) -> bool {
    &&& distinct_keys(es)
    &&& es.len() <= cap
    &&& (max > 0 ==> bytes_of(es) <= max)
}

/// Every entry of `after` under a key other than `k` is an entry of
/// `before`, value and expiry alike: an operation on `k` changes no other
/// key's entry (it may only drop it).
pub open spec fn others_kept(before: Seq<EntryView>, after: Seq<EntryView>, k: Seq<char>) -> bool {
    forall|j: int| 0 <= j < after.len() && (#[trigger] after[j]).0 != k ==> before.contains(after[j])
}

/// Removing an entry keeps the keys distinct, and leaves only entries that
/// were there.
proof fn lemma_remove_facts(es: Seq<EntryView>, i: int)
    requires
        distinct_keys(es),
        0 <= i < es.len(),
    ensures
        distinct_keys(es.remove(i)),
        forall|j: int| 0 <= j < es.remove(i).len() ==> es.contains(#[trigger] es.remove(i)[j]),
        forall|j: int| 0 <= j < es.remove(i).len() ==> (#[trigger] es.remove(i)[j]).0 != es[i].0,
{
    let r = es.remove(i);
    assert forall|j: int| 0 <= j < r.len() implies es.contains(#[trigger] r[j]) by {
        if j < i {
            assert(r[j] == es[j]);
        } else {
            assert(r[j] == es[j + 1]);
        }
    }
    assert forall|a: int, b: int| 0 <= a < r.len() && 0 <= b < r.len() && a != b implies (#[trigger] r[a]).0
        != (#[trigger] r[b]).0 by {
        let a1 = if a < i { a } else { a + 1 };
        let b1 = if b < i { b } else { b + 1 };
        assert(r[a] == es[a1] && r[b] == es[b1]);
    }
    assert forall|j: int| 0 <= j < r.len() implies (#[trigger] r[j]).0 != es[i].0 by {
        let j1 = if j < i { j } else { j + 1 };
        assert(r[j] == es[j1]);
    }
}

/// A lookup keeps the shard's invariant and changes no entry: it only moves
/// the entry read to the front, or drops it when it has expired.
pub proof fn law_get_keeps_shard_ok(es: Seq<EntryView>, cap: nat, max: nat, k: Seq<char>, now: u64)
    requires
        shard_ok(es, cap, max),
    ensures
        shard_ok(get_spec(es, k, now).0, cap, max),
        forall|j: int|
            0 <= j < get_spec(es, k, now).0.len() ==> es.contains(#[trigger] get_spec(es, k, now).0[j]),
{
    if has_key(es, k) {
        let i = key_pos(es, k);
        lemma_remove_facts(es, i);
        lemma_bytes_remove(es, i);
        let rest = es.remove(i);
        if !expired(es[i].2, now) {
            let r = seq![es[i]] + rest;
            lemma_bytes_prepend(es[i], rest);
            assert forall|a: int, b: int| 0 <= a < r.len() && 0 <= b < r.len() && a != b implies (
            #[trigger] r[a]).0 != (#[trigger] r[b]).0 by {
                if a > 0 && b > 0 {
                    assert(r[a] == rest[a - 1] && r[b] == rest[b - 1]);
                } else if a == 0 {
                    assert(r[b] == rest[b - 1]);
                } else {
                    assert(r[a] == rest[a - 1]);
                }
            }
            assert forall|j: int| 0 <= j < r.len() implies es.contains(#[trigger] r[j]) by {
                if j > 0 {
                    assert(r[j] == rest[j - 1]);
                }
            }
        }
    }
}

/// Removing keeps the shard's invariant and changes no other entry.
pub proof fn law_remove_keeps_shard_ok(es: Seq<EntryView>, cap: nat, max: nat, k: Seq<char>)
    requires
        shard_ok(es, cap, max),
    ensures
        shard_ok(remove_spec(es, k), cap, max),
        others_kept(es, remove_spec(es, k), k),
        forall|j: int| 0 <= j < remove_spec(es, k).len() ==> es.contains(#[trigger] remove_spec(es, k)[j]),
        !has_key(remove_spec(es, k), k),
{
    if has_key(es, k) {
        let i = key_pos(es, k);
        lemma_remove_facts(es, i);
        lemma_bytes_remove(es, i);
        let r = es.remove(i);
        if has_key(r, k) {
            let w = choose|w: int| 0 <= w < r.len() && (#[trigger] r[w]).0 == k;
            assert(r[w].0 != es[i].0);
        }
    }
}

/// Storing keeps the shard's invariant, when the shard has a slot and, with
/// a byte budget, the value fits in it; and it changes no other key's entry
/// (older ones may be evicted).
pub proof fn law_put_keeps_shard_ok(
    es: Seq<EntryView>,
    cap: nat,
    max: nat,
    k: Seq<char>,
    v: Seq<u8>,
    exp: Option<u64>,
)
    requires
        shard_ok(es, cap, max),
        cap > 0,
        max > 0 ==> v.len() <= max,
    ensures
        shard_ok(put_spec(es, cap, max, k, v, exp).0, cap, max),
        others_kept(es, put_spec(es, cap, max, k, v, exp).0, k),
{
    let r = put_spec(es, cap, max, k, v, exp).0;
    lemma_put_distinct(es, cap, max, k, v, exp);
    law_put_within_capacity(es, cap, max, k, v, exp);
    if max > 0 {
        law_put_within_budget(es, cap, max, k, v, exp);
        if r.len() == 1 {
            assert(r =~= seq![(k, v, exp)] + Seq::<EntryView>::empty());
            lemma_bytes_prepend((k, v, exp), Seq::<EntryView>::empty());
        }
    }
    let es1 = if max > 0 {
        evict_until_fits(es, v.len(), max)
    } else {
        es
    };
    lemma_evict_prefix(es, v.len(), max);
    assert(forall|x: int| 0 <= x < es1.len() ==> es1[x] == es[x]);
    let rest = if has_key(es1, k) {
        es1.remove(key_pos(es1, k))
    } else if es1.len() >= cap {
        es1.drop_last()
    } else {
        es1
    };
    assert(r == seq![(k, v, exp)] + rest);
    assert forall|j: int| 0 <= j < r.len() && (#[trigger] r[j]).0 != k implies es.contains(r[j]) by {
        assert(j > 0);
        assert(r[j] == rest[j - 1]);
        let x = if has_key(es1, k) {
            if j - 1 < key_pos(es1, k) { j - 1 } else { j }
        } else {
            j - 1
        };
        assert(rest[j - 1] == es1[x]);
        assert(es[x] == r[j]);
    }
}

/// An operation on a shard, as a value: its kind (0 a lookup, 1 a store,
/// 2 a removal), the key, and for a store the value and expiry, for a lookup
/// the time.
pub type ShardOp = (int, Seq<char>, Seq<u8>, Option<u64>, u64);

/// The entries after one operation.
pub open spec fn apply_op(es: Seq<EntryView>, cap: nat, max: nat, op: ShardOp) -> Seq<EntryView> {
    if op.0 == 0 {
        get_spec(es, op.1, op.4).0
    } else if op.0 == 1 {
        put_spec(es, cap, max, op.1, op.2, op.3).0
    } else {
        remove_spec(es, op.1)
    }
}

/// The entries after the operations `ops`, in order.
pub open spec fn run_ops(es: Seq<EntryView>, cap: nat, max: nat, ops: Seq<ShardOp>) -> Seq<EntryView>
    decreases ops.len(),
{
    if ops.len() == 0 {
        es
    } else {
        apply_op(run_ops(es, cap, max, ops.drop_last()), cap, max, ops.last())
    }
}

/// Whether every value stored by `ops` fits a byte budget `max` (any value
/// does when there is none).
pub open spec fn stores_fit(ops: Seq<ShardOp>, max: nat) -> bool {
    forall|i: int| 0 <= i < ops.len() && (#[trigger] ops[i]).0 == 1 && max > 0 ==> ops[i].2.len() <= max
}

/// The value and expiry of the last store of `k` among `ops`, if any.
pub open spec fn last_store(ops: Seq<ShardOp>, k: Seq<char>) -> Option<(Seq<u8>, Option<u64>)>
    decreases ops.len(),
{
    if ops.len() == 0 {
        None
    } else if ops.last().0 == 1 && ops.last().1 == k {
        Some((ops.last().2, ops.last().3))
    } else {
        last_store(ops.drop_last(), k)
    }
}

/// A shard through any sequence of lookups, stores and removals: it never
/// holds a key twice, more entries than slots, or (with a byte budget, and
/// values that fit it) more bytes than the budget; and every entry it holds
/// is that of the last store of its key, or, for a key never stored since,
/// the entry it held at the start.  So a lookup finds the value last stored
/// unless the entry was evicted, removed or has expired.
pub proof fn law_shard_through_any_ops(es: Seq<EntryView>, cap: nat, max: nat, ops: Seq<ShardOp>)
    requires
        shard_ok(es, cap, max),
        cap > 0,
        stores_fit(ops, max),
    ensures
        shard_ok(run_ops(es, cap, max, ops), cap, max),
        forall|j: int|
            0 <= j < run_ops(es, cap, max, ops).len() ==> match last_store(
                ops,
                (#[trigger] run_ops(es, cap, max, ops)[j]).0,
            ) {
                Some(st) => run_ops(es, cap, max, ops)[j].1 == st.0 && run_ops(es, cap, max, ops)[j].2 == st.1,
                None => es.contains(run_ops(es, cap, max, ops)[j]),
            },
    decreases ops.len(),
{
    if ops.len() > 0 {
        let prev = ops.drop_last();
        assert(stores_fit(prev, max)) by {
            assert forall|i: int| 0 <= i < prev.len() && (#[trigger] prev[i]).0 == 1 && max > 0 implies prev[i].2.len()
                <= max by {
                assert(prev[i] == ops[i]);
            }
        }
        law_shard_through_any_ops(es, cap, max, prev);
        let r = run_ops(es, cap, max, prev);
        let op = ops.last();
        let r2 = run_ops(es, cap, max, ops);
        assert(r2 == apply_op(r, cap, max, op));
        if op.0 == 0 {
            law_get_keeps_shard_ok(r, cap, max, op.1, op.4);
        } else if op.0 == 1 {
            assert(ops[ops.len() - 1] == op);
            law_put_keeps_shard_ok(r, cap, max, op.1, op.2, op.3);
        } else {
            law_remove_keeps_shard_ok(r, cap, max, op.1);
        }
        assert forall|j: int| 0 <= j < r2.len() implies match last_store(ops, (#[trigger] r2[j]).0) {
            Some(st) => r2[j].1 == st.0 && r2[j].2 == st.1,
            None => es.contains(r2[j]),
        } by {
            let e = r2[j];
            if op.0 == 1 && e.0 == op.1 {
                let pr = put_spec(r, cap, max, op.1, op.2, op.3).0;
                assert(pr[0] == (op.1, op.2, op.3));
                if j != 0 {
                    assert(pr[j].0 == pr[0].0);
                }
            } else {
                assert(r.contains(e));
                let j0 = choose|j0: int| 0 <= j0 < r.len() && r[j0] == e;
                assert(r[j0] == e);
                assert(last_store(ops, e.0) == last_store(prev, e.0));
            }
        }
    }
}

} // verus!
