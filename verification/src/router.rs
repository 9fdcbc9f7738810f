//! Radix-trie router: paths with static text, `:name` parameters (one path
//! segment) and a `*name` catch-all (the rest of the path), matched with
//! static text first, then parameters, then catch-alls.

use vstd::prelude::*;
use vstd::string::StringExecFns;
use crate::http::{Method, holds_method, contains_method};
use crate::params::{Params, params_items};

verus! {

/// What a trie node captures.
#[derive(Clone, Debug, PartialEq)]
pub enum ParamType {
    /// Static text: the node's prefix.
    Static,
    /// `:param`: one path segment.
    Named(String),
    /// `*wildcard`: the rest of the path.
    CatchAll(String),
}

/// Whether two node kinds are the same, parameter names included.
pub open spec fn same_param(a: ParamType, b: ParamType) -> bool {
    match (a, b) {
        (ParamType::Static, ParamType::Static) => true,
        (ParamType::Named(x), ParamType::Named(y)) => x@ == y@,
        (ParamType::CatchAll(x), ParamType::CatchAll(y)) => x@ == y@,
        _ => false,
    }
}

/// The kind of a node: 0 static, 1 parameter, 2 catch-all.
pub open spec fn kind_of(p: ParamType) -> int {
    match p {
        ParamType::Static => 0,
        ParamType::Named(_) => 1,
        ParamType::CatchAll(_) => 2,
    }
}

impl ParamType {
    /// Compares two node kinds as `same_param` says.
    pub fn same_as(&self, other: &ParamType) -> (b: bool)
        ensures
            b == same_param(*self, *other),
    {
        match (self, other) {
            (ParamType::Static, ParamType::Static) => true,
            (ParamType::Named(x), ParamType::Named(y)) => x.eq(y),
            (ParamType::CatchAll(x), ParamType::CatchAll(y)) => x.eq(y),
            _ => false,
        }
    }

    /// The kind of the node, as `kind_of` says.
    pub fn kind(&self) -> (k: u8)
        ensures
            k == kind_of(*self),
    {
        match self {
            ParamType::Static => 0,
            ParamType::Named(_) => 1,
            ParamType::CatchAll(_) => 2,
        }
    }
}

/// A route registered at a node.
#[derive(Clone, Debug)]
pub struct Route<T> {
    pub value: T,
    /// The methods it answers; empty means all.
    pub methods: Vec<Method>,
    /// A prefix taken off the path before forwarding.
    pub strip_prefix: Option<String>,
    /// A prefix put on the path before forwarding.
    pub add_prefix: Option<String>,
}

/// A node of the trie.
#[derive(Debug)]
pub struct TrieNode<T> {
    pub prefix: String,
    pub routes: Vec<Route<T>>,
    pub children: Vec<TrieNode<T>>,
    pub param_type: ParamType,
}

impl<T> Default for TrieNode<T> {
    fn default() -> (n: Self)
        ensures
            n.prefix@ == Seq::<char>::empty(),
            n.routes@ == Seq::<Route<T>>::empty(),
            n.children@ == Seq::<TrieNode<T>>::empty(),
            n.param_type == ParamType::Static,
    {
        TrieNode {
            prefix: String::new(),
            routes: Vec::new(),
            children: Vec::new(),
            param_type: ParamType::Static,
        }
    }
}

/// The parameters captured by a match, as (name, value) pairs.
pub type ParamsView = Seq<(Seq<char>, Seq<char>)>;

/// The outcome of a lookup.
pub struct RouteMatch<'a, T> {
    pub value: &'a T,
    pub params: Params,
    pub rewritten_path: Option<String>,
}

/// A router from paths to values.
pub struct RadixTrie<T> {
    root: TrieNode<T>,
}

impl<T> Default for RadixTrie<T> {
    fn default() -> (t: Self)
        ensures
            trie_wf(t.root_spec()),
            t.root_spec().prefix@ == Seq::<char>::empty(),
            t.root_spec().routes@ == Seq::<Route<T>>::empty(),
            t.root_spec().children@ == Seq::<TrieNode<T>>::empty(),
            t.root_spec().param_type == ParamType::Static,
    {
        Self::new()
    }
}

/// The characters of `s`.
pub fn to_chars(s: &str) -> (v: Vec<char>)
    ensures
        v@ == s@,
{
    let n = s.unicode_len();
    let mut v: Vec<char> = Vec::with_capacity(n);
    let mut i: usize = 0;
    while i < n
        invariant
            n == s@.len(),
            i <= n,
            v@ == s@.take(i as int),
        decreases n - i,
    {
        v.push(s.get_char(i));
        i = i + 1;
        assert(v@ =~= s@.take(i as int));
    }
    assert(s@.take(n as int) =~= s@);
    v
}

/// The number of leading characters `s1` and `s2` have in common.
pub open spec fn common_prefix_spec(s1: Seq<char>, s2: Seq<char>) -> nat
    decreases s1.len(),
{
    if s1.len() == 0 || s2.len() == 0 || s1[0] != s2[0] {
        0
    } else {
        1 + common_prefix_spec(s1.drop_first(), s2.drop_first())
    }
}

/// Facts about the common prefix: both sequences start with it, and it
/// cannot be extended.
pub proof fn lemma_common_prefix(s1: Seq<char>, s2: Seq<char>)
    ensures
        common_prefix_spec(s1, s2) <= s1.len(),
        common_prefix_spec(s1, s2) <= s2.len(),
        s1.take(common_prefix_spec(s1, s2) as int) == s2.take(common_prefix_spec(s1, s2) as int),
        common_prefix_spec(s1, s2) < s1.len() && common_prefix_spec(s1, s2) < s2.len() ==> s1[common_prefix_spec(s1, s2) as int]
            != s2[common_prefix_spec(s1, s2) as int],
    decreases s1.len(),
{
    if !(s1.len() == 0 || s2.len() == 0 || s1[0] != s2[0]) {
        lemma_common_prefix(s1.drop_first(), s2.drop_first());
        let n = common_prefix_spec(s1.drop_first(), s2.drop_first());
        assert(s1.take(n + 1int) =~= seq![s1[0]] + s1.drop_first().take(n as int));
        assert(s2.take(n + 1int) =~= seq![s2[0]] + s2.drop_first().take(n as int));
    } else {
        assert(s1.take(0) =~= s2.take(0));
    }
}

/// The number of leading characters `s1` and `s2[b..e]` have in common.
fn common_prefix_len(s1: &Vec<char>, s2: &Vec<char>, b: usize, e: usize) -> (n: usize)
    requires
        b <= e <= s2@.len(),
    ensures
        n == common_prefix_spec(s1@, s2@.subrange(b as int, e as int)),
{
    let l1 = s1.len();
    let mut n: usize = 0;
    proof {
        assert(s1@.skip(0) =~= s1@);
    }
    while n < l1 && b + n < e && s1[n] == s2[b + n]
        invariant
            l1 == s1@.len(),
            b <= e <= s2@.len(),
            n <= s1@.len(),
            b + n <= e,
            common_prefix_spec(s1@, s2@.subrange(b as int, e as int)) == n + common_prefix_spec(
                s1@.skip(n as int),
                s2@.subrange(b + n, e as int),
            ),
        decreases s1@.len() - n,
    {
        proof {
            assert(s1@.skip(n as int).drop_first() =~= s1@.skip(n + 1));
            assert(s2@.subrange(b + n, e as int).drop_first() =~= s2@.subrange(b + n + 1, e as int));
        }
        n = n + 1;
    }
    n
}

/// A piece of a route's path pattern: static text (a range of the pattern's
/// characters) or a parameter.
pub struct PathSegment {
    pub start: usize,
    pub end: usize,
    pub param_type: ParamType,
}

/// The position of the first `c` in `s`, or its length when there is none.
pub open spec fn find_char(s: Seq<char>, c: char) -> int
    decreases s.len(),
{
    if s.len() == 0 {
        0
    } else if s[0] == c {
        0
    } else {
        1 + find_char(s.drop_first(), c)
    }
}

/// The position of the first `:` or `*` in `s`, or its length when there is
/// none.
pub open spec fn find_param_start(s: Seq<char>) -> int
    decreases s.len(),
{
    if s.len() == 0 {
        0
    } else if s[0] == ':' || s[0] == '*' {
        0
    } else {
        1 + find_param_start(s.drop_first())
    }
}

pub proof fn lemma_find_char(s: Seq<char>, c: char)
    ensures
        0 <= find_char(s, c) <= s.len(),
        forall|i: int| 0 <= i < find_char(s, c) ==> s[i] != c,
        find_char(s, c) < s.len() ==> s[find_char(s, c)] == c,
    decreases s.len(),
{
    if s.len() > 0 && s[0] != c {
        lemma_find_char(s.drop_first(), c);
        assert forall|i: int| 0 <= i < find_char(s, c) implies s[i] != c by {
            if i > 0 {
                assert(s[i] == s.drop_first()[i - 1]);
            }
        }
    }
}

pub proof fn lemma_find_param_start(s: Seq<char>)
    ensures
        0 <= find_param_start(s) <= s.len(),
        forall|i: int| 0 <= i < find_param_start(s) ==> s[i] != ':' && s[i] != '*',
        find_param_start(s) < s.len() ==> (s[find_param_start(s)] == ':' || s[find_param_start(s)]
            == '*'),
    decreases s.len(),
{
    if s.len() > 0 && !(s[0] == ':' || s[0] == '*') {
        lemma_find_param_start(s.drop_first());
        assert forall|i: int| 0 <= i < find_param_start(s) implies s[i] != ':' && s[i] != '*' by {
            if i > 0 {
                assert(s[i] == s.drop_first()[i - 1]);
            }
        }
    }
}

/// Finds `c` in `s[from..]`: its position there, or what is left of `s`.
fn find_char_from(s: &Vec<char>, from: usize, c: char) -> (n: usize)
    requires
        from <= s@.len(),
    ensures
        n == find_char(s@.skip(from as int), c),
{
    proof {
        lemma_find_char(s@.skip(from as int), c);
    }
    let len = s.len();
    let mut n: usize = 0;
    while from + n < len && s[from + n] != c
        invariant
            len == s@.len(),
            from <= s@.len(),
            from + n <= s@.len(),
            find_char(s@.skip(from as int), c) == n + find_char(s@.skip(from + n), c),
        decreases s@.len() - from - n,
    {
        proof {
            assert(s@.skip(from + n).drop_first() =~= s@.skip(from + n + 1));
        }
        n = n + 1;
    }
    n
}

/// Finds the next `:` or `*` in `s[from..]`: its position there, or what is
/// left of `s`.
fn find_param_start_from(s: &Vec<char>, from: usize) -> (n: usize)
    requires
        from <= s@.len(),
    ensures
        n == find_param_start(s@.skip(from as int)),
{
    let len = s.len();
    let mut n: usize = 0;
    while from + n < len && s[from + n] != ':' && s[from + n] != '*'
        invariant
            len == s@.len(),
            from <= s@.len(),
            from + n <= s@.len(),
            find_param_start(s@.skip(from as int)) == n + find_param_start(s@.skip(from + n)),
        decreases s@.len() - from - n,
    {
        proof {
            assert(s@.skip(from + n).drop_first() =~= s@.skip(from + n + 1));
        }
        n = n + 1;
    }
    n
}

/// A pattern segment as a value: static text, or a parameter or catch-all
/// with its name.  Kind 0 is static, 1 parameter, 2 catch-all.
pub type SegView = (int, Seq<char>);

/// The segments of the pattern `p` (read from position 0): static text up to
/// the next `:` or `*`; after a `:`, a parameter named up to the next `/`;
/// after a `*`, a catch-all named by the rest, which ends the pattern.
pub open spec fn parse_spec(p: Seq<char>) -> Seq<SegView>
    decreases p.len(),
{
    if p.len() == 0 {
        seq![]
    } else {
        let k = find_param_start(p);
        proof {
            lemma_find_param_start(p);
            lemma_find_char(p, '/');
        }
        if k > 0 {
            seq![(0int, p.take(k))] + parse_spec(p.skip(k))
        } else if p[0] == ':' {
            let e = find_char(p, '/');
            seq![(1int, p.subrange(1, e))] + parse_spec(p.skip(e))
        } else {
            seq![(2int, p.skip(1))]
        }
    }
}

/// The segments a pattern is made of, as values.
pub open spec fn segments_view(segs: Seq<PathSegment>, p: Seq<char>) -> Seq<SegView> {
    Seq::new(
        segs.len(),
        |i: int|
            match segs[i].param_type {
                ParamType::Static => (0int, p.subrange(segs[i].start as int, segs[i].end as int)),
                ParamType::Named(n) => (1int, n@),
                ParamType::CatchAll(n) => (2int, n@),
            },
    )
}

/// Splits the pattern `path` into segments, as `parse_spec` says.  Static
/// segments are held as ranges of the pattern's characters.
pub fn parse_path(path: &str) -> (segs: Vec<PathSegment>)
    ensures
        segments_view(segs@, path@) == parse_spec(path@),
        forall|i: int|
            0 <= i < segs@.len() ==> (#[trigger] segs@[i]).param_type == ParamType::Static ==> segs@[i].start
                < segs@[i].end <= path@.len(),
{
    let chars = to_chars(path);
    let n = chars.len();
    let mut segments: Vec<PathSegment> = Vec::new();
    let mut current_idx: usize = 0;
    proof {
        assert(chars@.skip(0) =~= chars@);
    }
    while current_idx < n
        invariant
            n == chars@.len(),
            chars@ == path@,
            current_idx <= n,
            segments_view(segments@, path@) + parse_spec(chars@.skip(current_idx as int))
                == parse_spec(path@),
            forall|i: int|
                0 <= i < segments@.len() ==> (#[trigger] segments@[i]).param_type == ParamType::Static
                    ==> segments@[i].start < segments@[i].end <= path@.len(),
        decreases n - current_idx,
    {
        let ghost rest = chars@.skip(current_idx as int);
        let ghost before = segments@;
        proof {
            lemma_find_param_start(rest);
        }
        let next_param_start = find_param_start_from(&chars, current_idx);
        if next_param_start > 0 {
            segments.push(
                PathSegment {
                    start: current_idx,
                    end: current_idx + next_param_start,
                    param_type: ParamType::Static,
                },
            );
            proof {
                assert(path@.subrange(current_idx as int, current_idx + next_param_start) =~= rest.take(
                    next_param_start as int,
                ));
                assert(segments_view(segments@, path@) =~= segments_view(before, path@) + seq![
                    (0int, rest.take(next_param_start as int)),
                ]);
                assert(rest.skip(next_param_start as int) =~= chars@.skip(
                    current_idx + next_param_start,
                ));
            }
            current_idx = current_idx + next_param_start;
            proof {
                assert(segments_view(segments@, path@) + parse_spec(chars@.skip(current_idx as int))
                    =~= segments_view(before, path@) + parse_spec(rest));
            }
        }
        if current_idx < n {
            let ghost rest2 = chars@.skip(current_idx as int);
            let ghost before2 = segments@;
            proof {
                lemma_find_param_start(rest2);
                assert(find_param_start(rest2) == 0);
            }
            if chars[current_idx] == ':' {
                let end_offset = find_char_from(&chars, current_idx, '/');
                proof {
                    lemma_find_char(rest2, '/');
                }
                let name = String::from_str(path.substring_char(current_idx + 1, current_idx + end_offset));
                segments.push(PathSegment { start: 0, end: 0, param_type: ParamType::Named(name) });
                proof {
                    assert(name@ =~= rest2.subrange(1, end_offset as int));
                    assert(segments_view(segments@, path@) =~= segments_view(before2, path@) + seq![
                        (1int, rest2.subrange(1, end_offset as int)),
                    ]);
                    assert(rest2.skip(end_offset as int) =~= chars@.skip(current_idx + end_offset));
                }
                current_idx = current_idx + end_offset;
                proof {
                    assert(segments_view(segments@, path@) + parse_spec(chars@.skip(current_idx as int))
                        =~= segments_view(before2, path@) + parse_spec(rest2));
                }
            } else {
                let name = String::from_str(path.substring_char(current_idx + 1, n));
                segments.push(PathSegment { start: 0, end: 0, param_type: ParamType::CatchAll(name) });
                proof {
                    assert(name@ =~= rest2.skip(1));
                    assert(segments_view(segments@, path@) =~= segments_view(before2, path@) + seq![
                        (2int, rest2.skip(1)),
                    ]);
                    assert(segments_view(segments@, path@) =~= parse_spec(path@));
                }
                return segments;
            }
        }
    }
    proof {
        assert(chars@.skip(current_idx as int) =~= Seq::<char>::empty());
        assert(segments_view(segments@, path@) =~= parse_spec(path@));
    }
    segments
}

/// Whether route `r` answers method `m`: it lists `m`, or lists nothing.
pub open spec fn accepts<T>(r: Route<T>, m: Method) -> bool {
    r.methods@.len() == 0 || holds_method(r.methods@, m)
}

/// The first of `routes[i..]` that answers `m`.
pub open spec fn first_route_from<T>(routes: Seq<Route<T>>, m: Method, i: int) -> Option<Route<T>>
    decreases routes.len() - i,
{
    if i < 0 || i >= routes.len() {
        None
    } else if accepts(routes[i], m) {
        Some(routes[i])
    } else {
        first_route_from(routes, m, i + 1)
    }
}

/// What node `node` takes of `path` on the way down: `None` when it does
/// not match, else what is left of the path and the parameters it captures.
/// Static text must start the path; a parameter takes the text up to the next
/// `/`, and must not be empty; a catch-all takes all of it.
pub open spec fn consume_spec<T>(node: TrieNode<T>, path: Seq<char>) -> Option<(Seq<char>, ParamsView)> {
    match node.param_type {
        ParamType::Static => {
            let n = node.prefix@.len();
            if n <= path.len() && path.take(n as int) == node.prefix@ {
                Some((path.skip(n as int), Seq::empty()))
            } else {
                None
            }
        },
        ParamType::Named(name) => {
            let e = find_char(path, '/');
            if e == 0 {
                None
            } else {
                Some((path.skip(e), seq![(name@, path.take(e))]))
            }
        },
        ParamType::CatchAll(name) => Some((Seq::empty(), seq![(name@, path)])),
    }
}

/// The route a lookup of `path` with method `m` finds from `node` on, with
/// the parameters captured on the way: `node` takes its part of the path, as
/// `consume_spec` says, and the rest is looked up below it.
pub open spec fn match_spec<T>(node: TrieNode<T>, path: Seq<char>, m: Method) -> Option<(Route<T>, ParamsView)>
    decreases node, 5int, 0int,
{
    match consume_spec(node, path) {
        None => None,
        Some((rest, cap)) => match below_spec(node, rest, m) {
            Some((r, ps)) => Some((r, cap + ps)),
            None => None,
        },
    }
}

/// What is left of the path, `rest`, looked up at `node` once the node has
/// taken its part: the node's own first route that answers `m` when the
/// path is used up, else the first match among its static children, then
/// its parameter children, then its catch-all children, each kind in the
/// order the children are held.
pub open spec fn below_spec<T>(node: TrieNode<T>, rest: Seq<char>, m: Method) -> Option<(Route<T>, ParamsView)>
    decreases node, 4int, 0int,
{
    let here = if rest.len() == 0 {
        first_route_from(node.routes@, m, 0)
    } else {
        None
    };
    match here {
        Some(r) => Some((r, Seq::empty())),
        None => children_spec(node, rest, m, 0, 0),
    }
}

/// The first match for `rest` among the children of `node` of kind `kind`
/// from index `i` on, then among those of the later kinds.
pub open spec fn children_spec<T>(node: TrieNode<T>, rest: Seq<char>, m: Method, kind: int, i: int) -> Option<(Route<T>, ParamsView)>
    decreases node, 3 - kind, node.children@.len() - i,
{
    if kind < 0 || kind > 2 || i < 0 {
        None
    } else if i >= node.children@.len() {
        children_spec(node, rest, m, kind + 1, 0)
    } else if kind_of(node.children@[i].param_type) == kind {
        match match_spec(node.children@[i], rest, m) {
            Some(found) => Some(found),
            None => children_spec(node, rest, m, kind, i + 1),
        }
    } else {
        children_spec(node, rest, m, kind, i + 1)
    }
}

/// The string an optional string holds, as a value.
pub open spec fn opt_chars(o: Option<String>) -> Option<Seq<char>> {
    match o {
        Some(s) => Some(s@),
        None => None,
    }
}

/// Whether `s` starts with `/`.
pub open spec fn starts_with_slash(s: Seq<char>) -> bool {
    s.len() > 0 && s[0] == '/'
}

/// Whether `s` ends with `/`.
pub open spec fn ends_with_slash(s: Seq<char>) -> bool {
    s.len() > 0 && s.last() == '/'
}

/// `path` with `strip` taken off its front when it starts with it, put back
/// under a leading `/`.
pub open spec fn strip_spec(path: Seq<char>, strip: Seq<char>) -> Seq<char> {
    if strip.len() <= path.len() && path.take(strip.len() as int) == strip {
        let q = path.skip(strip.len() as int);
        if starts_with_slash(q) {
            q
        } else {
            seq!['/'] + q
        }
    } else {
        path
    }
}

/// `add` put in front of `path`, with one `/` between them.
pub open spec fn add_spec(path: Seq<char>, add: Seq<char>) -> Seq<char> {
    let t = if starts_with_slash(path) && ends_with_slash(add) {
        path.skip(1)
    } else {
        path
    };
    if !starts_with_slash(t) && !ends_with_slash(add) {
        add + seq!['/'] + t
    } else {
        add + t
    }
}

/// The path forwarded upstream for a route with these prefixes: `None`
/// when it has neither, else `path` stripped, then prefixed.
pub open spec fn rewrite_spec(path: Seq<char>, strip: Option<Seq<char>>, add: Option<Seq<char>>) -> Option<Seq<char>> {
    if strip is None && add is None {
        None
    } else {
        let p1 = match strip {
            Some(s) => strip_spec(path, s),
            None => path,
        };
        Some(
            match add {
                Some(a) => add_spec(p1, a),
                None => p1,
            },
        )
    }
}

/// Whether `s` starts with the characters of `p` from position `from`.
fn starts_with_at(s: &Vec<char>, from: usize, p: &Vec<char>) -> (b: bool)
    requires
        from <= s@.len(),
    ensures
        b == (p@.len() <= s@.len() - from && s@.skip(from as int).take(p@.len() as int) == p@),
{
    if p.len() > s.len() - from {
        return false;
    }
    let sl = s.len();
    let mut i: usize = 0;
    while i < p.len()
        invariant
            sl == s@.len(),
            from <= s@.len(),
            p@.len() <= s@.len() - from,
            i <= p@.len(),
            forall|j: int| 0 <= j < i ==> s@[from + j] == p@[j],
        decreases p@.len() - i,
    {
        if s[from + i] != p[i] {
            assert(s@.skip(from as int).take(p@.len() as int)[i as int] != p@[i as int]);
            return false;
        }
        i = i + 1;
    }
    assert(s@.skip(from as int).take(p@.len() as int) =~= p@);
    true
}

/// Whether the route answers the method, as `accepts` says.
fn route_accepts<T>(r: &Route<T>, m: &Method) -> (b: bool)
    ensures
        b == accepts(*r, *m),
{
    r.methods.len() == 0 || contains_method(&r.methods, m)
}

proof fn lemma_first_route_skip<T>(routes: Seq<Route<T>>, m: Method, i: int)
    requires
        0 <= i <= routes.len(),
        forall|j: int| 0 <= j < i ==> !accepts(#[trigger] routes[j], m),
    ensures
        first_route_from(routes, m, 0) == first_route_from(routes, m, i),
    decreases i,
{
    if i > 0 {
        lemma_first_route_skip(routes, m, i - 1);
    }
}

impl<T> RadixTrie<T> {
    /// The trie's root, which holds a route for the empty path and whose
    /// children hold the rest.
    pub closed spec fn root_spec(&self) -> TrieNode<T> {
        self.root
    }

    /// The trie stays well formed.
    #[verifier::type_invariant]
    spec fn inv(self) -> bool {
        trie_wf(self.root)
    }

    /// Registers a route at the pattern `path`: static text, `:name` for one
    /// path segment, `*name` for the rest of the path.  The route answers
    /// `methods` (all methods when empty) and rewrites the forwarded path by
    /// the given prefixes.  The route goes where `ins_rel` says, after any
    /// route registered there before.
    pub fn insert(
        &mut self,
        path: &str,
        methods: Vec<Method>,
        value: T,
        strip_prefix: Option<String>,
        add_prefix: Option<String>,
    )
        ensures
            trie_wf(final(self).root_spec()),
            ins_rel(
                old(self).root_spec(),
                parse_spec(path@),
                Seq::empty(),
                (Route { value, methods, strip_prefix, add_prefix }),
                final(self).root_spec(),
            ),
    {
        proof {
            use_type_invariant(&*self);
        }
        let route = Route { value, methods, strip_prefix, add_prefix };
        let segs = parse_path(path);
        let chars = to_chars(path);
        let mut root: TrieNode<T> = TrieNode::default();
        std::mem::swap(&mut root, &mut self.root);
        let ghost old_root = root;
        insert_rec(&mut root, path, &chars, &segs, 0, 0, 0, route);
        proof {
            assert(chars@.subrange(0, 0) =~= Seq::<char>::empty());
            assert(segments_view(segs@, path@).skip(0) =~= parse_spec(path@));
            lemma_ins_wf(old_root, parse_spec(path@), Seq::empty(), route, root);
        }
        self.root = root;
    }

    /// An empty trie: a static root with no prefix, no route and no child.
    pub fn new() -> (t: Self)
        ensures
            trie_wf(t.root_spec()),
            t.root_spec().prefix@ == Seq::<char>::empty(),
            t.root_spec().routes@ == Seq::<Route<T>>::empty(),
            t.root_spec().children@ == Seq::<TrieNode<T>>::empty(),
            t.root_spec().param_type == ParamType::Static,
    {
        RadixTrie { root: TrieNode::default() }
    }

    /// The trie's root node.
    pub fn root(&self) -> (n: &TrieNode<T>)
        ensures
            *n == self.root_spec(),
    {
        &self.root
    }

    /// Looks up `path` for `method`: the value of the route found, the
    /// parameters it captures, and the path rewritten by the route's
    /// prefixes when it has any.
    pub fn lookup<'a>(&'a self, method: &Method, path: &str) -> (r: Option<RouteMatch<'a, T>>)
        ensures
            match match_spec(self.root_spec(), path@, *method) {
                None => r is None,
                Some((route, ps)) => r matches Some(rm) && *rm.value == route.value && params_items(
                    rm.params,
                ) == ps && opt_chars(rm.rewritten_path) == rewrite_spec(
                    path@,
                    opt_chars(route.strip_prefix),
                    opt_chars(route.add_prefix),
                ),
            },
    {
        let chars = to_chars(path);
        let mut params = Params::new();
        proof {
            assert(chars@.skip(0) =~= path@);
        }
        match match_node(&self.root, path, &chars, 0, method, &mut params) {
            None => None,
            Some(route) => {
                proof {
                    assert(params_items(params).skip(0) =~= params_items(params));
                }
                let rewritten_path = rewrite_path(path, &route.strip_prefix, &route.add_prefix);
                Some(RouteMatch { value: &route.value, params, rewritten_path })
            },
        }
    }
}

/// Whether `s` starts with `/`.
fn str_starts_with_slash(s: &str) -> (b: bool)
    ensures
        b == starts_with_slash(s@),
{
    s.unicode_len() > 0 && s.get_char(0) == '/'
}

/// Whether `s` ends with `/`.
fn str_ends_with_slash(s: &str) -> (b: bool)
    ensures
        b == ends_with_slash(s@),
{
    let n = s.unicode_len();
    n > 0 && s.get_char(n - 1) == '/'
}

/// `path` with `strip` taken off, as `strip_spec` says.
fn strip_path(path: &str, strip: &str) -> (p: String)
    ensures
        p@ == strip_spec(path@, strip@),
{
    let pc = to_chars(path);
    let sc = to_chars(strip);
    proof {
        assert(pc@.skip(0) =~= pc@);
    }
    if starts_with_at(&pc, 0, &sc) {
        let q = path.substring_char(sc.len(), pc.len());
        proof {
            assert(q@ =~= path@.skip(strip@.len() as int));
        }
        if str_starts_with_slash(q) {
            String::from_str(q)
        } else {
            let p = String::from_str("/").concat(q);
            proof {
                reveal_strlit("/");
                assert(p@ =~= seq!['/'] + q@);
            }
            p
        }
    } else {
        String::from_str(path)
    }
}

/// `add` put in front of `path`, as `add_spec` says.
fn add_path(path: &str, add: &str) -> (p: String)
    ensures
        p@ == add_spec(path@, add@),
{
    let t = if str_starts_with_slash(path) && str_ends_with_slash(add) {
        path.substring_char(1, path.unicode_len())
    } else {
        path
    };
    proof {
        if starts_with_slash(path@) && ends_with_slash(add@) {
            assert(t@ =~= path@.skip(1));
        }
    }
    if !str_starts_with_slash(t) && !str_ends_with_slash(add) {
        let p = String::from_str(add).concat("/").concat(t);
        proof {
            reveal_strlit("/");
            assert(p@ =~= add@ + seq!['/'] + t@);
        }
        p
    } else {
        String::from_str(add).concat(t)
    }
}

/// The path a route forwards, as `rewrite_spec` says.
fn rewrite_path(path: &str, strip: &Option<String>, add: &Option<String>) -> (r: Option<String>)
    ensures
        opt_chars(r) == rewrite_spec(path@, opt_chars(*strip), opt_chars(*add)),
{
    if strip.is_none() && add.is_none() {
        return None;
    }
    let p1 = match strip {
        Some(s) => strip_path(path, s.as_str()),
        None => String::from_str(path),
    };
    match add {
        Some(a) => Some(add_path(p1.as_str(), a.as_str())),
        None => Some(p1),
    }
}

/// Matches `path[from..]` (whose characters are `chars`) below `node`, as
/// `match_spec` says, pushing the parameters captured onto `params`.  When
/// nothing matches, `params` keeps what it held, plus at most what the
/// node itself captured (never anything for a static node).
fn match_node<'a, T>(
    node: &'a TrieNode<T>,
    path: &str,
    chars: &Vec<char>,
    from: usize,
    method: &Method,
    params: &mut Params,
) -> (r: Option<&'a Route<T>>)
    requires
        from <= chars@.len(),
        chars@ == path@,
    ensures
        params_items(*final(params)).len() >= params_items(*old(params)).len(),
        params_items(*final(params)).take(params_items(*old(params)).len() as int) == params_items(
            *old(params),
        ),
        match r {
            Some(route) => match_spec(*node, chars@.skip(from as int), *method) == Some(
                (*route, params_items(*final(params)).skip(params_items(*old(params)).len() as int)),
            ),
            None => match_spec(*node, chars@.skip(from as int), *method) is None && (
            node.param_type is Static ==> params_items(*final(params)) == params_items(
                *old(params),
            )),
        },
    decreases *node,
{
    let ghost path_v = chars@.skip(from as int);
    let ghost p0 = params_items(*params);
    let n = chars.len();
    let rf: usize;
    match &node.param_type {
        ParamType::Static => {
            let pc = to_chars(node.prefix.as_str());
            if !starts_with_at(chars, from, &pc) {
                return None;
            }
            rf = from + pc.len();
            proof {
                assert(path_v.skip(node.prefix@.len() as int) =~= chars@.skip(rf as int));
            }
        },
        ParamType::Named(name) => {
            proof {
                lemma_find_char(path_v, '/');
            }
            let e = find_char_from(chars, from, '/');
            if e == 0 {
                return None;
            }
            let val = String::from_str(path.substring_char(from, from + e));
            params.push(name.clone(), val);
            rf = from + e;
            proof {
                assert(val@ =~= path_v.take(e as int));
                assert(path_v.skip(e as int) =~= chars@.skip(rf as int));
            }
        },
        ParamType::CatchAll(name) => {
            let val = String::from_str(path.substring_char(from, n));
            params.push(name.clone(), val);
            rf = n;
            proof {
                assert(val@ =~= path_v);
                assert(chars@.skip(rf as int) =~= Seq::<char>::empty());
            }
        },
    }
    let plen = params.len();
    let ghost rest = chars@.skip(rf as int);
    let ghost p1 = params_items(*params);
    let ghost cap = p1.skip(p0.len() as int);
    proof {
        assert(consume_spec(*node, path_v) == Some((rest, cap)));
        assert(p1.take(p0.len() as int) =~= p0);
        assert(node.param_type is Static ==> p1 =~= p0);
    }
    if rf == n {
        let mut j: usize = 0;
        while j < node.routes.len()
            invariant
                j <= node.routes@.len(),
                forall|k: int| 0 <= k < j ==> !accepts(#[trigger] node.routes@[k], *method),
                params_items(*params) == p1,
                p0 == params_items(*old(params)),
                p1.len() >= p0.len(),
                p1.take(p0.len() as int) == p0,
                cap == p1.skip(p0.len() as int),
                rest.len() == 0,
                path_v == chars@.skip(from as int),
                consume_spec(*node, path_v) == Some((rest, cap)),
            decreases node.routes@.len() - j,
        {
            if route_accepts(&node.routes[j], method) {
                proof {
                    lemma_first_route_skip(node.routes@, *method, j as int);
                    assert(cap + Seq::<(Seq<char>, Seq<char>)>::empty() =~= cap);
                }
                return Some(&node.routes[j]);
            }
            j = j + 1;
        }
        proof {
            lemma_first_route_skip(node.routes@, *method, j as int);
        }
    }
    proof {
        assert(rest.len() == 0 ==> first_route_from(node.routes@, *method, 0) is None) by {
            if rest.len() == 0 {
                assert(rf == n);
            }
        }
    }
    // static children, then parameters, then catch-alls
    let mut kind: u8 = 0;
    while kind < 3
        invariant
            0 <= kind <= 3,
            rf <= chars@.len(),
            chars@ == path@,
            rest == chars@.skip(rf as int),
            children_spec(*node, rest, *method, 0, 0) == children_spec(*node, rest, *method, kind as int, 0),
            params_items(*params) == p1,
            plen == p1.len(),
            p0 == params_items(*old(params)),
            p1.len() >= p0.len(),
            p1.take(p0.len() as int) == p0,
            cap == p1.skip(p0.len() as int),
            path_v == chars@.skip(from as int),
            consume_spec(*node, path_v) == Some((rest, cap)),
            rest.len() == 0 ==> first_route_from(node.routes@, *method, 0) is None,
        decreases 3 - kind,
    {
        let mut i: usize = 0;
        while i < node.children.len()
            invariant
                0 <= kind < 3,
                i <= node.children@.len(),
                rf <= chars@.len(),
                chars@ == path@,
                rest == chars@.skip(rf as int),
                children_spec(*node, rest, *method, 0, 0) == children_spec(*node, rest, *method, kind as int, i as int),
                params_items(*params) == p1,
                plen == p1.len(),
                p0 == params_items(*old(params)),
                p1.len() >= p0.len(),
                p1.take(p0.len() as int) == p0,
                cap == p1.skip(p0.len() as int),
                path_v == chars@.skip(from as int),
                consume_spec(*node, path_v) == Some((rest, cap)),
                rest.len() == 0 ==> first_route_from(node.routes@, *method, 0) is None,
            decreases node.children@.len() - i,
        {
            let child = &node.children[i];
            if child.param_type.kind() == kind {
                let ghost before = params_items(*params);
                match match_node(child, path, chars, rf, method, params) {
                    Some(route) => {
                        proof {
                            let after = params_items(*params);
                            assert(after.skip(p0.len() as int) =~= cap + after.skip(p1.len() as int));
                            assert(after.take(p0.len() as int) =~= p0);
                        }
                        return Some(route);
                    },
                    None => {
                        params.truncate(plen);
                        proof {
                            assert(params_items(*params) =~= p1);
                        }
                    },
                }
            }
            i = i + 1;
        }
        kind = kind + 1;
    }
    proof {
        assert(children_spec(*node, rest, *method, 3, 0) is None);
    }
    None
}

/// The name a node kind carries (empty for static text).
pub open spec fn param_name(p: ParamType) -> Seq<char> {
    match p {
        ParamType::Static => Seq::empty(),
        ParamType::Named(n) => n@,
        ParamType::CatchAll(n) => n@,
    }
}

/// Whether node kind `p` is the parameter or catch-all that segment `seg`
/// describes.
pub open spec fn param_is(p: ParamType, seg: SegView) -> bool {
    kind_of(p) == seg.0 && param_name(p) == seg.1
}

/// The index of the first of `children[i..]` that holds static text starting
/// with `c`, or the number of children when none does.
pub open spec fn static_child_from<T>(children: Seq<TrieNode<T>>, c: char, i: int) -> int
    decreases children.len() - i,
{
    if i < 0 || i >= children.len() {
        children.len() as int
    } else if children[i].param_type is Static && children[i].prefix@.len() > 0
        && children[i].prefix@[0] == c {
        i
    } else {
        static_child_from(children, c, i + 1)
    }
}

/// The index of the first of `children[i..]` that is the parameter or
/// catch-all `seg` describes, or the number of children when none is.
pub open spec fn param_child_from<T>(children: Seq<TrieNode<T>>, seg: SegView, i: int) -> int
    decreases children.len() - i,
{
    if i < 0 || i >= children.len() {
        children.len() as int
    } else if param_is(children[i].param_type, seg) {
        i
    } else {
        param_child_from(children, seg, i + 1)
    }
}

/// Whether `n` is a new leaf: the given prefix and kind, no route, no child.
pub open spec fn fresh_node<T>(n: TrieNode<T>, prefix: Seq<char>) -> bool {
    &&& n.prefix@ == prefix
    &&& n.routes@.len() == 0
    &&& n.children@.len() == 0
}

/// Whether `mid` is static child `ch` cut after its first `l` characters:
/// `mid` keeps those (taken from `text`), and its one child, the rest of
/// `ch`'s prefix, takes over `ch`'s routes and children.
pub open spec fn split_of<T>(ch: TrieNode<T>, l: int, text: Seq<char>, mid: TrieNode<T>) -> bool {
    &&& mid.prefix@ == text.take(l)
    &&& mid.param_type == ParamType::Static
    &&& mid.routes@.len() == 0
    &&& mid.children@.len() == 1
    &&& mid.children@[0].prefix@ == ch.prefix@.skip(l)
    &&& mid.children@[0].param_type == ParamType::Static
    &&& mid.children@[0].routes == ch.routes
    &&& mid.children@[0].children == ch.children
}

pub proof fn lemma_static_child_from<T>(children: Seq<TrieNode<T>>, c: char, i: int)
    requires
        0 <= i <= children.len(),
    ensures
        i <= static_child_from(children, c, i) <= children.len(),
        forall|j: int|
            i <= j < static_child_from(children, c, i) ==> !(children[j].param_type is Static
                && children[j].prefix@.len() > 0 && #[trigger] children[j].prefix@[0] == c),
        static_child_from(children, c, i) < children.len() ==> {
            let k = static_child_from(children, c, i);
            &&& children[k].param_type is Static
            &&& children[k].prefix@.len() > 0
            &&& children[k].prefix@[0] == c
        },
    decreases children.len() - i,
{
    if i < children.len() {
        lemma_static_child_from(children, c, i + 1);
    }
}

pub proof fn lemma_param_child_from<T>(children: Seq<TrieNode<T>>, seg: SegView, i: int)
    requires
        0 <= i <= children.len(),
    ensures
        i <= param_child_from(children, seg, i) <= children.len(),
        forall|j: int|
            i <= j < param_child_from(children, seg, i) ==> !param_is(
                #[trigger] children[j].param_type,
                seg,
            ),
        param_child_from(children, seg, i) < children.len() ==> param_is(
            children[param_child_from(children, seg, i)].param_type,
            seg,
        ),
    decreases children.len() - i,
{
    if i < children.len() {
        lemma_param_child_from(children, seg, i + 1);
    }
}

/// Two sequences that start with the same character have at least that one
/// in common.
pub proof fn lemma_common_prefix_positive(s1: Seq<char>, s2: Seq<char>)
    requires
        s1.len() > 0,
        s2.len() > 0,
        s1[0] == s2[0],
    ensures
        common_prefix_spec(s1, s2) >= 1,
{
}

/// Whether `out` is `c` with a route inserted along the pattern segments
/// `segs`, after the static text `text` that is still to be placed.  Static
/// text goes into the first static child that starts with its first
/// character, which is cut where the two part when the text leaves it early,
/// or else into a new static child at the end; a parameter or catch-all goes
/// into the first child that is that same parameter, or else into a new one
/// at the end; the route goes at the end of the routes of the node reached.
pub open spec fn ins_rel<T>(c: TrieNode<T>, segs: Seq<SegView>, text: Seq<char>, route: Route<T>, out: TrieNode<T>) -> bool
    decreases segs.len(), text.len(),
    via ins_rel_decreases::<T>
{
    &&& out.prefix == c.prefix
    &&& out.param_type == c.param_type
    &&& if text.len() > 0 {
        let i = static_child_from(c.children@, text[0], 0);
        &&& out.routes == c.routes
        &&& if i < c.children@.len() {
            let ch = c.children@[i];
            let l = common_prefix_spec(ch.prefix@, text);
            &&& out.children@.len() == c.children@.len()
            &&& forall|j: int|
                0 <= j < c.children@.len() && j != i ==> out.children@[j] == c.children@[j]
            &&& if l < ch.prefix@.len() {
                exists|mid: TrieNode<T>|
                    #[trigger] split_of(ch, l as int, text, mid) && ins_rel(
                        mid,
                        segs,
                        text.skip(l as int),
                        route,
                        out.children@[i],
                    )
            } else {
                ins_rel(ch, segs, text.skip(l as int), route, out.children@[i])
            }
        } else {
            &&& out.children@.len() == c.children@.len() + 1
            &&& forall|j: int| 0 <= j < c.children@.len() ==> out.children@[j] == c.children@[j]
            &&& exists|n: TrieNode<T>|
                #[trigger] fresh_node(n, text) && n.param_type == ParamType::Static && ins_rel(
                    n,
                    segs,
                    Seq::empty(),
                    route,
                    out.children@[c.children@.len() as int],
                )
        }
    } else if segs.len() == 0 {
        &&& out.routes@ == c.routes@.push(route)
        &&& out.children == c.children
    } else if segs[0].0 == 0 {
        ins_rel(c, segs.drop_first(), segs[0].1, route, out)
    } else {
        let i = param_child_from(c.children@, segs[0], 0);
        &&& out.routes == c.routes
        &&& if i < c.children@.len() {
            &&& out.children@.len() == c.children@.len()
            &&& forall|j: int|
                0 <= j < c.children@.len() && j != i ==> out.children@[j] == c.children@[j]
            &&& ins_rel(c.children@[i], segs.drop_first(), Seq::empty(), route, out.children@[i])
        } else {
            &&& out.children@.len() == c.children@.len() + 1
            &&& forall|j: int| 0 <= j < c.children@.len() ==> out.children@[j] == c.children@[j]
            &&& exists|n: TrieNode<T>|
                #[trigger] fresh_node(n, Seq::empty()) && param_is(n.param_type, segs[0]) && ins_rel(
                    n,
                    segs.drop_first(),
                    Seq::empty(),
                    route,
                    out.children@[c.children@.len() as int],
                )
        }
    }
}

/// `ins_rel` in the case where static text goes into an existing child:
/// from the facts about the child that took it.
proof fn lemma_ins_into_static_child<T>(
    c: TrieNode<T>,
    segs: Seq<SegView>,
    text: Seq<char>,
    route: Route<T>,
    out: TrieNode<T>,
    i: int,
    mid: TrieNode<T>,
)
    requires
        text.len() > 0,
        i == static_child_from(c.children@, text[0], 0),
        0 <= i < c.children@.len(),
        out.prefix == c.prefix,
        out.param_type == c.param_type,
        out.routes == c.routes,
        out.children@.len() == c.children@.len(),
        forall|j: int| 0 <= j < c.children@.len() && j != i ==> out.children@[j] == c.children@[j],
        ({
            let ch = c.children@[i];
            let l = common_prefix_spec(ch.prefix@, text);
            if l < ch.prefix@.len() {
                split_of(ch, l as int, text, mid) && ins_rel(mid, segs, text.skip(l as int), route, out.children@[i])
            } else {
                ins_rel(ch, segs, text.skip(l as int), route, out.children@[i])
            }
        }),
    ensures
        ins_rel(c, segs, text, route, out),
{
    reveal_with_fuel(ins_rel, 2);
}

#[via_fn]
proof fn ins_rel_decreases<T>(c: TrieNode<T>, segs: Seq<SegView>, text: Seq<char>, route: Route<T>, out: TrieNode<T>) {
    if text.len() > 0 {
        lemma_static_child_from(c.children@, text[0], 0);
        let i = static_child_from(c.children@, text[0], 0);
        if i < c.children@.len() {
            lemma_common_prefix(c.children@[i].prefix@, text);
            lemma_common_prefix_positive(c.children@[i].prefix@, text);
        }
    }
}

/// A copy of a node kind.
fn copy_param(p: &ParamType) -> (q: ParamType)
    ensures
        q == *p,
{
    match p {
        ParamType::Static => ParamType::Static,
        ParamType::Named(n) => ParamType::Named(n.clone()),
        ParamType::CatchAll(n) => ParamType::CatchAll(n.clone()),
    }
}

/// The index of the first static child whose prefix starts with `c`, as
/// `static_child_from` says.
fn find_static_child<T>(children: &Vec<TrieNode<T>>, c: char) -> (i: usize)
    ensures
        i == static_child_from(children@, c, 0),
{
    proof {
        lemma_static_child_from(children@, c, 0);
    }
    let mut i: usize = 0;
    while i < children.len()
        invariant
            i <= children@.len(),
            static_child_from(children@, c, 0) == static_child_from(children@, c, i as int),
        decreases children@.len() - i,
    {
        let ch = &children[i];
        if ch.param_type.kind() == 0 {
            let n = ch.prefix.as_str().unicode_len();
            if n > 0 && ch.prefix.as_str().get_char(0) == c {
                return i;
            }
        }
        i = i + 1;
    }
    i
}

/// The index of the first child that is the parameter `p`, as
/// `param_child_from` says.
fn find_param_child<T>(children: &Vec<TrieNode<T>>, p: &ParamType, seg: Ghost<SegView>) -> (i: usize)
    requires
        !(p is Static),
        param_is(*p, seg@),
    ensures
        i == param_child_from(children@, seg@, 0),
{
    let mut i: usize = 0;
    while i < children.len()
        invariant
            i <= children@.len(),
            !(p is Static),
            param_is(*p, seg@),
            param_child_from(children@, seg@, 0) == param_child_from(children@, seg@, i as int),
        decreases children@.len() - i,
    {
        if children[i].param_type.same_as(p) {
            return i;
        }
        i = i + 1;
    }
    i
}

/// Inserts `route` into `node` along `segs[k..]`, after the static text
/// `pat[ts..te]`, as `ins_rel` says.
#[verifier::spinoff_prover]
fn insert_rec<T>(
    node: &mut TrieNode<T>,
    pat: &str,
    chars: &Vec<char>,
    segs: &Vec<PathSegment>,
    k: usize,
    ts: usize,
    te: usize,
    route: Route<T>,
)
    requires
        chars@ == pat@,
        k <= segs@.len(),
        ts <= te <= chars@.len(),
        forall|i: int|
            0 <= i < segs@.len() ==> (#[trigger] segs@[i]).param_type == ParamType::Static
                ==> segs@[i].start < segs@[i].end <= pat@.len(),
    ensures
        ins_rel(
            *old(node),
            segments_view(segs@, pat@).skip(k as int),
            chars@.subrange(ts as int, te as int),
            route,
            *final(node),
        ),
    decreases segs@.len() - k, te - ts,
{
    let ghost segv = segments_view(segs@, pat@).skip(k as int);
    let ghost text = chars@.subrange(ts as int, te as int);
    let ghost c = *node;
    if ts < te {
        let i = find_static_child(&node.children, chars[ts]);
        proof {
            lemma_static_child_from(node.children@, text[0], 0);
        }
        if i < node.children.len() {
            let mut ch = node.children.remove(i);
            let ghost ch0 = ch;
            let ghost mut mid_w: TrieNode<T> = ch0;
            let pc = to_chars(ch.prefix.as_str());
            let l = common_prefix_len(&pc, chars, ts, te);
            proof {
                lemma_common_prefix(ch0.prefix@, text);
                lemma_common_prefix_positive(ch0.prefix@, text);
                assert(chars@.subrange(ts + l, te as int) =~= text.skip(l as int));
            }
            if l < pc.len() {
                let mut routes: Vec<Route<T>> = Vec::new();
                std::mem::swap(&mut routes, &mut ch.routes);
                let mut kids: Vec<TrieNode<T>> = Vec::new();
                std::mem::swap(&mut kids, &mut ch.children);
                let rest_prefix = String::from_str(ch.prefix.as_str().substring_char(l, pc.len()));
                let split = TrieNode {
                    prefix: rest_prefix,
                    routes,
                    children: kids,
                    param_type: ParamType::Static,
                };
                ch.prefix = String::from_str(pat.substring_char(ts, ts + l));
                ch.children.push(split);
                let ghost mid = ch;
                proof {
                    mid_w = mid;
                    assert(mid.prefix@ =~= text.take(l as int));
                    assert(split.prefix@ =~= ch0.prefix@.skip(l as int));
                    assert(split_of(ch0, l as int, text, mid));
                }
                insert_rec(&mut ch, pat, chars, segs, k, ts + l, te, route);
                proof {
                    assert(split_of(ch0, l as int, text, mid) && ins_rel(
                        mid,
                        segv,
                        text.skip(l as int),
                        route,
                        ch,
                    ));
                }
            } else {
                proof {
                    assert(l == ch0.prefix@.len());
                }
                insert_rec(&mut ch, pat, chars, segs, k, ts + l, te, route);
            }
            node.children.insert(i, ch);
            proof {
                assert(node.children@ =~= c.children@.update(i as int, ch));
                lemma_ins_into_static_child(c, segv, text, route, *node, i as int, mid_w);

            }
        } else {
            let mut fresh = TrieNode {
                prefix: String::from_str(pat.substring_char(ts, te)),
                routes: Vec::new(),
                children: Vec::new(),
                param_type: ParamType::Static,
            };
            let ghost n0 = fresh;
            proof {
                assert(n0.prefix@ =~= text);
                assert(chars@.subrange(te as int, te as int) =~= Seq::<char>::empty());
            }
            insert_rec(&mut fresh, pat, chars, segs, k, te, te, route);
            node.children.push(fresh);
            proof {
                assert(fresh_node(n0, text) && n0.param_type == ParamType::Static && ins_rel(
                    n0,
                    segv,
                    Seq::empty(),
                    route,
                    node.children@[c.children@.len() as int],
                ));
                assert(ins_rel(c, segv, text, route, *node));
            }
        }
    } else if k == segs.len() {
        node.routes.push(route);
        proof {
            assert(segv.len() == 0);
            assert(text.len() == 0);
        }
    } else {
        let seg = &segs[k];
        proof {
            assert(segv[0] == segments_view(segs@, pat@)[k as int]);
            assert(segv.drop_first() =~= segments_view(segs@, pat@).skip(k + 1));
        }
        match &seg.param_type {
            ParamType::Static => {
                proof {
                    assert(chars@.subrange(seg.start as int, seg.end as int) =~= segv[0].1);
                }
                insert_rec(node, pat, chars, segs, k + 1, seg.start, seg.end, route);
                proof {
                    assert(ins_rel(c, segv, text, route, *node));
                }
            },
            _ => {
                let i = find_param_child(&node.children, &seg.param_type, Ghost(segv[0]));
                proof {
                    lemma_param_child_from(node.children@, segv[0], 0);
                    assert(chars@.subrange(0, 0) =~= Seq::<char>::empty());
                }
                if i < node.children.len() {
                    let mut ch = node.children.remove(i);
                    insert_rec(&mut ch, pat, chars, segs, k + 1, 0, 0, route);
                    node.children.insert(i, ch);
                    proof {
                        assert(node.children@ =~= c.children@.update(i as int, ch));
                    }
                } else {
                    let mut fresh = TrieNode {
                        prefix: String::new(),
                        routes: Vec::new(),
                        children: Vec::new(),
                        param_type: copy_param(&seg.param_type),
                    };
                    let ghost n0 = fresh;
                    insert_rec(&mut fresh, pat, chars, segs, k + 1, 0, 0, route);
                    node.children.push(fresh);
                    proof {
                        assert(fresh_node(n0, Seq::empty()) && param_is(n0.param_type, segv[0])
                            && ins_rel(
                            n0,
                            segv.drop_first(),
                            Seq::empty(),
                            route,
                            node.children@[c.children@.len() as int],
                        ));
                    }
                }
            },
        }
    }
}

/// Whether `n`'s static children each hold some text, start with different
/// characters, and are so themselves, all the way down.
pub open spec fn node_wf<T>(n: TrieNode<T>) -> bool
    decreases n,
{
    &&& forall|i: int|
        0 <= i < n.children@.len() && (#[trigger] n.children@[i]).param_type is Static
            ==> n.children@[i].prefix@.len() > 0
    &&& forall|i: int, j: int|
        0 <= i < j < n.children@.len() && (#[trigger] n.children@[i]).param_type is Static && (
        #[trigger] n.children@[j]).param_type is Static ==> n.children@[i].prefix@[0]
            != n.children@[j].prefix@[0]
    &&& forall|i: int| 0 <= i < n.children@.len() ==> node_wf(#[trigger] n.children@[i])
}

/// Whether `root` is the root of a well-formed trie: static, with no text of
/// its own, and well formed below.
pub open spec fn trie_wf<T>(root: TrieNode<T>) -> bool {
    &&& root.prefix@.len() == 0
    &&& root.param_type == ParamType::Static
    &&& node_wf(root)
}

/// Two nodes with the same children are alike well formed.
proof fn lemma_node_wf_children<T>(a: TrieNode<T>, b: TrieNode<T>)
    requires
        a.children == b.children,
    ensures
        node_wf(a) == node_wf(b),
{
}

/// Inserting keeps a node well formed.
pub proof fn lemma_ins_wf<T>(c: TrieNode<T>, segs: Seq<SegView>, text: Seq<char>, route: Route<T>, out: TrieNode<T>)
    requires
        node_wf(c),
        ins_rel(c, segs, text, route, out),
    ensures
        node_wf(out),
    decreases segs.len(), text.len(),
{
    reveal_with_fuel(ins_rel, 2);
    let n = c.children@.len();
    if text.len() > 0 {
        lemma_static_child_from(c.children@, text[0], 0);
        let i = static_child_from(c.children@, text[0], 0);
        if i < n {
            let ch = c.children@[i];
            let l = common_prefix_spec(ch.prefix@, text);
            lemma_common_prefix(ch.prefix@, text);
            lemma_common_prefix_positive(ch.prefix@, text);
            let oi = out.children@[i];
            if l < ch.prefix@.len() {
                let mid = choose|mid: TrieNode<T>|
                    #[trigger] split_of(ch, l as int, text, mid) && ins_rel(
                        mid,
                        segs,
                        text.skip(l as int),
                        route,
                        oi,
                    );
                let sc = mid.children@[0];
                lemma_node_wf_children(sc, ch);
                assert(sc.prefix@.len() > 0);
                assert(node_wf(mid));
                lemma_ins_wf(mid, segs, text.skip(l as int), route, oi);
                assert(oi.param_type == mid.param_type);
                assert(oi.prefix@ == text.take(l as int));
                assert(oi.prefix@[0] == text[0]);
            } else {
                lemma_ins_wf(ch, segs, text.skip(l as int), route, oi);
                assert(oi.param_type == ch.param_type);
            }
            assert(oi.param_type is Static);
            assert(oi.prefix@.len() > 0 && oi.prefix@[0] == ch.prefix@[0]);
            assert forall|a: int| 0 <= a < n implies node_wf(#[trigger] out.children@[a]) by {
                if a != i {
                    assert(out.children@[a] == c.children@[a]);
                }
            }
            assert forall|a: int, b: int|
                0 <= a < b < n && (#[trigger] out.children@[a]).param_type is Static && (
                #[trigger] out.children@[b]).param_type is Static implies out.children@[a].prefix@[0]
                != out.children@[b].prefix@[0] by {
                if a != i {
                    assert(out.children@[a] == c.children@[a]);
                }
                if b != i {
                    assert(out.children@[b] == c.children@[b]);
                }
            }
            assert forall|a: int|
                0 <= a < n && (#[trigger] out.children@[a]).param_type is Static implies out.children@[a].prefix@.len()
                > 0 by {
                if a != i {
                    assert(out.children@[a] == c.children@[a]);
                }
            }
        } else {
            let last = out.children@[n as int];
            let fresh = choose|f: TrieNode<T>|
                #[trigger] fresh_node(f, text) && f.param_type == ParamType::Static && ins_rel(
                    f,
                    segs,
                    Seq::empty(),
                    route,
                    last,
                );
            assert(node_wf(fresh));
            lemma_ins_wf(fresh, segs, Seq::empty(), route, last);
            assert forall|a: int| 0 <= a < n + 1 implies node_wf(#[trigger] out.children@[a]) by {
                if a < n {
                    assert(out.children@[a] == c.children@[a]);
                }
            }
            assert forall|a: int, b: int|
                0 <= a < b < n + 1 && (#[trigger] out.children@[a]).param_type is Static && (
                #[trigger] out.children@[b]).param_type is Static implies out.children@[a].prefix@[0]
                != out.children@[b].prefix@[0] by {
                assert(out.children@[a] == c.children@[a]);
                if b < n {
                    assert(out.children@[b] == c.children@[b]);
                } else {
                    assert(c.children@[a].prefix@.len() > 0);
                }
            }
            assert forall|a: int|
                0 <= a < n + 1 && (#[trigger] out.children@[a]).param_type is Static implies out.children@[a].prefix@.len()
                > 0 by {
                if a < n {
                    assert(out.children@[a] == c.children@[a]);
                }
            }
        }
    } else if segs.len() == 0 {
        lemma_node_wf_children(c, out);
    } else if segs[0].0 == 0 {
        lemma_ins_wf(c, segs.drop_first(), segs[0].1, route, out);
    } else {
        lemma_param_child_from(c.children@, segs[0], 0);
        let i = param_child_from(c.children@, segs[0], 0);
        if i < n {
            lemma_ins_wf(c.children@[i], segs.drop_first(), Seq::empty(), route, out.children@[i]);
            assert(out.children@[i].param_type == c.children@[i].param_type);
            assert(kind_of(c.children@[i].param_type) != 0);
            assert(!(out.children@[i].param_type is Static));
            assert forall|a: int| 0 <= a < n implies node_wf(#[trigger] out.children@[a]) by {
                if a != i {
                    assert(out.children@[a] == c.children@[a]);
                }
            }
            assert forall|a: int, b: int|
                0 <= a < b < n && (#[trigger] out.children@[a]).param_type is Static && (
                #[trigger] out.children@[b]).param_type is Static implies out.children@[a].prefix@[0]
                != out.children@[b].prefix@[0] by {
                assert(out.children@[a] == c.children@[a]);
                assert(out.children@[b] == c.children@[b]);
            }
            assert forall|a: int|
                0 <= a < n && (#[trigger] out.children@[a]).param_type is Static implies out.children@[a].prefix@.len()
                > 0 by {
                assert(out.children@[a] == c.children@[a]);
            }
        } else {
            let last = out.children@[n as int];
            let fresh = choose|f: TrieNode<T>|
                #[trigger] fresh_node(f, Seq::empty()) && param_is(f.param_type, segs[0]) && ins_rel(
                    f,
                    segs.drop_first(),
                    Seq::empty(),
                    route,
                    last,
                );
            assert(node_wf(fresh));
            lemma_ins_wf(fresh, segs.drop_first(), Seq::empty(), route, last);
            assert(last.param_type == fresh.param_type);
            assert(kind_of(fresh.param_type) != 0);
            assert(!(last.param_type is Static));
            assert forall|a: int| 0 <= a < n + 1 implies node_wf(#[trigger] out.children@[a]) by {
                if a < n {
                    assert(out.children@[a] == c.children@[a]);
                }
            }
            assert forall|a: int, b: int|
                0 <= a < b < n + 1 && (#[trigger] out.children@[a]).param_type is Static && (
                #[trigger] out.children@[b]).param_type is Static implies out.children@[a].prefix@[0]
                != out.children@[b].prefix@[0] by {
                assert(out.children@[a] == c.children@[a]);
                assert(out.children@[b] == c.children@[b]);
            }
            assert forall|a: int|
                0 <= a < n + 1 && (#[trigger] out.children@[a]).param_type is Static implies out.children@[a].prefix@.len()
                > 0 by {
                assert(out.children@[a] == c.children@[a]);
            }
        }
    }
}

/// A route list with a route that answers `m` has a first such route.
proof fn lemma_first_route_exists<T>(routes: Seq<Route<T>>, m: Method, k: int, i: int)
    requires
        0 <= i <= k < routes.len(),
        accepts(routes[k], m),
    ensures
        first_route_from(routes, m, i) is Some,
    decreases k - i,
{
    if i < k {
        lemma_first_route_exists(routes, m, k, i + 1);
    }
}

/// Children of the kind looked at that do not match are passed over: the
/// search from `a` finds what child `i` finds.
proof fn lemma_children_pick<T>(node: TrieNode<T>, rest: Seq<char>, m: Method, kind: int, a: int, i: int)
    requires
        0 <= kind <= 2,
        0 <= a <= i < node.children@.len(),
        forall|j: int|
            a <= j < i ==> kind_of(#[trigger] node.children@[j].param_type) != kind || match_spec(
                node.children@[j],
                rest,
                m,
            ) is None,
        kind_of(node.children@[i].param_type) == kind,
        match_spec(node.children@[i], rest, m) is Some,
    ensures
        children_spec(node, rest, m, kind, a) == match_spec(node.children@[i], rest, m),
    decreases i - a,
{
    if a < i {
        lemma_children_pick(node, rest, m, kind, a + 1, i);
    }
}

/// A static child whose text does not start with the path's first
/// character does not match it.
proof fn lemma_static_mismatch<T>(ch: TrieNode<T>, path: Seq<char>, m: Method)
    requires
        ch.param_type is Static,
        ch.prefix@.len() > 0,
        path.len() > 0,
        ch.prefix@[0] != path[0],
    ensures
        match_spec(ch, path, m) is None,
{
    if ch.prefix@.len() <= path.len() && path.take(ch.prefix@.len() as int) == ch.prefix@ {
        assert(path.take(ch.prefix@.len() as int)[0] == path[0]);
    }
}

/// After static text `text` is inserted with a route that answers `m`, a
/// lookup of `text` below the node finds a route, capturing nothing.
proof fn lemma_static_text_found<T>(c: TrieNode<T>, text: Seq<char>, route: Route<T>, out: TrieNode<T>, m: Method)
    requires
        node_wf(c),
        ins_rel(c, Seq::empty(), text, route, out),
        accepts(route, m),
    ensures
        below_spec(out, text, m) is Some,
        below_spec(out, text, m).unwrap().1 == Seq::<(Seq<char>, Seq<char>)>::empty(),
    decreases text.len(),
{
    reveal_with_fuel(ins_rel, 2);
    let n = c.children@.len();
    if text.len() == 0 {
        lemma_first_route_exists(out.routes@, m, c.routes@.len() as int, 0);
    } else {
        lemma_static_child_from(c.children@, text[0], 0);
        let i = static_child_from(c.children@, text[0], 0);
        if i < n {
            let ch = c.children@[i];
            let l = common_prefix_spec(ch.prefix@, text);
            lemma_common_prefix(ch.prefix@, text);
            lemma_common_prefix_positive(ch.prefix@, text);
            let oi = out.children@[i];
            if l < ch.prefix@.len() {
                let mid = choose|mid: TrieNode<T>|
                    #[trigger] split_of(ch, l as int, text, mid) && ins_rel(
                        mid,
                        Seq::empty(),
                        text.skip(l as int),
                        route,
                        oi,
                    );
                lemma_node_wf_children(mid.children@[0], ch);
                assert(node_wf(mid));
                lemma_static_text_found(mid, text.skip(l as int), route, oi, m);
                assert(oi.prefix@ == text.take(l as int));
                assert(oi.param_type == ParamType::Static);
            } else {
                lemma_static_text_found(ch, text.skip(l as int), route, oi, m);
                assert(oi.prefix == ch.prefix);
                assert(oi.param_type == ch.param_type);
                assert(ch.prefix@ =~= text.take(l as int));
            }
            assert(text.take(l as int) + text.skip(l as int) =~= text);
            assert(consume_spec(oi, text) == Some((text.skip(l as int), Seq::<(Seq<char>, Seq<char>)>::empty())));
            assert(Seq::<(Seq<char>, Seq<char>)>::empty() + below_spec(oi, text.skip(l as int), m).unwrap().1
                =~= Seq::<(Seq<char>, Seq<char>)>::empty());
            assert forall|j: int|
                0 <= j < i implies kind_of(#[trigger] out.children@[j].param_type) != 0 || match_spec(
                out.children@[j],
                text,
                m,
            ) is None by {
                assert(out.children@[j] == c.children@[j]);
                if c.children@[j].param_type is Static {
                    lemma_static_mismatch(c.children@[j], text, m);
                }
            }
            lemma_children_pick(out, text, m, 0, 0, i);
        } else {
            let last = out.children@[n as int];
            let fresh = choose|f: TrieNode<T>|
                #[trigger] fresh_node(f, text) && f.param_type == ParamType::Static && ins_rel(
                    f,
                    Seq::empty(),
                    Seq::empty(),
                    route,
                    last,
                );
            lemma_static_text_found(fresh, Seq::empty(), route, last, m);
            assert(last.prefix == fresh.prefix);
            assert(last.param_type == fresh.param_type);
            assert(text.take(text.len() as int) =~= text);
            assert(text.skip(text.len() as int) =~= Seq::<char>::empty());
            assert(Seq::<(Seq<char>, Seq<char>)>::empty() + below_spec(last, Seq::empty(), m).unwrap().1
                =~= Seq::<(Seq<char>, Seq<char>)>::empty());
            assert forall|j: int|
                0 <= j < n implies kind_of(#[trigger] out.children@[j].param_type) != 0 || match_spec(
                out.children@[j],
                text,
                m,
            ) is None by {
                assert(out.children@[j] == c.children@[j]);
                if c.children@[j].param_type is Static {
                    lemma_static_mismatch(c.children@[j], text, m);
                }
            }
            lemma_children_pick(out, text, m, 0, 0, n as int);
        }
    }
}

/// Whether pattern `p` is plain text: no parameter, no catch-all.
pub open spec fn is_static_pattern(p: Seq<char>) -> bool {
    forall|i: int| 0 <= i < p.len() ==> p[i] != ':' && p[i] != '*'
}

/// A route registered at a plain-text path is found by a lookup of that
/// path with a method the route answers, and the match captures no
/// parameter.  (It is the first route registered there that answers the
/// method.)
pub proof fn law_static_route_found<T>(root: TrieNode<T>, pattern: Seq<char>, route: Route<T>, out: TrieNode<T>, m: Method)
    requires
        trie_wf(root),
        is_static_pattern(pattern),
        ins_rel(root, parse_spec(pattern), Seq::empty(), route, out),
        accepts(route, m),
    ensures
        match_spec(out, pattern, m) is Some,
        match_spec(out, pattern, m).unwrap().1 == Seq::<(Seq<char>, Seq<char>)>::empty(),
{
    reveal_with_fuel(ins_rel, 2);
    lemma_find_param_start(pattern);
    if pattern.len() > 0 {
        assert(find_param_start(pattern) == pattern.len());
        assert(pattern.take(pattern.len() as int) =~= pattern);
        assert(pattern.skip(pattern.len() as int) =~= Seq::<char>::empty());
        assert(parse_spec(pattern.skip(pattern.len() as int)) =~= Seq::<SegView>::empty());
        assert(parse_spec(pattern) =~= seq![(0int, pattern)]);
        assert(parse_spec(pattern).drop_first() =~= Seq::<SegView>::empty());
    } else {
        assert(parse_spec(pattern) =~= Seq::<SegView>::empty());
    }
    lemma_static_text_found(root, pattern, route, out, m);
    assert(out.prefix == root.prefix);
    assert(out.param_type == root.param_type);
    assert(pattern.take(0) =~= out.prefix@);
    assert(pattern.skip(0) =~= pattern);
    assert(Seq::<(Seq<char>, Seq<char>)>::empty() + below_spec(out, pattern, m).unwrap().1
        =~= Seq::<(Seq<char>, Seq<char>)>::empty());
}

/// Whether `p` is a path that the segments `segs` describe: static text is
/// there as it is; a parameter stands for the non-empty text up to the next
/// `/`; a catch-all stands for all the rest.
pub open spec fn segments_fit(segs: Seq<SegView>, p: Seq<char>) -> bool
    decreases segs.len(),
{
    if segs.len() == 0 {
        p.len() == 0
    } else if segs[0].0 == 0 {
        let t = segs[0].1;
        &&& t.len() <= p.len()
        &&& p.take(t.len() as int) == t
        &&& segments_fit(segs.drop_first(), p.skip(t.len() as int))
    } else if segs[0].0 == 1 {
        let e = find_char(p, '/');
        &&& e > 0
        &&& segments_fit(segs.drop_first(), p.skip(e))
    } else {
        segments_fit(segs.drop_first(), Seq::empty())
    }
}

/// Whether `path` is a path that the pattern `pattern` describes (see
/// `segments_fit`).
pub open spec fn fits_pattern(pattern: Seq<char>, path: Seq<char>) -> bool {
    segments_fit(parse_spec(pattern), path)
}

/// When child `i` of `node`, of kind `k`, matches `rest`, the search among
/// the children from kind `kind` (at most `k`) and index `a` finds a match.
proof fn lemma_children_some<T>(node: TrieNode<T>, rest: Seq<char>, m: Method, kind: int, a: int, k: int, i: int)
    requires
        0 <= kind <= k <= 2,
        0 <= a,
        0 <= i < node.children@.len(),
        kind_of(node.children@[i].param_type) == k,
        match_spec(node.children@[i], rest, m) is Some,
        kind == k ==> a <= i,
    ensures
        children_spec(node, rest, m, kind, a) is Some,
    decreases k - kind, node.children@.len() - a,
{
    if a >= node.children@.len() {
        lemma_children_some(node, rest, m, kind + 1, 0, k, i);
    } else if kind_of(node.children@[a].param_type) == kind {
        if match_spec(node.children@[a], rest, m) is None {
            lemma_children_some(node, rest, m, kind, a + 1, k, i);
        }
    } else {
        lemma_children_some(node, rest, m, kind, a + 1, k, i);
    }
}

/// A node whose children find a match for `rest` finds one below itself.
proof fn lemma_below_from_children<T>(node: TrieNode<T>, rest: Seq<char>, m: Method, k: int, i: int)
    requires
        0 <= k <= 2,
        0 <= i < node.children@.len(),
        kind_of(node.children@[i].param_type) == k,
        match_spec(node.children@[i], rest, m) is Some,
    ensures
        below_spec(node, rest, m) is Some,
{
    lemma_children_some(node, rest, m, 0, 0, k, i);
}

/// After a route that answers `m` is inserted at the segments `segs` after
/// the static text `text`, a lookup below the node of a path made of `text`
/// and then of a path that `segs` describe finds a route.
proof fn lemma_path_found<T>(
    c: TrieNode<T>,
    segs: Seq<SegView>,
    text: Seq<char>,
    route: Route<T>,
    out: TrieNode<T>,
    m: Method,
    path: Seq<char>,
)
    requires
        ins_rel(c, segs, text, route, out),
        accepts(route, m),
        text.len() <= path.len(),
        path.take(text.len() as int) == text,
        segments_fit(segs, path.skip(text.len() as int)),
    ensures
        below_spec(out, path, m) is Some,
    decreases segs.len(), text.len(),
{
    reveal_with_fuel(ins_rel, 2);
    let n = c.children@.len();
    if text.len() > 0 {
        lemma_static_child_from(c.children@, text[0], 0);
        let i = static_child_from(c.children@, text[0], 0);
        if i < n {
            let ch = c.children@[i];
            let l = common_prefix_spec(ch.prefix@, text);
            lemma_common_prefix(ch.prefix@, text);
            lemma_common_prefix_positive(ch.prefix@, text);
            let oi = out.children@[i];
            assert(path.skip(l as int).take(text.skip(l as int).len() as int) =~= text.skip(l as int));
            assert(path.skip(l as int).skip(text.skip(l as int).len() as int) =~= path.skip(text.len() as int));
            if l < ch.prefix@.len() {
                let mid = choose|mid: TrieNode<T>|
                    #[trigger] split_of(ch, l as int, text, mid) && ins_rel(
                        mid,
                        segs,
                        text.skip(l as int),
                        route,
                        oi,
                    );
                lemma_path_found(mid, segs, text.skip(l as int), route, oi, m, path.skip(l as int));
                assert(oi.prefix@ == text.take(l as int));
                assert(oi.param_type == ParamType::Static);
            } else {
                lemma_path_found(ch, segs, text.skip(l as int), route, oi, m, path.skip(l as int));
                assert(oi.prefix == ch.prefix);
                assert(oi.param_type == ch.param_type);
                assert(ch.prefix@ =~= text.take(l as int));
            }
            assert(path.take(l as int) =~= text.take(l as int));
            assert(consume_spec(oi, path) == Some((path.skip(l as int), Seq::<(Seq<char>, Seq<char>)>::empty())));
            lemma_below_from_children(out, path, m, 0, i);
        } else {
            let last = out.children@[n as int];
            let fresh = choose|f: TrieNode<T>|
                #[trigger] fresh_node(f, text) && f.param_type == ParamType::Static && ins_rel(
                    f,
                    segs,
                    Seq::empty(),
                    route,
                    last,
                );
            let rest = path.skip(text.len() as int);
            assert(rest.take(0) =~= Seq::<char>::empty());
            assert(rest.skip(0) =~= rest);
            lemma_path_found(fresh, segs, Seq::empty(), route, last, m, rest);
            assert(last.prefix == fresh.prefix);
            assert(last.param_type == fresh.param_type);
            assert(consume_spec(last, path) == Some((rest, Seq::<(Seq<char>, Seq<char>)>::empty())));
            lemma_below_from_children(out, path, m, 0, n as int);
        }
    } else if segs.len() == 0 {
        assert(path.skip(0) =~= path);
        lemma_first_route_exists(out.routes@, m, c.routes@.len() as int, 0);
    } else if segs[0].0 == 0 {
        assert(path.skip(0) =~= path);
        lemma_path_found(c, segs.drop_first(), segs[0].1, route, out, m, path);
    } else {
        assert(path.skip(0) =~= path);
        lemma_param_child_from(c.children@, segs[0], 0);
        let i = param_child_from(c.children@, segs[0], 0);
        let (target, node) = if i < n {
            (i, c.children@[i])
        } else {
            let fresh = choose|f: TrieNode<T>|
                #[trigger] fresh_node(f, Seq::empty()) && param_is(f.param_type, segs[0]) && ins_rel(
                    f,
                    segs.drop_first(),
                    Seq::empty(),
                    route,
                    out.children@[n as int],
                );
            (n as int, fresh)
        };
        let o = out.children@[target];
        assert(ins_rel(node, segs.drop_first(), Seq::empty(), route, o));
        assert(param_is(node.param_type, segs[0]));
        assert(o.param_type == node.param_type);
        let rest = if segs[0].0 == 1 {
            path.skip(find_char(path, '/'))
        } else {
            Seq::empty()
        };
        assert(rest.take(0) =~= Seq::<char>::empty());
        assert(rest.skip(0) =~= rest);
        lemma_path_found(node, segs.drop_first(), Seq::empty(), route, o, m, rest);
        assert(consume_spec(o, path) is Some && consume_spec(o, path).unwrap().0 == rest);
        lemma_below_from_children(out, path, m, segs[0].0, target);
    }
}

/// A route registered at a pattern is found by a lookup, with a method the
/// route answers, of any path that the pattern describes: static text as it
/// is, a non-empty segment for each parameter, anything for a catch-all.
/// (The route found is not always this one: an earlier route, or one with
/// static text where this one has a parameter, may match first.)
pub proof fn law_route_found<T>(
    root: TrieNode<T>,
    pattern: Seq<char>,
    route: Route<T>,
    out: TrieNode<T>,
    m: Method,
    path: Seq<char>,
)
    requires
        trie_wf(root),
        ins_rel(root, parse_spec(pattern), Seq::empty(), route, out),
        accepts(route, m),
        fits_pattern(pattern, path),
    ensures
        match_spec(out, path, m) is Some,
{
    reveal_with_fuel(ins_rel, 2);
    assert(path.take(0) =~= Seq::<char>::empty());
    assert(path.skip(0) =~= path);
    lemma_path_found(root, parse_spec(pattern), Seq::empty(), route, out, m, path);
    assert(out.prefix == root.prefix);
    assert(out.param_type == root.param_type);
    assert(path.take(0) =~= out.prefix@);
}

/// The parameters a path that `segs` describe (see `segments_fit`) gives,
/// in order: each parameter's name with its segment, a catch-all's name
/// with the rest of the path.
pub open spec fn captures(segs: Seq<SegView>, p: Seq<char>) -> ParamsView
    decreases segs.len(),
{
    if segs.len() == 0 {
        Seq::empty()
    } else if segs[0].0 == 0 {
        captures(segs.drop_first(), p.skip(segs[0].1.len() as int))
    } else if segs[0].0 == 1 {
        let e = find_char(p, '/');
        seq![(segs[0].1, p.take(e))] + captures(segs.drop_first(), p.skip(e))
    } else {
        seq![(segs[0].1, p)] + captures(segs.drop_first(), Seq::empty())
    }
}

/// A node with one child finds below itself what that child finds, when it
/// finds something.
proof fn lemma_only_child<T>(node: TrieNode<T>, rest: Seq<char>, m: Method)
    requires
        node.children@.len() == 1,
        0 <= kind_of(node.children@[0].param_type) <= 2,
        match_spec(node.children@[0], rest, m) is Some,
    ensures
        children_spec(node, rest, m, 0, 0) == match_spec(node.children@[0], rest, m),
{
    let k = kind_of(node.children@[0].param_type);
    if k == 0 {
        lemma_children_pick(node, rest, m, 0, 0, 0);
    } else {
        assert(children_spec(node, rest, m, 0, 1) == children_spec(node, rest, m, 1, 0));
        if k == 1 {
            lemma_children_pick(node, rest, m, 1, 0, 0);
        } else {
            assert(children_spec(node, rest, m, 1, 1) == children_spec(node, rest, m, 2, 0));
            lemma_children_pick(node, rest, m, 2, 0, 0);
        }
    }
}

/// Inserting into a node with no route and no child: a lookup below it of
/// a path made of `text` and then of a path that `segs` describe finds the
/// route, with the parameters that path gives.
proof fn lemma_lone_path<T>(
    c: TrieNode<T>,
    segs: Seq<SegView>,
    text: Seq<char>,
    route: Route<T>,
    out: TrieNode<T>,
    m: Method,
    path: Seq<char>,
)
    requires
        c.routes@.len() == 0,
        c.children@.len() == 0,
        ins_rel(c, segs, text, route, out),
        accepts(route, m),
        text.len() <= path.len(),
        path.take(text.len() as int) == text,
        segments_fit(segs, path.skip(text.len() as int)),
    ensures
        below_spec(out, path, m) == Some((route, captures(segs, path.skip(text.len() as int)))),
    decreases segs.len(), text.len(),
{
    reveal_with_fuel(ins_rel, 2);
    if text.len() > 0 {
        let last = out.children@[0];
        let fresh = choose|f: TrieNode<T>|
            #[trigger] fresh_node(f, text) && f.param_type == ParamType::Static && ins_rel(
                f,
                segs,
                Seq::empty(),
                route,
                last,
            );
        let rest = path.skip(text.len() as int);
        assert(rest.take(0) =~= Seq::<char>::empty());
        assert(rest.skip(0) =~= rest);
        lemma_lone_path(fresh, segs, Seq::empty(), route, last, m, rest);
        assert(last.prefix == fresh.prefix);
        assert(last.param_type == fresh.param_type);
        assert(consume_spec(last, path) == Some((rest, Seq::<(Seq<char>, Seq<char>)>::empty())));
        assert(Seq::<(Seq<char>, Seq<char>)>::empty() + captures(segs, rest) =~= captures(segs, rest));
        lemma_only_child(out, path, m);
    } else if segs.len() == 0 {
        assert(path.skip(0) =~= path);
        assert(out.routes@ =~= seq![route]);
    } else if segs[0].0 == 0 {
        assert(path.skip(0) =~= path);
        lemma_lone_path(c, segs.drop_first(), segs[0].1, route, out, m, path);
    } else {
        assert(path.skip(0) =~= path);
        let last = out.children@[0];
        let fresh = choose|f: TrieNode<T>|
            #[trigger] fresh_node(f, Seq::empty()) && param_is(f.param_type, segs[0]) && ins_rel(
                f,
                segs.drop_first(),
                Seq::empty(),
                route,
                last,
            );
        assert(last.param_type == fresh.param_type);
        let rest = if segs[0].0 == 1 {
            path.skip(find_char(path, '/'))
        } else {
            Seq::empty()
        };
        assert(rest.take(0) =~= Seq::<char>::empty());
        assert(rest.skip(0) =~= rest);
        lemma_lone_path(fresh, segs.drop_first(), Seq::empty(), route, last, m, rest);
        assert(consume_spec(last, path) is Some && consume_spec(last, path).unwrap().0 == rest);
        lemma_only_child(out, path, m);
    }
}

/// In a trie that held nothing, the one route registered at a pattern is
/// what a lookup, with a method the route answers, of any path the pattern
/// describes finds, with the parameters that path gives (see `captures`).
pub proof fn law_lone_route_found<T>(
    root: TrieNode<T>,
    pattern: Seq<char>,
    route: Route<T>,
    out: TrieNode<T>,
    m: Method,
    path: Seq<char>,
)
    requires
        trie_wf(root),
        root.routes@.len() == 0,
        root.children@.len() == 0,
        ins_rel(root, parse_spec(pattern), Seq::empty(), route, out),
        accepts(route, m),
        fits_pattern(pattern, path),
    ensures
        match_spec(out, path, m) == Some((route, captures(parse_spec(pattern), path))),
{
    reveal_with_fuel(ins_rel, 2);
    assert(path.take(0) =~= Seq::<char>::empty());
    assert(path.skip(0) =~= path);
    lemma_lone_path(root, parse_spec(pattern), Seq::empty(), route, out, m, path);
    assert(out.prefix == root.prefix);
    assert(out.param_type == root.param_type);
    assert(path.take(0) =~= out.prefix@);
    let caps = captures(parse_spec(pattern), path);
    assert(Seq::<(Seq<char>, Seq<char>)>::empty() + caps =~= caps);
}

/// The routes registered at exactly the plain text `text` below `node`: the
/// routes of the node the static children lead to when they spell `text`
/// out, none when they do not.
pub open spec fn static_node_routes<T>(node: TrieNode<T>, text: Seq<char>) -> Seq<Route<T>>
    decreases text.len(),
{
    if text.len() == 0 {
        node.routes@
    } else {
        let i = static_child_from(node.children@, text[0], 0);
        if 0 <= i < node.children@.len() {
            let p = node.children@[i].prefix@;
            if 0 < p.len() <= text.len() && text.take(p.len() as int) == p {
                static_node_routes(node.children@[i], text.skip(p.len() as int))
            } else {
                Seq::empty()
            }
        } else {
            Seq::empty()
        }
    }
}

/// The first route of `rs` followed by `r` that answers `m` is `r`, when
/// none of `rs` does and `r` does.
proof fn lemma_first_route_push<T>(rs: Seq<Route<T>>, r: Route<T>, m: Method, i: int)
    requires
        0 <= i <= rs.len(),
        first_route_from(rs, m, i) is None,
        accepts(r, m),
    ensures
        first_route_from(rs.push(r), m, i) == Some(r),
    decreases rs.len() - i,
{
    if i < rs.len() {
        assert(rs.push(r)[i] == rs[i]);
        lemma_first_route_push(rs, r, m, i + 1);
    } else {
        assert(rs.push(r)[i] == r);
    }
}

/// After plain text `text` is inserted with a route that answers `m`, where
/// no route registered at exactly `text` answers `m`, a lookup of `text`
/// below the node finds that route, capturing nothing.
proof fn lemma_static_text_exact<T>(c: TrieNode<T>, text: Seq<char>, route: Route<T>, out: TrieNode<T>, m: Method)
    requires
        node_wf(c),
        ins_rel(c, Seq::empty(), text, route, out),
        accepts(route, m),
        first_route_from(static_node_routes(c, text), m, 0) is None,
    ensures
        below_spec(out, text, m) == Some((route, Seq::<(Seq<char>, Seq<char>)>::empty())),
    decreases text.len(),
{
    reveal_with_fuel(ins_rel, 2);
    let n = c.children@.len();
    if text.len() == 0 {
        lemma_first_route_push(c.routes@, route, m, 0);
        assert(out.routes@ == c.routes@.push(route));
    } else {
        lemma_static_child_from(c.children@, text[0], 0);
        let i = static_child_from(c.children@, text[0], 0);
        if i < n {
            let ch = c.children@[i];
            let l = common_prefix_spec(ch.prefix@, text);
            lemma_common_prefix(ch.prefix@, text);
            lemma_common_prefix_positive(ch.prefix@, text);
            let oi = out.children@[i];
            if l < ch.prefix@.len() {
                let mid = choose|mid: TrieNode<T>|
                    #[trigger] split_of(ch, l as int, text, mid) && ins_rel(
                        mid,
                        Seq::empty(),
                        text.skip(l as int),
                        route,
                        oi,
                    );
                lemma_node_wf_children(mid.children@[0], ch);
                assert(node_wf(mid));
                let rest = text.skip(l as int);
                if rest.len() > 0 {
                    lemma_static_child_from(mid.children@, rest[0], 0);
                    assert(mid.children@[0].prefix@[0] == ch.prefix@[l as int]);
                    assert(rest[0] == text[l as int]);
                    assert(static_child_from(mid.children@, rest[0], 0) == 1);
                }
                assert(static_node_routes(mid, rest) =~= Seq::<Route<T>>::empty());
                lemma_static_text_exact(mid, rest, route, oi, m);
                assert(oi.prefix@ == text.take(l as int));
                assert(oi.param_type == ParamType::Static);
            } else {
                assert(ch.prefix@ =~= text.take(l as int));
                assert(static_node_routes(c, text) == static_node_routes(ch, text.skip(l as int)));
                lemma_static_text_exact(ch, text.skip(l as int), route, oi, m);
                assert(oi.prefix == ch.prefix);
                assert(oi.param_type == ch.param_type);
            }
            assert(text.take(l as int) + text.skip(l as int) =~= text);
            assert(consume_spec(oi, text) == Some((text.skip(l as int), Seq::<(Seq<char>, Seq<char>)>::empty())));
            assert(Seq::<(Seq<char>, Seq<char>)>::empty() + Seq::<(Seq<char>, Seq<char>)>::empty()
                =~= Seq::<(Seq<char>, Seq<char>)>::empty());
            assert forall|j: int|
                0 <= j < i implies kind_of(#[trigger] out.children@[j].param_type) != 0 || match_spec(
                out.children@[j],
                text,
                m,
            ) is None by {
                assert(out.children@[j] == c.children@[j]);
                if c.children@[j].param_type is Static {
                    lemma_static_mismatch(c.children@[j], text, m);
                }
            }
            lemma_children_pick(out, text, m, 0, 0, i);
        } else {
            let last = out.children@[n as int];
            let fresh = choose|f: TrieNode<T>|
                #[trigger] fresh_node(f, text) && f.param_type == ParamType::Static && ins_rel(
                    f,
                    Seq::empty(),
                    Seq::empty(),
                    route,
                    last,
                );
            lemma_static_text_exact(fresh, Seq::empty(), route, last, m);
            assert(last.prefix == fresh.prefix);
            assert(last.param_type == fresh.param_type);
            assert(text.take(text.len() as int) =~= text);
            assert(text.skip(text.len() as int) =~= Seq::<char>::empty());
            assert(Seq::<(Seq<char>, Seq<char>)>::empty() + Seq::<(Seq<char>, Seq<char>)>::empty()
                =~= Seq::<(Seq<char>, Seq<char>)>::empty());
            assert forall|j: int|
                0 <= j < n implies kind_of(#[trigger] out.children@[j].param_type) != 0 || match_spec(
                out.children@[j],
                text,
                m,
            ) is None by {
                assert(out.children@[j] == c.children@[j]);
                if c.children@[j].param_type is Static {
                    lemma_static_mismatch(c.children@[j], text, m);
                }
            }
            lemma_children_pick(out, text, m, 0, 0, n as int);
        }
    }
}

/// Read after write at a plain-text path: once a route is registered at a
/// path with no parameter, a lookup of that path with a method the route
/// answers finds that very route, capturing nothing, unless a route
/// registered there before already answers the method (the first one
/// registered wins).
pub proof fn law_static_route_read_after_write<T>(
    root: TrieNode<T>,
    pattern: Seq<char>,
    route: Route<T>,
    out: TrieNode<T>,
    m: Method,
)
    requires
        trie_wf(root),
        is_static_pattern(pattern),
        ins_rel(root, parse_spec(pattern), Seq::empty(), route, out),
        accepts(route, m),
        first_route_from(static_node_routes(root, pattern), m, 0) is None,
    ensures
        match_spec(out, pattern, m) == Some((route, Seq::<(Seq<char>, Seq<char>)>::empty())),
{
    reveal_with_fuel(ins_rel, 2);
    lemma_find_param_start(pattern);
    if pattern.len() > 0 {
        assert(find_param_start(pattern) == pattern.len());
        assert(pattern.take(pattern.len() as int) =~= pattern);
        assert(pattern.skip(pattern.len() as int) =~= Seq::<char>::empty());
        assert(parse_spec(pattern.skip(pattern.len() as int)) =~= Seq::<SegView>::empty());
        assert(parse_spec(pattern) =~= seq![(0int, pattern)]);
        assert(parse_spec(pattern).drop_first() =~= Seq::<SegView>::empty());
    } else {
        assert(parse_spec(pattern) =~= Seq::<SegView>::empty());
    }
    lemma_static_text_exact(root, pattern, route, out, m);
    assert(out.prefix == root.prefix);
    assert(out.param_type == root.param_type);
    assert(pattern.take(0) =~= out.prefix@);
    assert(pattern.skip(0) =~= pattern);
    assert(Seq::<(Seq<char>, Seq<char>)>::empty() + Seq::<(Seq<char>, Seq<char>)>::empty()
        =~= Seq::<(Seq<char>, Seq<char>)>::empty());
}

/// Two nodes with the same children search them alike.
proof fn lemma_same_children<T>(a: TrieNode<T>, b: TrieNode<T>, rest: Seq<char>, m: Method, kind: int, i: int)
    requires
        a.children == b.children,
    ensures
        children_spec(a, rest, m, kind, i) == children_spec(b, rest, m, kind, i),
    decreases 3 - kind, a.children@.len() - i,
{
    if kind < 0 || kind > 2 || i < 0 {
    } else if i >= a.children@.len() {
        lemma_same_children(a, b, rest, m, kind + 1, 0);
    } else {
        lemma_same_children(a, b, rest, m, kind, i + 1);
    }
}

/// Two nodes with the same routes and children look a rest up alike.
proof fn lemma_same_below<T>(a: TrieNode<T>, b: TrieNode<T>, rest: Seq<char>, m: Method)
    requires
        a.routes == b.routes,
        a.children == b.children,
    ensures
        below_spec(a, rest, m) == below_spec(b, rest, m),
{
    lemma_same_children(a, b, rest, m, 0, 0);
}

/// When the search among the children from kind `kind` and index `a` finds a
/// match, some child found it: its index and kind.
proof fn lemma_children_witness<T>(node: TrieNode<T>, rest: Seq<char>, m: Method, kind: int, a: int) -> (jk: (int, int))
    requires
        children_spec(node, rest, m, kind, a) is Some,
    ensures
        0 <= jk.0 < node.children@.len(),
        0 <= jk.1 <= 2,
        kind_of(node.children@[jk.0].param_type) == jk.1,
        match_spec(node.children@[jk.0], rest, m) is Some,
    decreases 3 - kind, node.children@.len() - a,
{
    if kind < 0 || kind > 2 || a < 0 {
        (0, 0)
    } else if a >= node.children@.len() {
        lemma_children_witness(node, rest, m, kind + 1, 0)
    } else if kind_of(node.children@[a].param_type) == kind && match_spec(node.children@[a], rest, m) is Some {
        (a, kind)
    } else {
        lemma_children_witness(node, rest, m, kind, a + 1)
    }
}

/// A route list in which some route answers `m` still has one after a route
/// is added at the end.
proof fn lemma_first_route_push_some<T>(rs: Seq<Route<T>>, r: Route<T>, m: Method, i: int)
    requires
        0 <= i,
        first_route_from(rs, m, i) is Some,
    ensures
        first_route_from(rs.push(r), m, i) is Some,
    decreases rs.len() - i,
{
    if i < rs.len() {
        assert(rs.push(r)[i] == rs[i]);
        if !accepts(rs[i], m) {
            lemma_first_route_push_some(rs, r, m, i + 1);
        }
    }
}

/// Inserting below a node loses no match: what a lookup below the node found
/// before, it still finds something for afterwards.
proof fn lemma_keeps_below<T>(
    c: TrieNode<T>,
    segs: Seq<SegView>,
    text: Seq<char>,
    route: Route<T>,
    out: TrieNode<T>,
    q: Seq<char>,
    m: Method,
)
    requires
        ins_rel(c, segs, text, route, out),
        below_spec(c, q, m) is Some,
    ensures
        below_spec(out, q, m) is Some,
    decreases segs.len(), text.len(),
{
    reveal_with_fuel(ins_rel, 2);
    let n = c.children@.len();
    let here = if q.len() == 0 {
        first_route_from(c.routes@, m, 0)
    } else {
        None
    };
    if text.len() == 0 && segs.len() > 0 && segs[0].0 == 0 {
        lemma_keeps_below(c, segs.drop_first(), segs[0].1, route, out, q, m);
    } else if text.len() == 0 && segs.len() == 0 {
        if here is Some {
            lemma_first_route_push_some(c.routes@, route, m, 0);
            assert(out.routes@ == c.routes@.push(route));
        } else {
            lemma_same_children(c, out, q, m, 0, 0);
        }
    } else if here is Some {
        assert(out.routes == c.routes);
    } else {
        let (j, k) = lemma_children_witness(c, q, m, 0, 0);
        let i = if text.len() > 0 {
            static_child_from(c.children@, text[0], 0)
        } else {
            param_child_from(c.children@, segs[0], 0)
        };
        if text.len() > 0 {
            lemma_static_child_from(c.children@, text[0], 0);
        } else {
            lemma_param_child_from(c.children@, segs[0], 0);
        }
        if j != i || i >= n {
            assert(out.children@[j] == c.children@[j]);
            lemma_below_from_children(out, q, m, k, j);
        } else {
            let ch = c.children@[i];
            let oi = out.children@[i];
            let (r, cap) = consume_spec(ch, q).unwrap();
            assert(below_spec(ch, r, m) is Some);
            if text.len() > 0 {
                let l = common_prefix_spec(ch.prefix@, text);
                lemma_common_prefix(ch.prefix@, text);
                lemma_common_prefix_positive(ch.prefix@, text);
                if l < ch.prefix@.len() {
                    let mid = choose|mid: TrieNode<T>|
                        #[trigger] split_of(ch, l as int, text, mid) && ins_rel(
                            mid,
                            segs,
                            text.skip(l as int),
                            route,
                            oi,
                        );
                    let p = ch.prefix@;
                    let c0 = mid.children@[0];
                    let q1 = q.skip(l as int);
                    assert(q.take(p.len() as int) == p);
                    assert(q1.take(c0.prefix@.len() as int) =~= c0.prefix@);
                    assert(q1.skip(c0.prefix@.len() as int) =~= r);
                    assert(consume_spec(c0, q1) == Some((r, Seq::<(Seq<char>, Seq<char>)>::empty())));
                    lemma_same_below(c0, ch, r, m);
                    assert(match_spec(c0, q1, m) is Some);
                    lemma_below_from_children(mid, q1, m, 0, 0);
                    lemma_keeps_below(mid, segs, text.skip(l as int), route, oi, q1, m);
                    assert(oi.prefix@ == text.take(l as int));
                    assert(oi.param_type == ParamType::Static);
                    assert(q.take(l as int) =~= p.take(l as int));
                    assert(p.take(l as int) =~= text.take(l as int));
                    assert(consume_spec(oi, q) == Some((q1, Seq::<(Seq<char>, Seq<char>)>::empty())));
                } else {
                    lemma_keeps_below(ch, segs, text.skip(l as int), route, oi, r, m);
                    assert(oi.prefix == ch.prefix && oi.param_type == ch.param_type);
                    assert(consume_spec(oi, q) == consume_spec(ch, q));
                }
            } else {
                lemma_keeps_below(ch, segs.drop_first(), Seq::empty(), route, oi, r, m);
                assert(oi.prefix == ch.prefix && oi.param_type == ch.param_type);
                assert(consume_spec(oi, q) == consume_spec(ch, q));
            }
            assert(match_spec(oi, q, m) is Some);
            lemma_below_from_children(out, q, m, k, i);
        }
    }
}

/// Registering a route loses no match: every path and method that a lookup
/// matched before the insertion, it still matches afterwards (perhaps with
/// the new route, when it comes first).
pub proof fn law_insert_keeps_matches<T>(
    root: TrieNode<T>,
    pattern: Seq<char>,
    route: Route<T>,
    out: TrieNode<T>,
    q: Seq<char>,
    m: Method,
)
    requires
        ins_rel(root, parse_spec(pattern), Seq::empty(), route, out),
        match_spec(root, q, m) is Some,
    ensures
        match_spec(out, q, m) is Some,
{
    reveal_with_fuel(ins_rel, 2);
    assert(out.prefix == root.prefix && out.param_type == root.param_type);
    assert(consume_spec(out, q) == consume_spec(root, q));
    let (r, cap) = consume_spec(root, q).unwrap();
    lemma_keeps_below(root, parse_spec(pattern), Seq::empty(), route, out, r, m);
}

/// The pattern text the segments `segs` spell: static text as it is, a
/// parameter as `:` and its name, a catch-all as `*` and its name.
pub open spec fn unparse(segs: Seq<SegView>) -> Seq<char>
    decreases segs.len(),
{
    if segs.len() == 0 {
        Seq::empty()
    } else {
        let head = if segs[0].0 == 0 {
            segs[0].1
        } else if segs[0].0 == 1 {
            seq![':'] + segs[0].1
        } else {
            seq!['*'] + segs[0].1
        };
        head + unparse(segs.drop_first())
    }
}

/// The segments a pattern is read into spell the pattern back: reading loses
/// and invents nothing.
pub proof fn law_parse_spells_pattern(p: Seq<char>)
    ensures
        unparse(parse_spec(p)) == p,
    decreases p.len(),
{
    if p.len() > 0 {
        lemma_find_param_start(p);
        lemma_find_char(p, '/');
        let k = find_param_start(p);
        let segs = parse_spec(p);
        if k > 0 {
            law_parse_spells_pattern(p.skip(k));
            assert(segs[0] == (0int, p.take(k)));
            assert(segs.drop_first() =~= parse_spec(p.skip(k)));
            assert(unparse(segs) == p.take(k) + unparse(segs.drop_first()));
            assert(p.take(k) + p.skip(k) =~= p);
        } else if p[0] == ':' {
            let e = find_char(p, '/');
            assert(e >= 1);
            law_parse_spells_pattern(p.skip(e));
            assert(segs[0] == (1int, p.subrange(1, e)));
            assert(segs.drop_first() =~= parse_spec(p.skip(e)));
            assert(unparse(segs) == seq![':'] + p.subrange(1, e) + unparse(segs.drop_first()));
            assert(seq![':'] + p.subrange(1, e) + p.skip(e) =~= p);
        } else {
            assert(p[0] == '*');
            assert(segs =~= seq![(2int, p.skip(1))]);
            assert(segs.drop_first() =~= Seq::<SegView>::empty());
            assert(unparse(segs.drop_first()) == Seq::<char>::empty());
            assert(unparse(segs) == seq!['*'] + p.skip(1) + unparse(segs.drop_first()));
            assert(seq!['*'] + p.skip(1) + Seq::<char>::empty() =~= p);
        }
    }
}

} // verus!
