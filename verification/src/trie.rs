//! Merkle trie over timestamps, keyed by base-3 minute buckets.
//!
//! Every node carries the XOR of the hashes of all timestamps filed in
//! its subtree, so identical timestamp sets produce identical hashes at
//! every node regardless of insertion order, and two tries can be
//! compared to recover the earliest minute at which they diverge.

use crate::keys::{is_key, key_millis, key_of, key_to_timestamp, timestamp_to_key, MAX_KEY_MILLIS};
use crate::timestamp::{hash_of, Timestamp};
use vstd::prelude::*;

verus! {

/// A node of the base-3 prefix tree.  `hash` is the XOR of the hashes of
/// every timestamp contained in the subtree; the three optional children
/// correspond to the key digits `'0'`, `'1'` and `'2'`.
#[derive(Debug)]
pub struct Trie {
    pub hash: u32,
    pub zero: Option<Box<Trie>>,
    pub one: Option<Box<Trie>>,
    pub two: Option<Box<Trie>>,
}

/// The trie with no contents: hash 0 and no children.
pub open spec fn empty_trie() -> Trie {
    Trie { hash: 0, zero: None, one: None, two: None }
}

/// The child of `t` under key digit `c`, or `None`.
pub open spec fn child_of(t: Trie, c: char) -> Option<Box<Trie>> {
    if c == '0' {
        t.zero
    } else if c == '1' {
        t.one
    } else {
        t.two
    }
}

/// `t` with its child under `c` replaced by `sub`.
pub open spec fn with_child(t: Trie, c: char, sub: Option<Box<Trie>>) -> Trie {
    if c == '0' {
        Trie { hash: t.hash, zero: sub, one: t.one, two: t.two }
    } else if c == '1' {
        Trie { hash: t.hash, zero: t.zero, one: sub, two: t.two }
    } else {
        Trie { hash: t.hash, zero: t.zero, one: t.one, two: sub }
    }
}

/// The child of `t` under `c`, substituting the empty trie when absent.
pub open spec fn child_or_empty(t: Trie, c: char) -> Trie {
    match child_of(t, c) {
        Some(b) => *b,
        None => empty_trie(),
    }
}

/// Structural height of a trie, for termination measures.
pub open spec fn height(t: Trie) -> nat
    decreases t,
{
    let h0: nat = match t.zero {
        Some(b) => height(*b),
        None => 0,
    };
    let h1: nat = match t.one {
        Some(b) => height(*b),
        None => 0,
    };
    let h2: nat = match t.two {
        Some(b) => height(*b),
        None => 0,
    };
    1 + if h0 >= h1 && h0 >= h2 {
        h0
    } else if h1 >= h2 {
        h1
    } else {
        h2
    }
}

/// The subtree held by an optional child, substituting the empty trie
/// when absent.
pub open spec fn sub_or_empty(o: Option<Box<Trie>>) -> Trie {
    match o {
        Some(b) => *b,
        None => empty_trie(),
    }
}

/// The trie after XORing `h` into every node along the path `k`,
/// creating missing nodes on the way.
pub open spec fn insert_spec(t: Trie, k: Seq<char>, h: u32) -> Trie
    decreases k.len(),
{
    let t1 = Trie { hash: t.hash ^ h, zero: t.zero, one: t.one, two: t.two };
    if k.len() == 0 {
        t1
    } else {
        let sub = insert_spec(child_or_empty(t, k[0]), k.skip(1), h);
        with_child(t1, k[0], Some(Box::new(sub)))
    }
}

impl Trie {
    /// Builds the empty trie.
    pub fn new() -> (r: Trie)
        ensures
            r == empty_trie(),
    {
        Trie { hash: 0, zero: None, one: None, two: None }
    }

    /// XORs `h` into an optional child and down the rest of the key,
    /// creating the child when absent.
    fn insert_opt(node: &mut Option<Box<Trie>>, key: &str, i: usize, h: u32)
        requires
            i <= key@.len(),
        ensures
            *final(node) == Some(Box::new(insert_spec(sub_or_empty(*old(node)), key@.skip(i as int), h))),
        decreases key@.len() - i, 1int,
    {
        match node.take() {
            None => {
                let mut t = Trie::new();
                t.insert_key(key, i, h);
                *node = Some(Box::new(t));
            },
            Some(mut b) => {
                (&mut *b).insert_key(key, i, h);
                *node = Some(b);
            },
        }
    }

    /// XORs `h` into this node and down the path spelled by `key[i..]`.
    fn insert_key(&mut self, key: &str, i: usize, h: u32)
        requires
            i <= key@.len(),
        ensures
            *final(self) == insert_spec(*old(self), key@.skip(i as int), h),
        decreases key@.len() - i, 0int,
    {
        self.hash = self.hash ^ h;
        if i < key.unicode_len() {
            let c = key.get_char(i);
            proof {
                assert(key@.skip(i as int).len() > 0);
                assert(key@.skip(i as int)[0] == c);
                assert(key@.skip(i as int).skip(1) =~= key@.skip(i as int + 1));
            }
            if c == '0' {
                Self::insert_opt(&mut self.zero, key, i + 1, h);
            } else if c == '1' {
                Self::insert_opt(&mut self.one, key, i + 1, h);
            } else {
                Self::insert_opt(&mut self.two, key, i + 1, h);
            }
        }
    }

    /// Whether two optional children differ by presence or by hash.
    fn opts_differ(a: &Option<Box<Trie>>, b: &Option<Box<Trie>>) -> (r: bool)
        ensures
            r == match (*a, *b) {
                (Some(x), Some(y)) => x.hash != y.hash,
                (None, None) => false,
                _ => true,
            },
    {
        match (a, b) {
            (Some(x), Some(y)) => x.hash != y.hash,
            (None, None) => false,
            _ => true,
        }
    }

    /// Continues the divergence descent below one pair of optional
    /// children, substituting the empty trie for an absent side.
    fn diff_opt(a: &Option<Box<Trie>>, b: &Option<Box<Trie>>) -> (r: Option<String>)
        ensures
            r is Some <==> diff_spec(sub_or_empty(*a), sub_or_empty(*b)) is Some,
            r matches Some(s) ==> diff_spec(sub_or_empty(*a), sub_or_empty(*b)) == Some(s@),
        decreases height(sub_or_empty(*a)) + height(sub_or_empty(*b)), 1int,
    {
        match (a, b) {
            (Some(x), Some(y)) => x.diff_recursive(y),
            (Some(x), None) => {
                let e = Trie::new();
                x.diff_recursive(&e)
            },
            (None, Some(y)) => {
                let e = Trie::new();
                e.diff_recursive(y)
            },
            (None, None) => None,
        }
    }

    /// The lock-step descent to the divergence between two tries, as a
    /// base-3 key prefix.
    fn diff_recursive(&self, other: &Trie) -> (r: Option<String>)
        ensures
            r is Some <==> diff_spec(*self, *other) is Some,
            r matches Some(s) ==> diff_spec(*self, *other) == Some(s@),
        decreases height(*self) + height(*other), 0int,
    {
        proof {
            reveal_strlit("0");
            reveal_strlit("1");
            reveal_strlit("2");
            lemma_height_pos(*self);
            lemma_height_pos(*other);
            lemma_child_height(*self, '0');
            lemma_child_height(*self, '1');
            lemma_child_height(*self, '2');
            lemma_child_height(*other, '0');
            lemma_child_height(*other, '1');
            lemma_child_height(*other, '2');
        }
        if self.hash == other.hash {
            return None;
        }
        if Self::opts_differ(&self.zero, &other.zero) {
            match Self::diff_opt(&self.zero, &other.zero) {
                Some(s) => {
                    let pre = "0".to_owned();
                    return Some(pre.concat(s.as_str()));
                },
                None => {
                    return None;
                },
            }
        }
        if Self::opts_differ(&self.one, &other.one) {
            match Self::diff_opt(&self.one, &other.one) {
                Some(s) => {
                    let pre = "1".to_owned();
                    return Some(pre.concat(s.as_str()));
                },
                None => {
                    return None;
                },
            }
        }
        if Self::opts_differ(&self.two, &other.two) {
            match Self::diff_opt(&self.two, &other.two) {
                Some(s) => {
                    let pre = "2".to_owned();
                    return Some(pre.concat(s.as_str()));
                },
                None => {
                    return None;
                },
            }
        }
        let empty_path = String::new();
        proof {
            assert(empty_path@ =~= Seq::<char>::empty());
        }
        Some(empty_path)
    }

    /// The earliest minute from which the two tries' contents differ,
    /// as milliseconds since the Unix epoch; `None` when the root
    /// hashes agree.
    pub fn diff(&self, other: &Trie) -> (r: Option<i64>)
        requires
            depth_le(*self, 16),
            depth_le(*other, 16),
        ensures
            r is Some <==> diff_spec(*self, *other) is Some,
            diff_spec(*self, *other) matches Some(p) ==> r matches Some(m) && m == key_millis(p),
    {
        match self.diff_recursive(other) {
            Some(p) => {
                proof {
                    lemma_diff_path(*self, *other, 16);
                }
                Some(key_to_timestamp(p.as_str()))
            },
            None => None,
        }
    }

    /// Files `timestamp` in the trie: XORs its hash into the root and
    /// into every node along its 16-digit minute key, creating nodes on
    /// the way.
    pub fn insert(&mut self, timestamp: Timestamp)
        requires
            0 <= timestamp.millis <= MAX_KEY_MILLIS,
        ensures
            *final(self) == insert_spec(*old(self), key_of(timestamp), hash_of(timestamp)),
    {
        let hash = timestamp.hash();
        let key = timestamp_to_key(timestamp);
        proof {
            assert(key@.skip(0) =~= key@);
        }
        self.insert_key(key.as_str(), 0, hash);
    }

    /// Whether the trie holds a node at the end of `key[i..]`.
    fn contains_key(&self, key: &str, i: usize) -> (r: bool)
        requires
            i <= key@.len(),
        ensures
            r == contains_path(*self, key@.skip(i as int)),
        decreases key@.len() - i,
    {
        if i == key.unicode_len() {
            return true;
        }
        let c = key.get_char(i);
        proof {
            assert(key@.skip(i as int).len() > 0);
            assert(key@.skip(i as int)[0] == c);
            assert(key@.skip(i as int).skip(1) =~= key@.skip(i as int + 1));
        }
        if c == '0' {
            match &self.zero {
                Some(b) => b.contains_key(key, i + 1),
                None => false,
            }
        } else if c == '1' {
            match &self.one {
                Some(b) => b.contains_key(key, i + 1),
                None => false,
            }
        } else {
            match &self.two {
                Some(b) => b.contains_key(key, i + 1),
                None => false,
            }
        }
    }

    /// XORs `h` back out of an existing child and down the rest of the
    /// key, deleting the child if it ends up empty.
    fn prune_opt(node: &mut Option<Box<Trie>>, key: &str, i: usize, h: u32)
        requires
            i <= key@.len(),
            *old(node) matches Some(b) && contains_path(*b, key@.skip(i as int)),
        ensures
            ({
                let sub = remove_spec(sub_or_empty(*old(node)), key@.skip(i as int), h);
                *final(node) == if is_empty_node(sub) {
                    None::<Box<Trie>>
                } else {
                    Some(Box::new(sub))
                }
            }),
        decreases key@.len() - i, 1int,
    {
        match node.take() {
            Some(mut b) => {
                (&mut *b).prune_key(key, i, h);
                if b.hash == 0 && b.zero.is_none() && b.one.is_none() && b.two.is_none() {
                    *node = None;
                } else {
                    *node = Some(b);
                }
            },
            None => {
                proof {
                    assert(false);
                }
            },
        }
    }

    /// XORs `h` back out of this node and down the existing path
    /// spelled by `key[i..]`.
    fn prune_key(&mut self, key: &str, i: usize, h: u32)
        requires
            i <= key@.len(),
            contains_path(*old(self), key@.skip(i as int)),
        ensures
            *final(self) == remove_spec(*old(self), key@.skip(i as int), h),
        decreases key@.len() - i, 0int,
    {
        self.hash = self.hash ^ h;
        if i < key.unicode_len() {
            let c = key.get_char(i);
            proof {
                assert(key@.skip(i as int).len() > 0);
                assert(key@.skip(i as int)[0] == c);
                assert(key@.skip(i as int).skip(1) =~= key@.skip(i as int + 1));
            }
            if c == '0' {
                Self::prune_opt(&mut self.zero, key, i + 1, h);
            } else if c == '1' {
                Self::prune_opt(&mut self.one, key, i + 1, h);
            } else {
                Self::prune_opt(&mut self.two, key, i + 1, h);
            }
        }
    }

    /// Removes one previously inserted timestamp's contribution: XORs
    /// its hash back out along its key and deletes subtrees that become
    /// empty.  Pruning a timestamp whose path is absent leaves the trie
    /// unchanged.
    pub fn prune(&mut self, timestamp: Timestamp)
        requires
            0 <= timestamp.millis <= MAX_KEY_MILLIS,
        ensures
            *final(self) == prune_spec(*old(self), key_of(timestamp), hash_of(timestamp)),
    {
        let h = timestamp.hash();
        let key = timestamp_to_key(timestamp);
        proof {
            assert(key@.skip(0) =~= key@);
        }
        if self.contains_key(key.as_str(), 0) {
            self.prune_key(key.as_str(), 0, h);
        }
    }

    /// Builds a trie holding every timestamp of `timestamps`.
    pub fn build(timestamps: Vec<Timestamp>) -> (r: Self)
        requires
            forall|i: int|
                0 <= i < timestamps@.len() ==> 0 <= #[trigger] timestamps@[i].millis
                    <= MAX_KEY_MILLIS,
        ensures
            r == build_spec(timestamps@),
    {
        let ghost all = timestamps@;
        let mut trie = Trie::new();
        let mut ts = timestamps;
        proof {
            assert(all.skip(0) =~= all);
            assert(all.take(0) =~= Seq::<Timestamp>::empty());
        }
        while ts.len() > 0
            invariant
                ts@.len() <= all.len(),
                ts@ =~= all.skip(all.len() - ts@.len()),
                trie == build_spec(all.take(all.len() - ts@.len())),
                forall|i: int|
                    0 <= i < all.len() ==> 0 <= #[trigger] all[i].millis <= MAX_KEY_MILLIS,
            decreases ts@.len(),
        {
            let ghost k = all.len() - ts@.len();
            proof {
                assert(ts@[0] == all[k]);
            }
            let t = ts.remove(0);
            trie.insert(t);
            proof {
                assert(ts@ =~= all.skip(k + 1));
                assert(all.take(k + 1).drop_last() =~= all.take(k));
                assert(all.take(k + 1).last() == all[k]);
            }
        }
        proof {
            assert(all.take(all.len() as int) =~= all);
        }
        trie
    }
}

/// Every downward path in `t` has at most `d` edges.
pub open spec fn depth_le(t: Trie, d: int) -> bool
    decreases t,
{
    &&& (t.zero matches Some(b) ==> d > 0 && depth_le(*b, d - 1))
    &&& (t.one matches Some(b) ==> d > 0 && depth_le(*b, d - 1))
    &&& (t.two matches Some(b) ==> d > 0 && depth_le(*b, d - 1))
}

/// Whether the children of `a` and `b` under digit `c` differ: present
/// on one side only, or present on both sides with different hashes.
pub open spec fn kid_differs(a: Trie, b: Trie, c: char) -> bool {
    match (child_of(a, c), child_of(b, c)) {
        (Some(x), Some(y)) => x.hash != y.hash,
        (None, None) => false,
        _ => true,
    }
}

/// Prepends a digit to a divergence path, if one was found below.
pub open spec fn prepend_path(c: char, o: Option<Seq<char>>) -> Option<Seq<char>> {
    match o {
        Some(p) => Some(seq![c] + p),
        None => None,
    }
}

proof fn lemma_height_pos(t: Trie)
    ensures
        height(t) >= 1,
{
}

proof fn lemma_child_height(t: Trie, c: char)
    ensures
        child_of(t, c) matches Some(b) ==> height(*b) < height(t),
{
}

/// The divergence path between two tries: `None` when the root hashes
/// agree; otherwise the lock-step descent along the smallest differing
/// child digit, ending where the children pairwise agree.
pub open spec fn diff_spec(a: Trie, b: Trie) -> Option<Seq<char>>
    decreases height(a) + height(b),
    via diff_spec_decreases
{
    if a.hash == b.hash {
        None
    } else if kid_differs(a, b, '0') {
        prepend_path('0', diff_spec(child_or_empty(a, '0'), child_or_empty(b, '0')))
    } else if kid_differs(a, b, '1') {
        prepend_path('1', diff_spec(child_or_empty(a, '1'), child_or_empty(b, '1')))
    } else if kid_differs(a, b, '2') {
        prepend_path('2', diff_spec(child_or_empty(a, '2'), child_or_empty(b, '2')))
    } else {
        Some(Seq::empty())
    }
}

#[via_fn]
proof fn diff_spec_decreases(a: Trie, b: Trie) {
    lemma_height_pos(a);
    lemma_height_pos(b);
    lemma_child_height(a, '0');
    lemma_child_height(a, '1');
    lemma_child_height(a, '2');
    lemma_child_height(b, '0');
    lemma_child_height(b, '1');
    lemma_child_height(b, '2');
    assert(height(empty_trie()) == 1);
}

/// Law: a trie never diverges from itself.
pub proof fn lemma_diff_self(t: Trie)
    ensures
        diff_spec(t, t) is None,
{
}

/// A divergence path found between tries of depth at most `d` is at
/// most `d` digits long and holds only base-3 digit characters.
pub proof fn lemma_diff_path(a: Trie, b: Trie, d: int)
    requires
        depth_le(a, d),
        depth_le(b, d),
        d >= 0,
    ensures
        diff_spec(a, b) matches Some(p) ==> p.len() <= d && is_key(p),
    decreases height(a) + height(b),
{
    lemma_height_pos(a);
    lemma_height_pos(b);
    lemma_child_height(a, '0');
    lemma_child_height(a, '1');
    lemma_child_height(a, '2');
    lemma_child_height(b, '0');
    lemma_child_height(b, '1');
    lemma_child_height(b, '2');
    if a.hash == b.hash {
    } else if kid_differs(a, b, '0') {
        lemma_diff_path(child_or_empty(a, '0'), child_or_empty(b, '0'), d - 1);
    } else if kid_differs(a, b, '1') {
        lemma_diff_path(child_or_empty(a, '1'), child_or_empty(b, '1'), d - 1);
    } else if kid_differs(a, b, '2') {
        lemma_diff_path(child_or_empty(a, '2'), child_or_empty(b, '2'), d - 1);
    }
}

/// Whether `t` holds a node at the end of path `k`.
pub open spec fn contains_path(t: Trie, k: Seq<char>) -> bool
    decreases k.len(),
{
    k.len() > 0 ==> match child_of(t, k[0]) {
        Some(b) => contains_path(*b, k.skip(1)),
        None => false,
    }
}

/// A node carrying no contribution: hash 0 and no children.
pub open spec fn is_empty_node(t: Trie) -> bool {
    t == empty_trie()
}

/// The trie after XORing `h` back out of every node along the path `k`,
/// deleting children that end up empty; absent portions of the path are
/// left untouched.
pub open spec fn remove_spec(t: Trie, k: Seq<char>, h: u32) -> Trie
    decreases k.len(),
{
    let t1 = Trie { hash: t.hash ^ h, zero: t.zero, one: t.one, two: t.two };
    if k.len() == 0 {
        t1
    } else {
        match child_of(t, k[0]) {
            Some(b) => {
                let sub = remove_spec(*b, k.skip(1), h);
                if is_empty_node(sub) {
                    with_child(t1, k[0], None)
                } else {
                    with_child(t1, k[0], Some(Box::new(sub)))
                }
            },
            None => t1,
        }
    }
}

/// Pruning: removes one contribution along its key when the full path
/// exists, and otherwise leaves the trie unchanged.
pub open spec fn prune_spec(t: Trie, k: Seq<char>, h: u32) -> Trie {
    if contains_path(t, k) {
        remove_spec(t, k, h)
    } else {
        t
    }
}

/// The hash of the node reached by path `p`, or 0 where no node exists.
pub open spec fn hash_at(t: Trie, p: Seq<char>) -> u32
    decreases p.len(),
{
    if p.len() == 0 {
        t.hash
    } else {
        match child_of(t, p[0]) {
            Some(b) => hash_at(*b, p.skip(1)),
            None => 0u32,
        }
    }
}

/// The trie obtained by filing every timestamp of `ts`, first to last.
pub open spec fn build_spec(ts: Seq<Timestamp>) -> Trie
    decreases ts.len(),
{
    if ts.len() == 0 {
        empty_trie()
    } else {
        insert_spec(build_spec(ts.drop_last()), key_of(ts.last()), hash_of(ts.last()))
    }
}

/// The key digits under which a node has children, in ascending order.
pub open spec fn keys_spec(t: Trie) -> Seq<Seq<char>> {
    (if t.zero is Some {
        seq![seq!['0']]
    } else {
        Seq::empty()
    }) + (if t.one is Some {
        seq![seq!['1']]
    } else {
        Seq::empty()
    }) + (if t.two is Some {
        seq![seq!['2']]
    } else {
        Seq::empty()
    })
}

impl Trie {
    /// The one-digit keys of the children present at this node, in
    /// ascending order.
    pub fn get_keys(&self) -> (r: Vec<String>)
        ensures
            r@.map_values(|s: String| s@) == keys_spec(*self),
    {
        proof {
            reveal_strlit("0");
            reveal_strlit("1");
            reveal_strlit("2");
        }
        let mut r: Vec<String> = Vec::new();
        if self.zero.is_some() {
            r.push("0".to_owned());
        }
        if self.one.is_some() {
            r.push("1".to_owned());
        }
        if self.two.is_some() {
            r.push("2".to_owned());
        }
        proof {
            assert(r@.map_values(|s: String| s@) =~~= keys_spec(*self));
        }
        r
    }
}

impl Default for Trie {
    /// The default trie is the empty trie.
    fn default() -> (r: Self)
        ensures
            r == empty_trie(),
    {
        Trie::new()
    }
}

/// The child field selected by a key character.
spec fn slot_of(c: char) -> int {
    if c == '0' {
        0
    } else if c == '1' {
        1
    } else {
        2
    }
}

proof fn lemma_xor_cancel(a: u32, h: u32)
    ensures
        (a ^ h) ^ h == a,
{
    assert((a ^ h) ^ h == a) by (bit_vector);
}

proof fn lemma_xor_swap(a: u32, h1: u32, h2: u32)
    ensures
        (a ^ h1) ^ h2 == (a ^ h2) ^ h1,
{
    assert((a ^ h1) ^ h2 == (a ^ h2) ^ h1) by (bit_vector);
}

/// Law: two insertions commute — the resulting trie does not depend on
/// their order.
pub proof fn lemma_insert_commutes(t: Trie, k1: Seq<char>, h1: u32, k2: Seq<char>, h2: u32)
    ensures
        insert_spec(insert_spec(t, k1, h1), k2, h2) == insert_spec(insert_spec(t, k2, h2), k1, h1),
    decreases k1.len() + k2.len(),
{
    lemma_xor_swap(t.hash, h1, h2);
    if k1.len() > 0 && k2.len() > 0 && slot_of(k1[0]) == slot_of(k2[0]) {
        lemma_insert_commutes(child_or_empty(t, k1[0]), k1.skip(1), h1, k2.skip(1), h2);
    }
}

/// Filing the element at index `i` last gives the same trie.
proof fn lemma_build_pull_out(s: Seq<Timestamp>, i: int)
    requires
        0 <= i < s.len(),
    ensures
        build_spec(s) == insert_spec(build_spec(s.remove(i)), key_of(s[i]), hash_of(s[i])),
    decreases s.len(),
{
    if i == s.len() - 1 {
        assert(s.remove(i) =~= s.drop_last());
    } else {
        let d = s.drop_last();
        lemma_build_pull_out(d, i);
        lemma_insert_commutes(
            build_spec(d.remove(i)),
            key_of(s[i]),
            hash_of(s[i]),
            key_of(s.last()),
            hash_of(s.last()),
        );
        assert(s.remove(i).drop_last() =~= d.remove(i));
        assert(s.remove(i).last() == s.last());
    }
}

/// Law: the trie built from a sequence of timestamps depends only on
/// the multiset of timestamps, never on their order; in particular the
/// root hash and the hash at every node agree between permutations.
pub proof fn lemma_build_order_independent(s1: Seq<Timestamp>, s2: Seq<Timestamp>)
    requires
        s1.to_multiset() == s2.to_multiset(),
    ensures
        build_spec(s1) == build_spec(s2),
        forall|p: Seq<char>| hash_at(build_spec(s1), p) == hash_at(build_spec(s2), p),
    decreases s1.len(),
{
    broadcast use vstd::seq_lib::group_to_multiset_ensures;

    if s1.len() == 0 {
        assert(s1.to_multiset().len() == s1.len());
        assert(s2.to_multiset().len() == s2.len());
        assert(s2.len() == 0);
    } else {
        let li = s1.len() - 1;
        let x = s1[li];
        assert(s1.contains(x));
        assert(s2.to_multiset().count(x) > 0);
        assert(s2.contains(x));
        let i = choose|i: int| 0 <= i < s2.len() && s2[i] == x;
        lemma_build_pull_out(s2, i);
        assert(s1.drop_last() =~= s1.remove(li));
        assert(s1.remove(li).to_multiset() =~= s1.to_multiset().remove(x));
        assert(s2.remove(i).to_multiset() =~= s2.to_multiset().remove(x));
        lemma_build_order_independent(s1.drop_last(), s2.remove(i));
    }
}

proof fn lemma_hash_at_empty(p: Seq<char>)
    ensures
        hash_at(empty_trie(), p) == 0,
{
}

/// Insertion creates the full path of its key.
proof fn lemma_insert_contains(t: Trie, k: Seq<char>, h: u32)
    ensures
        contains_path(insert_spec(t, k, h), k),
    decreases k.len(),
{
    if k.len() > 0 {
        lemma_insert_contains(child_or_empty(t, k[0]), k.skip(1), h);
    }
}

proof fn lemma_remove_insert_hash_at(t: Trie, k: Seq<char>, h: u32, p: Seq<char>)
    ensures
        hash_at(remove_spec(insert_spec(t, k, h), k, h), p) == hash_at(t, p),
    decreases k.len(),
{
    lemma_xor_cancel(t.hash, h);
    if k.len() == 0 {
        assert(remove_spec(insert_spec(t, k, h), k, h) == t);
    } else {
        let c = k[0];
        let sub = child_or_empty(t, c);
        if p.len() > 0 && slot_of(p[0]) == slot_of(c) {
            lemma_remove_insert_hash_at(sub, k.skip(1), h, p.skip(1));
            lemma_hash_at_empty(p.skip(1));
        }
    }
}

/// Law: inserting a timestamp's contribution and then pruning it
/// restores the hash of every node, present or absent, to its prior
/// value.
pub proof fn lemma_insert_prune_roundtrip(t: Trie, k: Seq<char>, h: u32)
    ensures
        forall|p: Seq<char>| #[trigger] hash_at(prune_spec(insert_spec(t, k, h), k, h), p)
            == hash_at(t, p),
{
    lemma_insert_contains(t, k, h);
    assert forall|p: Seq<char>| #[trigger] hash_at(prune_spec(insert_spec(t, k, h), k, h), p)
        == hash_at(t, p) by {
        lemma_remove_insert_hash_at(t, k, h, p);
    }
}

/// Whether `p` is a prefix of `k`.
pub open spec fn is_prefix_of(p: Seq<char>, k: Seq<char>) -> bool {
    p.len() <= k.len() && k.take(p.len() as int) == p
}

/// The XOR of the hashes of exactly those timestamps of `s` whose key
/// passes through the node at path `p`.
pub open spec fn subtree_xor(s: Seq<Timestamp>, p: Seq<char>) -> u32
    decreases s.len(),
{
    if s.len() == 0 {
        0u32
    } else {
        let rest = subtree_xor(s.drop_last(), p);
        if is_prefix_of(p, key_of(s.last())) {
            rest ^ hash_of(s.last())
        } else {
            rest
        }
    }
}

proof fn lemma_insert_hash_at(t: Trie, k: Seq<char>, h: u32, p: Seq<char>)
    requires
        is_key(k),
        is_key(p),
    ensures
        hash_at(insert_spec(t, k, h), p) == if is_prefix_of(p, k) {
            hash_at(t, p) ^ h
        } else {
            hash_at(t, p)
        },
    decreases p.len(),
{
    if p.len() == 0 {
        assert(k.take(0) =~= p);
    } else if k.len() == 0 {
    } else {
        let d = p[0];
        let c = k[0];
        if d == c {
            lemma_insert_hash_at(child_or_empty(t, c), k.skip(1), h, p.skip(1));
            lemma_hash_at_empty(p.skip(1));
            assert(is_prefix_of(p, k) <==> is_prefix_of(p.skip(1), k.skip(1))) by {
                if is_prefix_of(p.skip(1), k.skip(1)) && p.len() <= k.len() {
                    assert forall|i: int| 0 <= i < p.len() implies k.take(p.len() as int)[i]
                        == p[i] by {
                        if i > 0 {
                            assert(p[i] == p.skip(1)[i - 1]);
                            assert(k.skip(1).take(p.len() - 1)[i - 1] == k[i]);
                        }
                    }
                    assert(k.take(p.len() as int) =~= p);
                }
                if is_prefix_of(p, k) {
                    assert forall|i: int| 0 <= i < p.len() - 1 implies k.skip(1).take(
                        p.len() - 1,
                    )[i] == p.skip(1)[i] by {
                        assert(k.take(p.len() as int)[i + 1] == p[i + 1]);
                    }
                    assert(k.skip(1).take(p.len() - 1) =~= p.skip(1));
                }
            }
        } else {
            if p.len() <= k.len() {
                assert(k.take(p.len() as int)[0] == c);
            }
        }
    }
}

/// Law: in a built trie, the hash at every node — present or absent —
/// is the XOR of the hashes of exactly those timestamps whose key
/// passes through that node; the root (the empty path) carries the XOR
/// of them all.
pub proof fn lemma_node_hash_is_subtree_xor(s: Seq<Timestamp>, p: Seq<char>)
    requires
        forall|i: int| 0 <= i < s.len() ==> 0 <= #[trigger] s[i].millis <= MAX_KEY_MILLIS,
        is_key(p),
    ensures
        hash_at(build_spec(s), p) == subtree_xor(s, p),
    decreases s.len(),
{
    if s.len() == 0 {
        lemma_hash_at_empty(p);
    } else {
        lemma_node_hash_is_subtree_xor(s.drop_last(), p);
        crate::keys::lemma_key_of_form(s.last());
        lemma_insert_hash_at(build_spec(s.drop_last()), key_of(s.last()), hash_of(s.last()), p);
    }
}

/// Insertion with a key of at most `d` digits keeps every path within
/// depth `d`.
pub proof fn lemma_insert_depth(t: Trie, k: Seq<char>, h: u32, d: int)
    requires
        depth_le(t, d),
        k.len() <= d,
    ensures
        depth_le(insert_spec(t, k, h), d),
    decreases k.len(),
{
    if k.len() > 0 {
        lemma_insert_depth(child_or_empty(t, k[0]), k.skip(1), h, d - 1);
    }
}

/// A trie built from timestamps in the supported range keeps every
/// path within the 16-digit key depth that `diff` expects.
pub proof fn lemma_build_depth(s: Seq<Timestamp>)
    requires
        forall|i: int| 0 <= i < s.len() ==> 0 <= #[trigger] s[i].millis <= MAX_KEY_MILLIS,
    ensures
        depth_le(build_spec(s), 16),
    decreases s.len(),
{
    if s.len() > 0 {
        lemma_build_depth(s.drop_last());
        crate::keys::lemma_key_of_form(s.last());
        lemma_insert_depth(
            build_spec(s.drop_last()),
            key_of(s.last()),
            hash_of(s.last()),
            16,
        );
    }
}

} // verus!

