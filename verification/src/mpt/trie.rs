//! The Merkle-Patricia trie: a map from string keys to byte values, stored
//! along the nibble paths of the keys, with a root hash over its structure.

use vstd::prelude::*;
use crate::error::Result;
use crate::text::bytes_eq;
use crate::proofs::MerkleProof;
use vstd::string::*;
use crate::mpt::hash::{
    KeyUtils, PathUtils, key_path, is_nibble_seq, is_common_prefix_len, lemma_key_path_injective,
    lemma_key_path_nibbles,
};
use crate::mpt::listing::{
    entries, own_entry, children_entries, child_entries, path_lt, lemma_entries, lemma_entries_complete,
    lemma_path_lt_irreflexive, lemma_path_lt_asymmetric,
};
use crate::mpt::hash::{spec_pack_nibbles, lemma_nibbles_roundtrip};
use crate::digest::{sha256, spec_sha256, hex_encode, spec_hex};
use vstd::utf8::{valid_utf8, decode_utf8};
use crate::mpt::node::{
    MPTNode, CompactEncoding, spec_encode, spec_decode, decoded_path, lemma_decode_encode, has_prefix,
    suffix, opt_view, children_wf, lemma_children_wf, lemma_children_wf_update, empty_children,
    no_children, decode_path, spec_node_hash, copy_bytes, node_json, occurs_in, json_array,
    lemma_node_json_holds_values,
};

verus! {

/// Merkle-Patricia Trie main structure
#[derive(Debug)]
pub struct MerklePatriciaTrie {
    root: MPTNode,
}

/// Every stored path is the path of some string key.
pub open spec fn paths_are_keys(root: MPTNode) -> bool {
    forall|p: Seq<u8>| #[trigger] root.lookup(p) is Some ==> exists|s: Seq<char>| key_path(s) == p
}

/// `new` stores `v` under `k` and otherwise what `old` stores.
pub open spec fn stores(new: MPTNode, old: MPTNode, k: Seq<u8>, v: Seq<u8>) -> bool {
    forall|q: Seq<u8>| #[trigger] new.lookup(q) == if q == k { Some(v) } else { old.lookup(q) }
}

/// `new` stores nothing under `k` and otherwise what `old` stores.
pub open spec fn drops(new: MPTNode, old: MPTNode, k: Seq<u8>) -> bool {
    forall|q: Seq<u8>| #[trigger] new.lookup(q) == if q == k { None } else { old.lookup(q) }
}

proof fn lemma_split_eq(q: Seq<u8>, k: Seq<u8>, n: int)
    requires
        0 <= n <= k.len(),
    ensures
        (q == k) == (has_prefix(q, k.subrange(0, n)) && suffix(q, n) == suffix(k, n)),
{
    if q == k {
        assert(q.subrange(0, n) =~= k.subrange(0, n));
    }
    if has_prefix(q, k.subrange(0, n)) && suffix(q, n) == suffix(k, n) {
        assert(q =~= q.subrange(0, n) + suffix(q, n));
        assert(k =~= k.subrange(0, n) + suffix(k, n));
    }
}

proof fn lemma_suffix_step(s: Seq<u8>, n: int)
    requires
        0 <= n < s.len(),
    ensures
        suffix(s, n).len() > 0,
        suffix(s, n)[0] == s[n],
        suffix(s, n).drop_first() == suffix(s, n + 1),
{
    assert(suffix(s, n).drop_first() =~= suffix(s, n + 1));
}

/// Two non-empty sequences are equal exactly when their heads and their
/// tails are.
proof fn lemma_head_tail_eq(a: Seq<u8>, b: Seq<u8>)
    requires
        a.len() > 0,
        b.len() > 0,
    ensures
        (a == b) == (a[0] == b[0] && a.drop_first() == b.drop_first()),
{
    if a[0] == b[0] && a.drop_first() == b.drop_first() {
        assert(a =~= seq![a[0]] + a.drop_first());
        assert(b =~= seq![b[0]] + b.drop_first());
    }
}

/// A path equals `k` exactly when it agrees with `k` on the first `n`
/// elements, on the element at `n`, and after it.
proof fn lemma_split_next(q: Seq<u8>, k: Seq<u8>, n: int)
    requires
        0 <= n < k.len(),
    ensures
        (q == k) == (has_prefix(q, k.subrange(0, n)) && n < q.len() && q[n] == k[n] && suffix(q, n + 1)
            == suffix(k, n + 1)),
{
    if q == k {
        assert(q.subrange(0, n) =~= k.subrange(0, n));
    }
    if has_prefix(q, k.subrange(0, n)) && n < q.len() && q[n] == k[n] && suffix(q, n + 1) == suffix(k, n + 1) {
        assert(suffix(q, n + 1).len() == suffix(k, n + 1).len());
        assert forall|j: int| 0 <= j < q.len() implies q[j] == k[j] by {
            if j < n {
                assert(q.subrange(0, n)[j] == k.subrange(0, n)[j]);
            } else if j > n {
                assert(suffix(q, n + 1)[j - n - 1] == suffix(k, n + 1)[j - n - 1]);
            }
        }
        assert(q =~= k);
    }
}

/// `p` is a prefix of `q` exactly when its first `n` elements are, the
/// element at `n` agrees, and the rest of `p` is a prefix of the rest of `q`.
proof fn lemma_prefix_next(q: Seq<u8>, p: Seq<u8>, n: int)
    requires
        0 <= n < p.len(),
    ensures
        has_prefix(q, p) == (has_prefix(q, p.subrange(0, n)) && n < q.len() && q[n] == p[n] && has_prefix(
            suffix(q, n + 1),
            suffix(p, n + 1),
        )),
        has_prefix(q, p) ==> suffix(suffix(q, n + 1), p.len() - n - 1) == suffix(q, p.len() as int),
{
    let b = suffix(p, n + 1);
    if has_prefix(q, p) {
        assert(q.subrange(0, n) =~= p.subrange(0, n)) by {
            assert forall|j: int| 0 <= j < n implies q.subrange(0, n)[j] == p.subrange(0, n)[j] by {
                assert(q.subrange(0, p.len() as int)[j] == p[j]);
            }
        }
        assert(q[n] == q.subrange(0, p.len() as int)[n]);
        assert(suffix(q, n + 1).subrange(0, b.len() as int) =~= b) by {
            assert forall|j: int| 0 <= j < b.len() implies suffix(q, n + 1).subrange(0, b.len() as int)[j]
                == b[j] by {
                assert(q.subrange(0, p.len() as int)[n + 1 + j] == p[n + 1 + j]);
            }
        }
        assert(suffix(suffix(q, n + 1), b.len() as int) =~= suffix(q, p.len() as int));
    }
    if has_prefix(q, p.subrange(0, n)) && n < q.len() && q[n] == p[n] && has_prefix(suffix(q, n + 1), b) {
        assert(q.subrange(0, p.len() as int) =~= p) by {
            assert forall|j: int| 0 <= j < p.len() implies q[j] == p[j] by {
                if j < n {
                    assert(q.subrange(0, n)[j] == p.subrange(0, n)[j]);
                } else if j > n {
                    assert(suffix(q, n + 1).subrange(0, b.len() as int)[j - n - 1] == b[j - n - 1]);
                }
            }
        }
    }
}

proof fn lemma_subrange_nibbles(s: Seq<u8>, i: int, j: int)
    requires
        is_nibble_seq(s),
        0 <= i <= j <= s.len(),
    ensures
        is_nibble_seq(s.subrange(i, j)),
{
    assert forall|k: int| 0 <= k < j - i implies #[trigger] s.subrange(i, j)[k] < 16 by {
        assert(s.subrange(i, j)[k] == s[i + k]);
    }
}

/// Whether `s` starts with `prefix`.
fn starts_with(s: &[u8], prefix: &[u8]) -> (b: bool)
    ensures
        b == has_prefix(s@, prefix@),
{
    if prefix.len() > s.len() {
        return false;
    }
    let head = vstd::slice::slice_subrange(s, 0, prefix.len());
    bytes_eq(head, prefix)
}

/// A leaf holding `value` under `path`.
fn new_leaf(path: &[u8], value: Vec<u8>) -> (node: MPTNode)
    requires
        is_nibble_seq(path@),
    ensures
        node.wf(),
        node is Leaf,
        forall|q: Seq<u8>| #[trigger] node.lookup(q) == if q == path@ { Some(value@) } else { None },
        is_leaf_at(node, path@, value@),
{
    let encoded = CompactEncoding::encode(path, true);
    proof {
        lemma_decode_encode(path@, true);
    }
    MPTNode::Leaf { path: encoded, value }
}

/// A leaf holding `value` under `path`, its path written in the compact
/// encoding with the terminator flag.
pub open spec fn is_leaf_at(node: MPTNode, path: Seq<u8>, value: Seq<u8>) -> bool {
    node matches MPTNode::Leaf { path: p, value: w } && p@ == spec_encode(path, true) && w@ == value
}

/// A branch without a value whose only children are `ci` at `i` and `cj`
/// at `j`.
pub open spec fn is_two_child_branch(node: MPTNode, i: int, ci: MPTNode, j: int, cj: MPTNode) -> bool {
    node matches MPTNode::Branch { children, value } && value is None && children@.len() == 16
        && children@[i] == Some(Box::new(ci)) && children@[j] == Some(Box::new(cj)) && forall|k: int|
        0 <= k < 16 && k != i && k != j ==> #[trigger] children@[k] is None
}

/// The branch that splitting a leaf makes where its path `dp` and the new
/// key `k` part at position `c`: no value, and only two children, leaves
/// of the rest of each path.
pub open spec fn split_branch(b: MPTNode, dp: Seq<u8>, k: Seq<u8>, c: int, ev: Seq<u8>, v: Seq<u8>) -> bool {
    &&& b matches MPTNode::Branch { children, value } && value is None && children@.len() == 16 && (
    children@[dp[c] as int] matches Some(x) && is_leaf_at(*x, dp.subrange(c + 1, dp.len() as int), ev)) && (
    children@[k[c] as int] matches Some(y) && is_leaf_at(*y, k.subrange(c + 1, k.len() as int), v))
        && forall|i: int| 0 <= i < 16 && i != dp[c] && i != k[c] ==> #[trigger] children@[i] is None
}

/// The node that splitting a leaf makes: the split branch, under an
/// extension with the common prefix when there is one.
pub open spec fn split_shape(node: MPTNode, dp: Seq<u8>, k: Seq<u8>, c: int, ev: Seq<u8>, v: Seq<u8>) -> bool {
    &&& c == 0 ==> split_branch(node, dp, k, c, ev, v)
    &&& c > 0 ==> (node matches MPTNode::Extension { path, child } && path@ == spec_encode(k.subrange(0, c), false)
        && split_branch(*child, dp, k, c, ev, v))
}

/// `node` reached through `prefix`: an extension node when the prefix is
/// not empty, the node itself otherwise.
fn wrap_extension(prefix: &[u8], node: MPTNode) -> (wrapped: MPTNode)
    requires
        node.wf(),
        is_nibble_seq(prefix@),
    ensures
        wrapped.wf(),
        forall|q: Seq<u8>| #[trigger]
            wrapped.lookup(q) == if has_prefix(q, prefix@) {
                node.lookup(suffix(q, prefix@.len() as int))
            } else {
                None
            },
        prefix@.len() == 0 ==> wrapped == node,
        prefix@.len() > 0 ==> (wrapped matches MPTNode::Extension { path, child } && path@ == spec_encode(
            prefix@,
            false,
        ) && *child == node),
{
    if prefix.len() > 0 {
        let path = CompactEncoding::encode(prefix, false);
        proof {
            lemma_decode_encode(prefix@, false);
        }
        MPTNode::Extension { path, child: Box::new(node) }
    } else {
        proof {
            assert forall|q: Seq<u8>| #[trigger]
                node.lookup(q) == if has_prefix(q, prefix@) {
                    node.lookup(suffix(q, prefix@.len() as int))
                } else {
                    None
                } by {
                assert(suffix(q, 0) =~= q);
                assert(q.subrange(0, 0) =~= prefix@);
            }
        }
        node
    }
}

/// A branch with one child and an optional value of its own.
fn single_child_branch(index: u8, child: MPTNode, value: Option<Vec<u8>>) -> (node: MPTNode)
    requires
        index < 16,
        child.wf(),
    ensures
        node.wf(),
        forall|q: Seq<u8>| #[trigger]
            node.lookup(q) == if q.len() == 0 {
                opt_view(value)
            } else if q[0] == index {
                child.lookup(q.drop_first())
            } else {
                None
            },
{
    let mut children = empty_children();
    let ghost c0 = children@;
    let ghost boxed = Some(Box::new(child));
    children[index as usize] = Some(Box::new(child));
    proof {
        lemma_children_wf_update(c0, index as int, boxed);
        assert(children@ == c0.update(index as int, boxed));
    }
    MPTNode::Branch { children, value }
}

/// A branch with two children at distinct indices and no value.
fn two_child_branch(i: u8, ci: MPTNode, j: u8, cj: MPTNode) -> (node: MPTNode)
    requires
        i < 16,
        j < 16,
        i != j,
        ci.wf(),
        cj.wf(),
    ensures
        node.wf(),
        forall|q: Seq<u8>| #[trigger]
            node.lookup(q) == if q.len() == 0 {
                None
            } else if q[0] == i {
                ci.lookup(q.drop_first())
            } else if q[0] == j {
                cj.lookup(q.drop_first())
            } else {
                None
            },
        is_two_child_branch(node, i as int, ci, j as int, cj),
{
    let mut children = empty_children();
    let ghost c0 = children@;
    let ghost bi = Some(Box::new(ci));
    let ghost bj = Some(Box::new(cj));
    children[i as usize] = Some(Box::new(ci));
    let ghost c1 = children@;
    children[j as usize] = Some(Box::new(cj));
    proof {
        lemma_children_wf_update(c0, i as int, bi);
        assert(c1 == c0.update(i as int, bi));
        lemma_children_wf_update(c1, j as int, bj);
        assert(children@ == c1.update(j as int, bj));
    }
    MPTNode::Branch { children, value: None }
}

impl MerklePatriciaTrie {
    #[verifier::type_invariant]
    spec fn inv(&self) -> bool {
        &&& self.root.wf()
        &&& paths_are_keys(self.root)
    }

    /// The root node.
    pub closed spec fn spec_root(&self) -> MPTNode {
        self.root
    }

    /// Create a new empty MPT
    pub fn new() -> (mpt: Self)
        ensures
            mpt@ == Map::<Seq<char>, Seq<u8>>::empty(),
            mpt.spec_root() is Empty,
    {
        let mpt = MerklePatriciaTrie { root: MPTNode::Empty };
        assert(mpt@ =~= Map::<Seq<char>, Seq<u8>>::empty());
        mpt
    }

    /// Check if the MPT is empty: it stores no pairs (whatever nodes are
    /// left after removals).
    pub fn is_empty(&self) -> (b: bool)
        ensures
            b == (self@ == Map::<Seq<char>, Seq<u8>>::empty()),
    {
        if let MPTNode::Empty = &self.root {
            assert(self@ =~= Map::<Seq<char>, Seq<u8>>::empty());
            return true;
        }
        let all = self.get_all();
        proof {
            if all@.len() == 0 {
                assert forall|s: Seq<char>| !self@.contains_key(s) by {
                    if self@.contains_key(s) {
                        let i = choose|i: int| 0 <= i < all@.len() && #[trigger] all@[i].0@ == s;
                    }
                }
                assert(self@ =~= Map::<Seq<char>, Seq<u8>>::empty());
            } else {
                assert(self@.contains_key(all@[0].0@));
                assert(!Map::<Seq<char>, Seq<u8>>::empty().contains_key(all@[0].0@));
            }
        }
        all.len() == 0
    }

    /// Get a value by key
    pub fn get(&self, key: &str) -> (res: Option<Vec<u8>>)
        ensures
            opt_view(res) == if self@.contains_key(key@) { Some(self@[key@]) } else { None },
    {
        proof {
            use_type_invariant(self);
        }
        let nibbles = KeyUtils::string_to_nibbles(key);
        self.get_recursive(&self.root, nibbles.as_slice())
    }

    fn get_recursive(&self, node: &MPTNode, nibbles: &[u8]) -> (res: Option<Vec<u8>>)
        requires
            node.wf(),
            is_nibble_seq(nibbles@),
        ensures
            opt_view(res) == node.lookup(nibbles@),
        decreases node,
    {
        match node {
            MPTNode::Empty => None,
            MPTNode::Leaf { path, value } => {
                let (decoded_path, is_terminal) = decode_path(path.as_slice());
                if bytes_eq(decoded_path.as_slice(), nibbles) && is_terminal {
                    Some(crate::mpt::node::copy_bytes(value))
                } else {
                    None
                }
            },
            MPTNode::Extension { path, child } => {
                let (decoded_path, _) = decode_path(path.as_slice());
                if starts_with(nibbles, decoded_path.as_slice()) {
                    let remaining = vstd::slice::slice_subrange(nibbles, decoded_path.len(), nibbles.len());
                    proof {
                        lemma_subrange_nibbles(nibbles@, decoded_path@.len() as int, nibbles@.len() as int);
                    }
                    self.get_recursive(child, remaining)
                } else {
                    None
                }
            },
            MPTNode::Branch { children, value } => {
                if nibbles.len() == 0 {
                    match value {
                        Some(v) => Some(crate::mpt::node::copy_bytes(v)),
                        None => None,
                    }
                } else {
                    let index = nibbles[0] as usize;
                    match &children[index] {
                        Some(child) => {
                            let remaining = vstd::slice::slice_subrange(nibbles, 1, nibbles.len());
                            proof {
                                lemma_children_wf(children@, index as int);
                                lemma_subrange_nibbles(nibbles@, 1, nibbles@.len() as int);
                                assert(remaining@ =~= nibbles@.drop_first());
                                crate::mpt::node::lemma_child_decreases(*node, index as int);
                            }
                            self.get_recursive(child, remaining)
                        },
                        None => None,
                    }
                }
            },
        }
    }
}

impl MerklePatriciaTrie {
    /// Insert a key-value pair into the MPT
    pub fn insert(&mut self, key: &str, value: Vec<u8>) -> (res: Result<()>)
        ensures
            res is Ok,
            final(self)@ == old(self)@.insert(key@, value@),
            !(final(self).spec_root() is Empty),
            old(self).spec_root() is Empty ==> final(self).spec_root() is Leaf,
    {
        proof {
            use_type_invariant(&*self);
        }
        let nibbles = KeyUtils::string_to_nibbles(key);
        let ghost old_root = self.root;
        let mut root = MPTNode::Empty;
        std::mem::swap(&mut root, &mut self.root);
        let new_root = self.insert_recursive(root, nibbles.as_slice(), value);
        proof {
            assert forall|p: Seq<u8>| #[trigger] new_root.lookup(p) is Some implies exists|s: Seq<char>|
                key_path(s) == p by {
                if p == nibbles@ {
                    assert(key_path(key@) == p);
                } else {
                    assert(old_root.lookup(p) is Some);
                }
            }
            assert(!(new_root is Empty)) by {
                assert(new_root.lookup(nibbles@) is Some);
            }
        }
        self.root = new_root;
        proof {
            assert forall|s: Seq<char>| #[trigger] final(self)@.contains_key(s) == old(self)@.insert(key@, value@).contains_key(s)
                && (final(self)@.contains_key(s) ==> final(self)@[s] == old(self)@.insert(key@, value@)[s]) by {
                if s != key@ {
                    if key_path(s) == key_path(key@) {
                        lemma_key_path_injective(s, key@);
                    }
                }
            }
            assert(final(self)@ =~= old(self)@.insert(key@, value@));
        }
        Ok(())
    }

    // Recursive insert implementation
    fn insert_recursive(&self, node: MPTNode, nibbles: &[u8], value: Vec<u8>) -> (new_node: MPTNode)
        requires
            node.wf(),
            is_nibble_seq(nibbles@),
        ensures
            new_node.wf(),
            stores(new_node, node, nibbles@, value@),
            node is Empty ==> new_node is Leaf,
        decreases node, 0int,
    {
        match node {
            MPTNode::Empty => self.handle_insert_empty(nibbles, value),
            MPTNode::Leaf { path, value: existing_value } => self.handle_insert_leaf(
                path,
                existing_value,
                nibbles,
                value,
            ),
            MPTNode::Extension { path, child } => {
                proof {
                    assert(decreases_to!(node => child));
                }
                self.handle_insert_extension(path, *child, nibbles, value)
            },
            MPTNode::Branch { children, value: branch_value } => {
                proof {
                    assert(decreases_to!(node => children));
                }
                self.handle_insert_branch(children, branch_value, nibbles, value)
            },
        }
    }

    fn handle_insert_empty(&self, nibbles: &[u8], value: Vec<u8>) -> (node: MPTNode)
        requires
            is_nibble_seq(nibbles@),
        ensures
            node.wf(),
            node is Leaf,
            stores(node, MPTNode::Empty, nibbles@, value@),
    {
        new_leaf(nibbles, value)
    }

    fn handle_insert_leaf(
        &self,
        leaf_path: Vec<u8>,
        existing_value: Vec<u8>,
        nibbles: &[u8],
        value: Vec<u8>,
    ) -> (node: MPTNode)
        requires
            (MPTNode::Leaf { path: leaf_path, value: existing_value }).wf(),
            is_nibble_seq(nibbles@),
        ensures
            node.wf(),
            stores(node, MPTNode::Leaf { path: leaf_path, value: existing_value }, nibbles@, value@),
    {
        let ghost old_node = MPTNode::Leaf { path: leaf_path, value: existing_value };
        let ghost ev = existing_value@;
        let (decoded_leaf_path, _) = decode_path(leaf_path.as_slice());
        let ghost dp = decoded_leaf_path@;
        let ghost k = nibbles@;
        let common_len = PathUtils::common_prefix_length(decoded_leaf_path.as_slice(), nibbles);
        let ghost n = common_len as int;
        if common_len == decoded_leaf_path.len() && common_len == nibbles.len() {
            // Exact match - replace value
            proof {
                assert(dp =~= dp.subrange(0, n));
                assert(k =~= k.subrange(0, n));
            }
            new_leaf(nibbles, value)
        } else if common_len == decoded_leaf_path.len() {
            // Leaf path is prefix of new path - create extension + branch
            let ghost v = value@;
            let remaining_nibbles = vstd::slice::slice_subrange(nibbles, common_len + 1, nibbles.len());
            proof {
                lemma_subrange_nibbles(k, n + 1, k.len() as int);
            }
            let leaf = new_leaf(remaining_nibbles, value);
            let new_branch = single_child_branch(nibbles[common_len], leaf, Some(existing_value));
            let prefix = vstd::slice::slice_subrange(decoded_leaf_path.as_slice(), 0, common_len);
            proof {
                lemma_subrange_nibbles(dp, 0, n);
            }
            let result = wrap_extension(prefix, new_branch);
            proof {
                assert(prefix@ =~= dp);
                assert(k.subrange(0, n) =~= dp);
                assert(dp.subrange(0, n) =~= dp);
                assert forall|q: Seq<u8>| #[trigger]
                    result.lookup(q) == if q == k { Some(v) } else { old_node.lookup(q) } by {
                    lemma_split_eq(q, k, n);
                    lemma_split_eq(q, dp, n);
                    lemma_suffix_step(k, n);
                    assert(suffix(dp, n) =~= Seq::<u8>::empty());
                    if has_prefix(q, dp) {
                        if n < q.len() {
                            lemma_suffix_step(q, n);
                            lemma_head_tail_eq(suffix(q, n), suffix(k, n));
                        } else {
                            assert(suffix(q, n) =~= suffix(dp, n));
                        }
                    }
                }
            }
            result
        } else if common_len == nibbles.len() {
            // New key is a prefix of the leaf path - the leaf moves below a
            // branch that holds the new value
            let ghost v = value@;
            let remaining_path = vstd::slice::slice_subrange(
                decoded_leaf_path.as_slice(),
                common_len + 1,
                decoded_leaf_path.len(),
            );
            proof {
                lemma_subrange_nibbles(dp, n + 1, dp.len() as int);
            }
            let leaf = new_leaf(remaining_path, existing_value);
            let new_branch = single_child_branch(decoded_leaf_path[common_len], leaf, Some(value));
            let prefix = vstd::slice::slice_subrange(decoded_leaf_path.as_slice(), 0, common_len);
            proof {
                lemma_subrange_nibbles(dp, 0, n);
            }
            let result = wrap_extension(prefix, new_branch);
            proof {
                assert(prefix@ =~= k);
                assert(dp.subrange(0, n) =~= k);
                assert(k.subrange(0, n) =~= k);
                assert forall|q: Seq<u8>| #[trigger]
                    result.lookup(q) == if q == k { Some(v) } else { old_node.lookup(q) } by {
                    lemma_split_eq(q, k, n);
                    lemma_split_eq(q, dp, n);
                    lemma_suffix_step(dp, n);
                    assert(suffix(k, n) =~= Seq::<u8>::empty());
                    if has_prefix(q, k) {
                        if n < q.len() {
                            lemma_suffix_step(q, n);
                            lemma_head_tail_eq(suffix(q, n), suffix(dp, n));
                        } else {
                            assert(suffix(q, n) =~= suffix(k, n));
                        }
                    }
                }
            }
            result
        } else {
            // Split the leaf and create a branch
            self.split_leaf_and_branch(leaf_path, decoded_leaf_path, existing_value, common_len, nibbles, value)
        }
    }

    fn split_leaf_and_branch(
        &self,
        leaf_path: Vec<u8>,
        decoded_leaf_path: Vec<u8>,
        existing_value: Vec<u8>,
        common_len: usize,
        nibbles: &[u8],
        value: Vec<u8>,
    ) -> (node: MPTNode)
        requires
            (MPTNode::Leaf { path: leaf_path, value: existing_value }).wf(),
            decoded_leaf_path@ == decoded_path(leaf_path@),
            is_nibble_seq(nibbles@),
            is_common_prefix_len(decoded_leaf_path@, nibbles@, common_len as int),
            common_len < decoded_leaf_path@.len(),
            common_len < nibbles@.len(),
        ensures
            node.wf(),
            stores(node, MPTNode::Leaf { path: leaf_path, value: existing_value }, nibbles@, value@),
            split_shape(node, decoded_leaf_path@, nibbles@, common_len as int, existing_value@, value@),
    {
        let ghost old_node = MPTNode::Leaf { path: leaf_path, value: existing_value };
        let ghost dp = decoded_leaf_path@;
        let ghost k = nibbles@;
        let ghost n = common_len as int;
        let ghost v = value@;
        let ghost ev = existing_value@;
        let branch_index = decoded_leaf_path[common_len];
        let new_leaf_index = nibbles[common_len];
        let existing_rest = vstd::slice::slice_subrange(
            decoded_leaf_path.as_slice(),
            common_len + 1,
            decoded_leaf_path.len(),
        );
        let new_rest = vstd::slice::slice_subrange(nibbles, common_len + 1, nibbles.len());
        proof {
            lemma_subrange_nibbles(dp, n + 1, dp.len() as int);
            lemma_subrange_nibbles(k, n + 1, k.len() as int);
            lemma_subrange_nibbles(dp, 0, n);
        }
        let existing_leaf = new_leaf(existing_rest, existing_value);
        let added_leaf = new_leaf(new_rest, value);
        let branch = two_child_branch(branch_index, existing_leaf, new_leaf_index, added_leaf);
        let prefix = vstd::slice::slice_subrange(decoded_leaf_path.as_slice(), 0, common_len);
        let result = wrap_extension(prefix, branch);
        proof {
            assert(prefix@ =~= k.subrange(0, n));
            assert(existing_rest@ =~= dp.subrange(n + 1, dp.len() as int));
            assert(new_rest@ =~= k.subrange(n + 1, k.len() as int));
            assert forall|q: Seq<u8>| #[trigger]
                result.lookup(q) == if q == k { Some(v) } else { old_node.lookup(q) } by {
                lemma_split_next(q, k, n);
                lemma_split_next(q, dp, n);
                if n < q.len() {
                    lemma_suffix_step(q, n);
                }
            }
        }
        result
    }

    fn handle_insert_extension(
        &self,
        extension_path: Vec<u8>,
        child: MPTNode,
        nibbles: &[u8],
        value: Vec<u8>,
    ) -> (node: MPTNode)
        requires
            (MPTNode::Extension { path: extension_path, child: Box::new(child) }).wf(),
            is_nibble_seq(nibbles@),
        ensures
            node.wf(),
            stores(node, MPTNode::Extension { path: extension_path, child: Box::new(child) }, nibbles@, value@),
        decreases child, 1int,
    {
        let ghost old_node = MPTNode::Extension { path: extension_path, child: Box::new(child) };
        let (decoded_path, _) = decode_path(extension_path.as_slice());
        let ghost p = decoded_path@;
        let ghost k = nibbles@;
        let ghost v = value@;
        let common_len = PathUtils::common_prefix_length(decoded_path.as_slice(), nibbles);
        let ghost n = common_len as int;
        if common_len == decoded_path.len() {
            // Extension path is fully matched - recurse into child
            let remaining_nibbles = vstd::slice::slice_subrange(nibbles, common_len, nibbles.len());
            proof {
                lemma_subrange_nibbles(k, n, k.len() as int);
            }
            let new_child = self.insert_recursive(child, remaining_nibbles, value);
            let result = MPTNode::Extension { path: extension_path, child: Box::new(new_child) };
            proof {
                assert(k.subrange(0, n) =~= p);
                assert forall|q: Seq<u8>| #[trigger]
                    result.lookup(q) == if q == k { Some(v) } else { old_node.lookup(q) } by {
                    lemma_split_eq(q, k, n);
                    if has_prefix(q, p) {
                        assert(new_child.lookup(suffix(q, n)) == if suffix(q, n) == remaining_nibbles@ {
                            Some(v)
                        } else {
                            child.lookup(suffix(q, n))
                        });
                    }
                }
            }
            result
        } else if common_len == nibbles.len() {
            // New key is a prefix of the extension path - split the extension
            proof {
                assert(k.subrange(0, n) =~= k);
            }
            self.insert_above_extension(extension_path, decoded_path, child, nibbles, value)
        } else {
            // Split the extension at divergence point
            self.split_extension_and_branch(extension_path, decoded_path, child, common_len, nibbles, value)
        }
    }

    /// Inserts a key that ends inside an extension's path: a branch holding
    /// the new value takes the place of the extension at the key's end, with
    /// the rest of the extension below it.
    fn insert_above_extension(
        &self,
        extension_path: Vec<u8>,
        decoded_path: Vec<u8>,
        child: MPTNode,
        nibbles: &[u8],
        value: Vec<u8>,
    ) -> (node: MPTNode)
        requires
            (MPTNode::Extension { path: extension_path, child: Box::new(child) }).wf(),
            decoded_path@ == crate::mpt::node::decoded_path(extension_path@),
            is_nibble_seq(nibbles@),
            nibbles@.len() < decoded_path@.len(),
            decoded_path@.subrange(0, nibbles@.len() as int) == nibbles@,
        ensures
            node.wf(),
            stores(node, MPTNode::Extension { path: extension_path, child: Box::new(child) }, nibbles@, value@),
    {
        let ghost old_node = MPTNode::Extension { path: extension_path, child: Box::new(child) };
        let ghost p = decoded_path@;
        let ghost k = nibbles@;
        let ghost v = value@;
        let common_len = nibbles.len();
        let path_len = decoded_path.len();
        let ghost n = common_len as int;
        let child_index = decoded_path[common_len];
        let below = vstd::slice::slice_subrange(decoded_path.as_slice(), common_len + 1, path_len);
        proof {
            lemma_subrange_nibbles(p, n + 1, p.len() as int);
            lemma_subrange_nibbles(p, 0, n);
        }
        let moved = wrap_extension(below, child);
        let branch = single_child_branch(child_index, moved, Some(value));
        let prefix = vstd::slice::slice_subrange(decoded_path.as_slice(), 0, common_len);
        let result = wrap_extension(prefix, branch);
        proof {
            assert(prefix@ == k);
            assert(k.subrange(0, n) =~= k);
            assert forall|q: Seq<u8>| #[trigger]
                result.lookup(q) == if q == k { Some(v) } else { old_node.lookup(q) } by {
                lemma_prefix_next(q, p, n);
                lemma_split_eq(q, k, n);
                if has_prefix(q, k) {
                    if n < q.len() {
                        lemma_suffix_step(q, n);
                    } else {
                        assert(suffix(q, n) =~= suffix(k, n));
                    }
                }
            }
        }
        result
    }

    fn split_extension_and_branch(
        &self,
        extension_path: Vec<u8>,
        decoded_path: Vec<u8>,
        child: MPTNode,
        common_len: usize,
        nibbles: &[u8],
        value: Vec<u8>,
    ) -> (node: MPTNode)
        requires
            (MPTNode::Extension { path: extension_path, child: Box::new(child) }).wf(),
            decoded_path@ == crate::mpt::node::decoded_path(extension_path@),
            is_nibble_seq(nibbles@),
            is_common_prefix_len(decoded_path@, nibbles@, common_len as int),
            common_len < decoded_path@.len(),
            common_len < nibbles@.len(),
        ensures
            node.wf(),
            stores(node, MPTNode::Extension { path: extension_path, child: Box::new(child) }, nibbles@, value@),
    {
        let ghost old_node = MPTNode::Extension { path: extension_path, child: Box::new(child) };
        let ghost p = decoded_path@;
        let ghost k = nibbles@;
        let ghost n = common_len as int;
        let ghost v = value@;
        let branch_index = decoded_path[common_len];
        let new_index = nibbles[common_len];
        let below = vstd::slice::slice_subrange(decoded_path.as_slice(), common_len + 1, decoded_path.len());
        let new_rest = vstd::slice::slice_subrange(nibbles, common_len + 1, nibbles.len());
        proof {
            lemma_subrange_nibbles(p, n + 1, p.len() as int);
            lemma_subrange_nibbles(k, n + 1, k.len() as int);
            lemma_subrange_nibbles(p, 0, n);
        }
        let remaining_extension = CompactEncoding::encode(below, false);
        proof {
            lemma_decode_encode(below@, false);
        }
        let moved = MPTNode::Extension { path: remaining_extension, child: Box::new(child) };
        let added_leaf = new_leaf(new_rest, value);
        let branch = two_child_branch(branch_index, moved, new_index, added_leaf);
        let prefix = vstd::slice::slice_subrange(decoded_path.as_slice(), 0, common_len);
        let result = wrap_extension(prefix, branch);
        proof {
            assert forall|q: Seq<u8>| #[trigger]
                result.lookup(q) == if q == k { Some(v) } else { old_node.lookup(q) } by {
                lemma_split_next(q, k, n);
                lemma_prefix_next(q, p, n);
                if n < q.len() {
                    lemma_suffix_step(q, n);
                }
            }
        }
        result
    }

    fn handle_insert_branch(
        &self,
        children: Vec<Option<Box<MPTNode>>>,
        branch_value: Option<Vec<u8>>,
        nibbles: &[u8],
        value: Vec<u8>,
    ) -> (node: MPTNode)
        requires
            (MPTNode::Branch { children, value: branch_value }).wf(),
            is_nibble_seq(nibbles@),
        ensures
            node.wf(),
            stores(node, MPTNode::Branch { children, value: branch_value }, nibbles@, value@),
        decreases children, 1int,
    {
        let ghost old_node = MPTNode::Branch { children, value: branch_value };
        let ghost k = nibbles@;
        let ghost v = value@;
        let mut children = children;
        if nibbles.len() == 0 {
            // Insert at branch value
            let result = MPTNode::Branch { children, value: Some(value) };
            proof {
                assert forall|q: Seq<u8>| #[trigger]
                    result.lookup(q) == if q == k { Some(v) } else { old_node.lookup(q) } by {
                    if q.len() == 0 {
                        assert(q =~= k);
                    }
                }
            }
            return result;
        }
        let index = nibbles[0] as usize;
        let remaining = vstd::slice::slice_subrange(nibbles, 1, nibbles.len());
        proof {
            lemma_subrange_nibbles(k, 1, k.len() as int);
            assert(remaining@ =~= k.drop_first());
            lemma_children_wf(children@, index as int);
        }
        let ghost c0 = children@;
        let ghost old_sub = match c0[index as int] {
            Some(c) => *c,
            None => MPTNode::Empty,
        };
        let mut slot: Option<Box<MPTNode>> = None;
        std::mem::swap(&mut slot, &mut children[index]);
        let new_child = match slot {
            Some(child) => {
                proof {
                    assert(c0[index as int] == Some(child));
                    lemma_vec_child_decreases(old_node->children, index as int);
                }
                self.insert_recursive(*child, remaining, value)
            },
            None => self.handle_insert_empty(remaining, value),
        };
        assert(stores(new_child, old_sub, remaining@, v));
        let ghost boxed = Some(Box::new(new_child));
        children[index] = Some(Box::new(new_child));
        proof {
            lemma_children_wf_update(c0, index as int, boxed);
            assert(children@ == c0.update(index as int, boxed));
        }
        let result = MPTNode::Branch { children, value: branch_value };
        proof {
            assert forall|q: Seq<u8>| #[trigger]
                result.lookup(q) == if q == k { Some(v) } else { old_node.lookup(q) } by {
                if q.len() > 0 {
                    lemma_head_tail_eq(q, k);
                    if q[0] == k[0] {
                        assert(new_child.lookup(q.drop_first()) == if q.drop_first() == remaining@ {
                            Some(v)
                        } else {
                            old_sub.lookup(q.drop_first())
                        });
                    }
                }
            }
        }
        result
    }
}

impl MerklePatriciaTrie {
    /// Remove a key-value pair
    pub fn remove(&mut self, key: &str) -> (res: Result<bool>)
        ensures
            res matches Ok(removed) && removed == old(self)@.contains_key(key@),
            final(self)@ == old(self)@.remove(key@),
            old(self).spec_root() is Leaf && old(self)@.contains_key(key@) ==> final(self).spec_root() is Empty,
    {
        proof {
            use_type_invariant(&*self);
        }
        let nibbles = KeyUtils::string_to_nibbles(key);
        let ghost old_root = self.root;
        let mut root = MPTNode::Empty;
        std::mem::swap(&mut root, &mut self.root);
        let (new_root, removed) = self.remove_recursive(root, nibbles.as_slice());
        proof {
            assert forall|p: Seq<u8>| #[trigger] new_root.lookup(p) is Some implies exists|s: Seq<char>|
                key_path(s) == p by {
                assert(old_root.lookup(p) is Some);
            }
        }
        self.root = new_root;
        proof {
            assert forall|s: Seq<char>| #[trigger] final(self)@.contains_key(s) == old(self)@.remove(key@).contains_key(s)
                && (final(self)@.contains_key(s) ==> final(self)@[s] == old(self)@.remove(key@)[s]) by {
                if s != key@ {
                    if key_path(s) == key_path(key@) {
                        lemma_key_path_injective(s, key@);
                    }
                }
            }
            assert(final(self)@ =~= old(self)@.remove(key@));
        }
        Ok(removed)
    }

    fn remove_recursive(&self, node: MPTNode, nibbles: &[u8]) -> (res: (MPTNode, bool))
        requires
            node.wf(),
            is_nibble_seq(nibbles@),
        ensures
            res.0.wf(),
            drops(res.0, node, nibbles@),
            res.1 == node.lookup(nibbles@) is Some,
            node is Leaf && res.1 ==> res.0 is Empty,
            node is Leaf && !res.1 ==> res.0 == node,
            node is Empty ==> res.0 is Empty,
        decreases node, 0int,
    {
        let ghost k = nibbles@;
        match node {
            MPTNode::Empty => (MPTNode::Empty, false),
            MPTNode::Leaf { path, value } => {
                let (decoded_path, is_terminal) = decode_path(path.as_slice());
                if bytes_eq(decoded_path.as_slice(), nibbles) && is_terminal {
                    (MPTNode::Empty, true)
                } else {
                    // Keep original value
                    (MPTNode::Leaf { path, value }, false)
                }
            },
            MPTNode::Extension { path, child } => {
                proof {
                    assert(decreases_to!(node => child));
                }
                self.remove_from_extension(path, *child, nibbles)
            },
            MPTNode::Branch { children, value } => {
                proof {
                    assert(decreases_to!(node => children));
                }
                self.handle_remove_branch(children, value, nibbles)
            },
        }
    }

    /// Removes a key below an extension; a leaf left alone below it takes
    /// over the extension's path.
    fn remove_from_extension(&self, path: Vec<u8>, child: MPTNode, nibbles: &[u8]) -> (res: (MPTNode, bool))
        requires
            (MPTNode::Extension { path, child: Box::new(child) }).wf(),
            is_nibble_seq(nibbles@),
        ensures
            res.0.wf(),
            drops(res.0, MPTNode::Extension { path, child: Box::new(child) }, nibbles@),
            res.1 == (MPTNode::Extension { path, child: Box::new(child) }).lookup(nibbles@) is Some,
        decreases child, 1int,
    {
        let ghost old_node = MPTNode::Extension { path, child: Box::new(child) };
        let ghost k = nibbles@;
        let (decoded_path, _) = decode_path(path.as_slice());
        let ghost p = decoded_path@;
        if !starts_with(nibbles, decoded_path.as_slice()) {
            return (MPTNode::Extension { path, child: Box::new(child) }, false);
        }
        let remaining = vstd::slice::slice_subrange(nibbles, decoded_path.len(), nibbles.len());
        proof {
            lemma_subrange_nibbles(k, p.len() as int, k.len() as int);
        }
        let (new_child, removed) = self.remove_recursive(child, remaining);
        let ghost kept = MPTNode::Extension { path, child: Box::new(new_child) };
        proof {
            assert forall|q: Seq<u8>| #[trigger]
                kept.lookup(q) == if q == k { None } else { old_node.lookup(q) } by {
                lemma_split_eq(q, k, p.len() as int);
                if has_prefix(q, p) {
                    assert(new_child.lookup(suffix(q, p.len() as int)) == if suffix(q, p.len() as int)
                        == remaining@ {
                        None
                    } else {
                        child.lookup(suffix(q, p.len() as int))
                    });
                }
            }
        }
        if !removed {
            return (MPTNode::Extension { path, child: Box::new(new_child) }, false);
        }
        match new_child {
            MPTNode::Empty => {
                proof {
                    assert forall|q: Seq<u8>| #[trigger] kept.lookup(q) == MPTNode::Empty.lookup(q) by {
                        if has_prefix(q, p) {
                            assert(new_child.lookup(suffix(q, p.len() as int)) is None);
                        }
                    }
                }
                (MPTNode::Empty, true)
            },
            MPTNode::Leaf { path: child_path, value } => {
                let ghost leaf = MPTNode::Leaf { path: child_path, value };
                let (child_decoded, _) = decode_path(child_path.as_slice());
                let ghost c = child_decoded@;
                let mut combined = decoded_path;
                let mut tail = child_decoded;
                combined.append(&mut tail);
                proof {
                    assert(combined@ == p + c);
                    assert forall|j: int| 0 <= j < combined@.len() implies #[trigger] combined@[j] < 16 by {
                        if j >= p.len() {
                            assert(combined@[j] == c[j - p.len()]);
                        }
                    }
                }
                let new_path = CompactEncoding::encode(combined.as_slice(), true);
                proof {
                    lemma_decode_encode(combined@, true);
                }
                let merged = MPTNode::Leaf { path: new_path, value };
                proof {
                    assert forall|q: Seq<u8>| #[trigger] merged.lookup(q) == kept.lookup(q) by {
                        lemma_concat_eq(q, p, c);
                        if has_prefix(q, p) {
                            assert(leaf.lookup(suffix(q, p.len() as int)) == if c == suffix(q, p.len() as int) {
                                Some(value@)
                            } else {
                                None
                            });
                        }
                    }
                }
                (merged, true)
            },
            other => (MPTNode::Extension { path, child: Box::new(other) }, true),
        }
    }

    fn handle_remove_branch(
        &self,
        children: Vec<Option<Box<MPTNode>>>,
        value: Option<Vec<u8>>,
        nibbles: &[u8],
    ) -> (res: (MPTNode, bool))
        requires
            (MPTNode::Branch { children, value }).wf(),
            is_nibble_seq(nibbles@),
        ensures
            res.0.wf(),
            drops(res.0, MPTNode::Branch { children, value }, nibbles@),
            res.1 == (MPTNode::Branch { children, value }).lookup(nibbles@) is Some,
        decreases children, 1int,
    {
        let ghost old_node = MPTNode::Branch { children, value };
        let ghost k = nibbles@;
        let mut children = children;
        if nibbles.len() == 0 {
            // Remove branch value
            let removed = value.is_some();
            let result = MPTNode::Branch { children, value: None };
            proof {
                assert forall|q: Seq<u8>| #[trigger]
                    result.lookup(q) == if q == k { None } else { old_node.lookup(q) } by {
                    if q.len() == 0 {
                        assert(q =~= k);
                    }
                }
            }
            return (result, removed);
        }
        let index = nibbles[0] as usize;
        let remaining = vstd::slice::slice_subrange(nibbles, 1, nibbles.len());
        proof {
            lemma_subrange_nibbles(k, 1, k.len() as int);
            assert(remaining@ =~= k.drop_first());
            lemma_children_wf(children@, index as int);
        }
        let ghost c0 = children@;
        let mut slot: Option<Box<MPTNode>> = None;
        std::mem::swap(&mut slot, &mut children[index]);
        match slot {
            Some(child) => {
                proof {
                    assert(c0[index as int] == Some(child));
                    lemma_vec_child_decreases(old_node->children, index as int);
                }
                let (new_child, removed) = self.remove_recursive(*child, remaining);
                let ghost boxed = Some(Box::new(new_child));
                children[index] = Some(Box::new(new_child));
                proof {
                    lemma_children_wf_update(c0, index as int, boxed);
                    assert(children@ == c0.update(index as int, boxed));
                }
                let result = MPTNode::Branch { children, value };
                proof {
                    assert forall|q: Seq<u8>| #[trigger]
                        result.lookup(q) == if q == k { None } else { old_node.lookup(q) } by {
                        if q.len() > 0 {
                            lemma_head_tail_eq(q, k);
                            if q[0] == k[0] {
                                assert(new_child.lookup(q.drop_first()) == if q.drop_first() == remaining@ {
                                    None
                                } else {
                                    child.lookup(q.drop_first())
                                });
                            }
                        }
                    }
                }
                (result, removed)
            },
            None => {
                children[index] = None;
                proof {
                    assert(children@ =~= c0);
                }
                let result = MPTNode::Branch { children, value };
                proof {
                    assert forall|q: Seq<u8>| #[trigger]
                        result.lookup(q) == if q == k { None } else { old_node.lookup(q) } by {
                        if q == k {
                            assert(q.len() > 0 && q[0] == index);
                        }
                    }
                }
                (result, false)
            },
        }
    }
}

/// A path is the concatenation `p + c` exactly when it starts with `p` and
/// continues with `c`.
proof fn lemma_concat_eq(q: Seq<u8>, p: Seq<u8>, c: Seq<u8>)
    ensures
        (q == p + c) == (has_prefix(q, p) && suffix(q, p.len() as int) == c),
{
    if q == p + c {
        assert(q.subrange(0, p.len() as int) =~= p);
        assert(suffix(q, p.len() as int) =~= c);
    }
    if has_prefix(q, p) && suffix(q, p.len() as int) == c {
        assert(q =~= q.subrange(0, p.len() as int) + suffix(q, p.len() as int));
    }
}

/// A listed (key, value) pair carries the entry: the same value, and as key
/// the string that the entry's path spells whenever its bytes are UTF-8.
pub open spec fn names_entry(o: (String, Vec<u8>), e: (Seq<u8>, Seq<u8>)) -> bool {
    &&& o.1@ == e.1
    &&& valid_utf8(spec_pack_nibbles(e.0)) ==> o.0@ == decode_utf8(spec_pack_nibbles(e.0))
}

/// `out` from position `start` on carries the entries `es`, one for one.
pub open spec fn lists_from(out: Seq<(String, Vec<u8>)>, start: int, es: Seq<(Seq<u8>, Seq<u8>)>) -> bool {
    &&& out.len() == start + es.len()
    &&& forall|i: int| 0 <= i < es.len() ==> #[trigger] names_entry(out[start + i], es[i])
}

impl MerklePatriciaTrie {
    /// `all` lists the stored pairs: each listed pair is stored, each stored
    /// key is listed, no key twice, in increasing order of the keys' paths
    /// (the order of their UTF-8 bytes).
    pub open spec fn lists(&self, all: Seq<(String, Vec<u8>)>) -> bool {
        &&& forall|i: int|
            0 <= i < all.len() ==> self@.contains_key(#[trigger] all[i].0@) && self@[all[i].0@] == all[i].1@
        &&& forall|s: Seq<char>| #[trigger]
            self@.contains_key(s) ==> exists|i: int| 0 <= i < all.len() && #[trigger] all[i].0@ == s
        &&& forall|i: int, j: int|
            0 <= i < j < all.len() ==> path_lt(key_path(#[trigger] all[i].0@), key_path(#[trigger] all[j].0@))
        &&& forall|i: int, j: int| 0 <= i < j < all.len() ==> #[trigger] all[i].0@ != #[trigger] all[j].0@
    }

    /// Get all key-value pairs
    pub fn get_all(&self) -> (all: Vec<(String, Vec<u8>)>)
        ensures
            self.lists(all@),
    {
        proof {
            use_type_invariant(self);
        }
        let mut result: Vec<(String, Vec<u8>)> = Vec::new();
        self.collect_all(&self.root, Vec::new(), &mut result);
        proof {
            let es = entries(self.root, Seq::empty());
            lemma_entries(self.root, Seq::empty());
            assert forall|i: int| 0 <= i < result@.len() implies key_path(#[trigger] result@[i].0@) == es[i].0
                && self@.contains_key(result@[i].0@) && self@[result@[i].0@] == result@[i].1@ by {
                assert(names_entry(result@[0 + i], es[i]));
                assert(suffix(es[i].0, 0) =~= es[i].0);
                let s = choose|s: Seq<char>| key_path(s) == es[i].0;
                lemma_nibbles_roundtrip(s);
            }
            assert forall|s: Seq<char>| #[trigger] self@.contains_key(s) implies exists|i: int|
                0 <= i < result@.len() && #[trigger] result@[i].0@ == s by {
                lemma_entries_complete(self.root, Seq::empty(), key_path(s));
                let i = choose|i: int| 0 <= i < es.len() && #[trigger] es[i] == (Seq::<u8>::empty() + key_path(s), self.root.lookup(key_path(s))->0);
                assert(Seq::<u8>::empty() + key_path(s) =~= key_path(s));
                assert(names_entry(result@[0 + i], es[i]));
                lemma_nibbles_roundtrip(s);
            }
            assert forall|i: int, j: int| 0 <= i < j < result@.len() implies #[trigger] result@[i].0@ != #[trigger] result@[j].0@ by {
                assert(path_lt(es[i].0, es[j].0));
                lemma_path_lt_irreflexive(es[i].0);
            }
        }
        result
    }

    fn collect_all(&self, node: &MPTNode, current_path: Vec<u8>, result: &mut Vec<(String, Vec<u8>)>)
        requires
            node.wf(),
        ensures
            forall|i: int| 0 <= i < old(result)@.len() ==> final(result)@[i] == old(result)@[i],
            lists_from(final(result)@, old(result)@.len() as int, entries(*node, current_path@)),
        decreases node,
    {
        let ghost pre = current_path@;
        let ghost r0 = result@;
        match node {
            MPTNode::Leaf { path, value } => {
                let (decoded_path, _) = decode_path(path.as_slice());
                let mut full_path = current_path;
                let mut tail = decoded_path;
                full_path.append(&mut tail);
                let key = KeyUtils::nibbles_to_string(full_path.as_slice());
                result.push((key, crate::mpt::node::copy_bytes(value)));
                proof {
                    assert(names_entry(result@[r0.len() as int], entries(*node, pre)[0]));
                    assert forall|i: int| 0 <= i < r0.len() implies result@[i] == r0[i] by {
                        assert(result@[i] == r0.push(result@.last())[i]);
                    }
                }
            },
            MPTNode::Extension { path, child } => {
                let (decoded_path, _) = decode_path(path.as_slice());
                let mut new_path = current_path;
                let mut tail = decoded_path;
                new_path.append(&mut tail);
                self.collect_all(child, new_path, result);
            },
            MPTNode::Branch { children, value } => {
                // Collect value if present
                match value {
                    Some(val) => {
                        let key = KeyUtils::nibbles_to_string(current_path.as_slice());
                        result.push((key, crate::mpt::node::copy_bytes(val)));
                    },
                    None => {},
                }
                let ghost own = own_entry(*value, pre);
                let ghost r1 = result@;
                proof {
                    if own.len() > 0 {
                        assert(names_entry(r1[r0.len() as int], own[0]));
                        assert forall|i: int| 0 <= i < r0.len() implies r1[i] == r0[i] by {
                            assert(r1[i] == r0.push(r1.last())[i]);
                        }
                    } else {
                        assert(r1 == r0);
                    }
                }
                // Recurse into children
                let mut index: usize = 0;
                while index < children.len()
                    invariant
                        *node is Branch,
                        node->children == *children,
                        node.wf(),
                        children@.len() == 16,
                        current_path@ == pre,
                        index <= 16,
                        r1.len() == r0.len() + own.len(),
                        forall|i: int| 0 <= i < r1.len() ==> result@[i] == r1[i],
                        lists_from(result@, r1.len() as int, children_entries(children@.subrange(0, index as int), pre)),
                    decreases 16 - index,
                {
                    let ghost r2 = result@;
                    let ghost done = children_entries(children@.subrange(0, index as int), pre);
                    let ghost pi = pre.push(index as u8);
                    match &children[index] {
                        Some(child_node) => {
                            let mut new_path = crate::mpt::node::copy_bytes(&current_path);
                            new_path.push(index as u8);
                            proof {
                                lemma_children_wf(children@, index as int);
                                crate::mpt::node::lemma_child_decreases(*node, index as int);
                            }
                            self.collect_all(child_node, new_path, result);
                        },
                        None => {},
                    }
                    proof {
                        let cs = children@.subrange(0, index as int + 1);
                        assert(cs.drop_last() =~= children@.subrange(0, index as int));
                        assert(cs.last() == children@[index as int]);
                        let added = child_entries(children@[index as int], pi);
                        assert(children_entries(cs, pre) == done + added);
                        assert forall|i: int| 0 <= i < done.len() + added.len() implies #[trigger] names_entry(
                            result@[r1.len() + i],
                            (done + added)[i],
                        ) by {
                            if i < done.len() {
                                assert(names_entry(r2[r1.len() + i], done[i]));
                                assert(result@[r1.len() + i] == r2[r1.len() + i]);
                            } else {
                                assert(names_entry(result@[r2.len() + (i - done.len())], added[i - done.len()]));
                            }
                        }
                    }
                    index = index + 1;
                }
                proof {
                    assert(children@.subrange(0, 16) =~= children@);
                    let es = entries(*node, pre);
                    let ch = children_entries(children@, pre);
                    assert(es == own + ch);
                    assert forall|i: int| 0 <= i < es.len() implies #[trigger] names_entry(result@[r0.len() + i], es[i]) by {
                        if i < own.len() {
                            assert(result@[r0.len() + i] == r1[r0.len() + i]);
                        } else {
                            assert(names_entry(result@[r1.len() + (i - own.len())], ch[i - own.len()]));
                        }
                    }
                }
            },
            MPTNode::Empty => {},
        }
    }
}

/// The bytes of `"empty"`, whose digest is the root hash of an empty trie.
pub open spec fn empty_marker() -> Seq<u8> {
    seq![101u8, 109, 112, 116, 121]
}

/// The root hash of a trie with the given root.
pub open spec fn spec_root_hash(root: MPTNode) -> Seq<u8> {
    if root is Empty {
        spec_sha256(empty_marker())
    } else {
        spec_node_hash(root)
    }
}

impl MerklePatriciaTrie {
    /// Calculate the root hash of the MPT
    pub fn root_hash(&self) -> (hash: Vec<u8>)
        ensures
            hash@ == spec_root_hash(self.spec_root()),
            hash@.len() == 32,
    {
        if self.root.is_empty() {
            // Return hash of "empty" for empty trie
            let marker: Vec<u8> = vec![101u8, 109, 112, 116, 121];
            assert(marker@ =~= empty_marker());
            sha256(marker.as_slice())
        } else {
            self.root.calculate_hash()
        }
    }

    /// Get the root hash as a hex string
    pub fn hex_root_hash(&self) -> (hex: String)
        ensures
            hex@ == spec_hex(spec_root_hash(self.spec_root())),
    {
        let hash = self.root_hash();
        hex_encode(hash.as_slice())
    }
}

impl MerklePatriciaTrie {
    /// Generate a Merkle proof for a key at a specific block index: the
    /// key, the value stored under it (empty when there is none), the given
    /// block index and hash, and the current root hash.
    pub fn generate_proof(&self, key: &str, block_index: u64, block_hash: String) -> (res: Result<MerkleProof>)
        ensures
            res matches Ok(p) && {
                &&& p.key@ == key@
                &&& p.value@ == if self@.contains_key(key@) { self@[key@] } else { Seq::empty() }
                &&& p.block_index == block_index
                &&& p.mpt_root_hash@ == spec_root_hash(self.spec_root())
                &&& p.block_hash == block_hash
                &&& p.timestamp@.len() > 0
            },
    {
        let value = match self.get(key) {
            Some(v) => v,
            None => Vec::new(),
        };
        let mpt_root_hash = self.root_hash();
        let proof = MerkleProof::new(String::from_str(key), value, block_index, mpt_root_hash, block_hash);
        Ok(proof)
    }
}

impl Clone for MerklePatriciaTrie {
    /// A copy with the same structure: the same pairs and the same root hash.
    fn clone(&self) -> (res: Self)
        ensures
            res@ == self@,
            spec_root_hash(res.spec_root()) == spec_root_hash(self.spec_root()),
    {
        proof {
            use_type_invariant(self);
        }
        let root = self.root.clone();
        proof {
            crate::mpt::node::lemma_same_node(self.root, root);
            assert forall|p: Seq<u8>| #[trigger] root.lookup(p) is Some implies exists|s: Seq<char>| key_path(s) == p by {
                assert(self.root.lookup(p) is Some);
            }
        }
        let res = MerklePatriciaTrie { root };
        proof {
            assert(res@ =~= self@);
            assert((root is Empty) == (self.root is Empty));
        }
        res
    }
}

impl Default for MerklePatriciaTrie {
    fn default() -> (mpt: Self)
        ensures
            mpt@ == Map::<Seq<char>, Seq<u8>>::empty(),
            mpt.spec_root() is Empty,
    {
        Self::new()
    }
}

/// `i` is the only index of a present child.
pub open spec fn only_child(cs: Seq<Option<Box<MPTNode>>>, i: int) -> bool {
    &&& 0 <= i < cs.len()
    &&& cs[i] is Some
    &&& forall|j: int| 0 <= j < cs.len() && j != i ==> #[trigger] cs[j] is None
}

/// A branch without children.
pub open spec fn no_child(cs: Seq<Option<Box<MPTNode>>>) -> bool {
    forall|j: int| 0 <= j < cs.len() ==> #[trigger] cs[j] is None
}

/// The node that simplifying the branch gives: the empty node for no
/// child and no value, a leaf at the empty path for no child and a value,
/// the single leaf or extension child with the child's index put before its
/// path, and the branch itself otherwise.
pub open spec fn simplified_shape(
    children: Vec<Option<Box<MPTNode>>>,
    value: Option<Vec<u8>>,
    node: MPTNode,
) -> bool {
    let cs = children@;
    &&& no_child(cs) && value is None ==> node is Empty
    &&& no_child(cs) && value is Some ==> (node matches MPTNode::Leaf { path, value: v } && path@ == spec_encode(
        Seq::empty(),
        true,
    ) && v == value->0)
    &&& forall|i: int| #[trigger]
        only_child(cs, i) ==> match *cs[i]->0 {
            MPTNode::Leaf { path: p, value: v } => node matches MPTNode::Leaf { path, value: w } && path@
                == spec_encode(seq![i as u8] + decoded_path(p@), true) && w == v,
            MPTNode::Extension { path: p, child: g } => node matches MPTNode::Extension { path, child } && path@
                == spec_encode(seq![i as u8] + decoded_path(p@), false) && child == g,
            _ => node == (MPTNode::Branch { children, value }),
        }
    &&& !no_child(cs) && !(exists|i: int| #[trigger] only_child(cs, i)) ==> node == (MPTNode::Branch {
        children,
        value,
    })
}

/// A branch whose single child is a leaf or an extension: simplifying it
/// folds the branch into that child.
pub open spec fn folds_into_child(cs: Seq<Option<Box<MPTNode>>>) -> bool {
    exists|i: int| #[trigger] only_child(cs, i) && ((*cs[i]->0) is Leaf || (*cs[i]->0) is Extension)
}

impl MerklePatriciaTrie {
    /// Replaces a branch by a simpler node where it can: no child and no
    /// value gives the empty node, no child and a value a leaf, and a single
    /// leaf or extension child absorbs the branch into its path (the
    /// branch's own value is then not kept).
    #[allow(dead_code)]
    fn simplify_branch(&self, children: Vec<Option<Box<MPTNode>>>, value: Option<Vec<u8>>) -> (node: MPTNode)
        requires
            (MPTNode::Branch { children, value }).wf(),
        ensures
            node.wf(),
            forall|q: Seq<u8>| #[trigger]
                node.lookup(q) == if q.len() == 0 && folds_into_child(children@) {
                    None
                } else {
                    (MPTNode::Branch { children, value }).lookup(q)
                },
            simplified_shape(children, value, node),
    {
        let ghost old_node = MPTNode::Branch { children, value };
        let ghost cs = children@;
        let mut count: usize = 0;
        let mut first: usize = 0;
        let mut i: usize = 0;
        while i < children.len()
            invariant
                cs == children@,
                cs.len() == 16,
                i <= 16,
                count <= i,
                count == 0 ==> forall|j: int| 0 <= j < i ==> #[trigger] cs[j] is None,
                count >= 1 ==> first < i && cs[first as int] is Some,
                count == 1 ==> forall|j: int| 0 <= j < i && j != first ==> #[trigger] cs[j] is None,
                count >= 2 ==> exists|j: int| 0 <= j < i && j != first && #[trigger] cs[j] is Some,
            decreases 16 - i,
        {
            if children[i].is_some() {
                if count == 0 {
                    first = i;
                }
                count = count + 1;
            }
            i = i + 1;
        }
        if count == 0 {
            proof {
                assert forall|k: int| !#[trigger] only_child(cs, k) by {
                    if 0 <= k < cs.len() {
                        assert(cs[k] is None);
                    }
                }
            }
            match value {
                Some(val) => {
                    let empty: Vec<u8> = Vec::new();
                    let path = CompactEncoding::encode(empty.as_slice(), true);
                    proof {
                        lemma_decode_encode(empty@, true);
                    }
                    let leaf = MPTNode::Leaf { path, value: val };
                    proof {
                        assert forall|q: Seq<u8>| #[trigger] leaf.lookup(q) == old_node.lookup(q) by {
                            if q.len() == 0 {
                                assert(q =~= empty@);
                            } else if q[0] < 16 {
                                assert(cs[q[0] as int] is None);
                            }
                        }
                    }
                    leaf
                },
                None => {
                    proof {
                        assert forall|q: Seq<u8>| #[trigger] MPTNode::Empty.lookup(q) == old_node.lookup(q) by {
                            if q.len() > 0 && q[0] < 16 {
                                assert(cs[q[0] as int] is None);
                            }
                        }
                    }
                    MPTNode::Empty
                },
            }
        } else if count == 1 {
            proof {
                assert(only_child(cs, first as int));
                assert forall|k: int| #[trigger] only_child(cs, k) implies k == first by {
                    if k != first {
                        assert(cs[first as int] is None);
                    }
                }
                lemma_children_wf(cs, first as int);
            }
            let folds = match &children[first] {
                Some(c) => match &**c {
                    MPTNode::Leaf { .. } => true,
                    MPTNode::Extension { .. } => true,
                    _ => false,
                },
                None => false,
            };
            if !folds {
                return MPTNode::Branch { children, value };
            }
            let mut children = children;
            let mut slot: Option<Box<MPTNode>> = None;
            std::mem::swap(&mut slot, &mut children[first]);
            let index = first as u8;
            match slot {
                Some(c) => match *c {
                    MPTNode::Leaf { path: child_path, value: child_value } => {
                        let ghost leaf = MPTNode::Leaf { path: child_path, value: child_value };
                        let (decoded, _) = decode_path(child_path.as_slice());
                        let ghost d = decoded@;
                        let mut full_path: Vec<u8> = vec![index];
                        let mut tail = decoded;
                        full_path.append(&mut tail);
                        proof {
                            assert(full_path@ =~= seq![index] + d);
                            assert forall|j: int| 0 <= j < full_path@.len() implies #[trigger] full_path@[j] < 16 by {
                                if j > 0 {
                                    assert(full_path@[j] == d[j - 1]);
                                }
                            }
                        }
                        let path = CompactEncoding::encode(full_path.as_slice(), true);
                        proof {
                            lemma_decode_encode(full_path@, true);
                        }
                        let merged = MPTNode::Leaf { path, value: child_value };
                        proof {
                            assert forall|q: Seq<u8>| #[trigger]
                                merged.lookup(q) == if q.len() == 0 && folds_into_child(cs) {
                                    None
                                } else {
                                    old_node.lookup(q)
                                } by {
                                if q.len() > 0 {
                                    lemma_head_tail_eq(q, full_path@);
                                    assert(full_path@.drop_first() =~= d);
                                    if q[0] < 16 && q[0] != index {
                                        assert(cs[q[0] as int] is None);
                                    }
                                    if q[0] == index {
                                        assert(leaf.lookup(q.drop_first()) == if d == q.drop_first() {
                                            Some(child_value@)
                                        } else {
                                            None
                                        });
                                    }
                                }
                            }
                        }
                        merged
                    },
                    MPTNode::Extension { path: child_path, child: grand_child } => {
                        let ghost ext = MPTNode::Extension { path: child_path, child: grand_child };
                        let (decoded, _) = decode_path(child_path.as_slice());
                        let ghost d = decoded@;
                        let mut full_path: Vec<u8> = vec![index];
                        let mut tail = decoded;
                        full_path.append(&mut tail);
                        proof {
                            assert(full_path@ =~= seq![index] + d);
                            assert forall|j: int| 0 <= j < full_path@.len() implies #[trigger] full_path@[j] < 16 by {
                                if j > 0 {
                                    assert(full_path@[j] == d[j - 1]);
                                }
                            }
                        }
                        let path = CompactEncoding::encode(full_path.as_slice(), false);
                        proof {
                            lemma_decode_encode(full_path@, false);
                        }
                        let merged = MPTNode::Extension { path, child: grand_child };
                        proof {
                            let p = full_path@;
                            assert(p.subrange(0, 0) =~= Seq::<u8>::empty());
                            assert(suffix(p, 1) =~= d);
                            assert forall|q: Seq<u8>| #[trigger]
                                merged.lookup(q) == if q.len() == 0 && folds_into_child(cs) {
                                    None
                                } else {
                                    old_node.lookup(q)
                                } by {
                                lemma_prefix_next(q, p, 0);
                                assert(q.subrange(0, 0) =~= Seq::<u8>::empty());
                                if q.len() > 0 {
                                    assert(suffix(q, 1) =~= q.drop_first());
                                    if q[0] < 16 && q[0] != index {
                                        assert(cs[q[0] as int] is None);
                                    }
                                    if q[0] == index {
                                        assert(ext.lookup(q.drop_first()) == if has_prefix(q.drop_first(), d) {
                                            grand_child.lookup(suffix(q.drop_first(), d.len() as int))
                                        } else {
                                            None
                                        });
                                    }
                                }
                            }
                        }
                        merged
                    },
                    _ => {
                        proof {
                            assert(false);
                        }
                        MPTNode::Empty
                    },
                },
                None => {
                    proof {
                        assert(false);
                    }
                    MPTNode::Empty
                },
            }
        } else {
            proof {
                let j = choose|j: int| 0 <= j < 16 && j != first && #[trigger] cs[j] is Some;
                assert forall|k: int| !#[trigger] only_child(cs, k) by {
                    if 0 <= k < cs.len() && cs[k] is Some {
                        if k == first {
                            assert(cs[j] is Some);
                        } else {
                            assert(cs[first as int] is Some);
                        }
                    }
                }
            }
            MPTNode::Branch { children, value }
        }
    }

    /// Gives a branch the value; other nodes are returned as they are.
    #[allow(dead_code)]
    fn set_branch_value(&self, node: MPTNode, value: Vec<u8>) -> (res: MPTNode)
        ensures
            match node {
                MPTNode::Branch { children, .. } => res == MPTNode::Branch { children, value: Some(value) },
                _ => res == node,
            },
    {
        match node {
            MPTNode::Branch { children, .. } => MPTNode::Branch { children, value: Some(value) },
            _ => node,
        }
    }
}

/// Inserting a key into an empty trie and removing it again gives back an
/// empty trie, with the root hash of the empty trie.
pub proof fn lemma_insert_remove_restores_empty(
    empty: MerklePatriciaTrie,
    filled: MerklePatriciaTrie,
    cleared: MerklePatriciaTrie,
    key: Seq<char>,
    value: Seq<u8>,
)
    requires
        empty.spec_root() is Empty,
        filled@ == empty@.insert(key, value),
        filled.spec_root() is Leaf,
        cleared@ == filled@.remove(key),
        filled.spec_root() is Leaf && filled@.contains_key(key) ==> cleared.spec_root() is Empty,
    ensures
        cleared.spec_root() is Empty,
        cleared@ == empty@,
        spec_root_hash(cleared.spec_root()) == spec_root_hash(empty.spec_root()),
{
    assert(empty@ =~= Map::<Seq<char>, Seq<u8>>::empty()) by {
        assert forall|s: Seq<char>| !empty@.contains_key(s) by {}
    }
    assert(cleared@ =~= empty@);
}

/// The pairs that inserting `pairs` in order leaves: a later pair for a
/// key replaces an earlier one.
pub open spec fn pairs_map(pairs: Seq<(String, Vec<u8>)>) -> Map<Seq<char>, Seq<u8>>
    decreases pairs.len(),
{
    if pairs.len() == 0 {
        Map::empty()
    } else {
        pairs_map(pairs.drop_last()).insert(pairs.last().0@, pairs.last().1@)
    }
}

impl MerklePatriciaTrie {
    /// A trie holding the given pairs, inserted in order (the way a stored
    /// trie is loaded back from its pairs).
    pub fn from_pairs(pairs: &[(String, Vec<u8>)]) -> (mpt: Self)
        ensures
            mpt@ == pairs_map(pairs@),
    {
        let mut mpt = Self::new();
        let mut i: usize = 0;
        while i < pairs.len()
            invariant
                i <= pairs@.len(),
                mpt@ == pairs_map(pairs@.subrange(0, i as int)),
            decreases pairs@.len() - i,
        {
            let _ = mpt.insert(pairs[i].0.as_str(), copy_bytes(&pairs[i].1));
            proof {
                assert(pairs@.subrange(0, i + 1).drop_last() =~= pairs@.subrange(0, i as int));
            }
            i = i + 1;
        }
        proof {
            assert(pairs@.subrange(0, pairs@.len() as int) =~= pairs@);
        }
        mpt
    }
}

/// Inserting pairs with distinct keys stores each of them, and nothing
/// else.
proof fn lemma_pairs_map_distinct(s: Seq<(String, Vec<u8>)>)
    requires
        forall|i: int, j: int| 0 <= i < j < s.len() ==> #[trigger] s[i].0@ != #[trigger] s[j].0@,
    ensures
        forall|i: int|
            0 <= i < s.len() ==> pairs_map(s).contains_key(#[trigger] s[i].0@) && pairs_map(s)[s[i].0@] == s[i].1@,
        forall|k: Seq<char>| #[trigger]
            pairs_map(s).contains_key(k) ==> exists|i: int| 0 <= i < s.len() && #[trigger] s[i].0@ == k,
    decreases s.len(),
{
    if s.len() > 0 {
        let p = s.drop_last();
        assert forall|i: int, j: int| 0 <= i < j < p.len() implies #[trigger] p[i].0@ != #[trigger] p[j].0@ by {
            assert(p[i] == s[i] && p[j] == s[j]);
        }
        lemma_pairs_map_distinct(p);
        let n = s.len() - 1;
        assert(pairs_map(s) == pairs_map(p).insert(s[n].0@, s[n].1@));
        assert forall|i: int| 0 <= i < s.len() implies pairs_map(s).contains_key(#[trigger] s[i].0@)
            && pairs_map(s)[s[i].0@] == s[i].1@ by {
            if i < n {
                assert(s[i] == p[i]);
                assert(s[i].0@ != s[n].0@);
            }
        }
        assert forall|k: Seq<char>| #[trigger] pairs_map(s).contains_key(k) implies exists|i: int|
            0 <= i < s.len() && #[trigger] s[i].0@ == k by {
            if k == s[n].0@ {
                assert(s[n].0@ == k);
            } else {
                assert(pairs_map(p).contains_key(k));
                let i = choose|i: int| 0 <= i < p.len() && #[trigger] p[i].0@ == k;
                assert(s[i] == p[i]);
            }
        }
    }
}

/// Storing a trie as its listing and loading it back gives the same pairs:
/// inserting the listed pairs in order gives the trie's map.
pub proof fn lemma_listing_round_trip(t: MerklePatriciaTrie, all: Seq<(String, Vec<u8>)>)
    requires
        t.lists(all),
    ensures
        pairs_map(all) == t@,
{
    lemma_pairs_map_distinct(all);
    assert forall|k: Seq<char>| #[trigger] pairs_map(all).contains_key(k) == t@.contains_key(k) by {
        if pairs_map(all).contains_key(k) {
            let i = choose|i: int| 0 <= i < all.len() && #[trigger] all[i].0@ == k;
            assert(t@.contains_key(all[i].0@));
        }
        if t@.contains_key(k) {
            let i = choose|i: int| 0 <= i < all.len() && #[trigger] all[i].0@ == k;
            assert(pairs_map(all).contains_key(all[i].0@));
        }
    }
    assert forall|k: Seq<char>| #[trigger] pairs_map(all).contains_key(k) implies pairs_map(all)[k] == t@[k] by {
        let i = choose|i: int| 0 <= i < all.len() && #[trigger] all[i].0@ == k;
        assert(pairs_map(all)[all[i].0@] == all[i].1@);
    }
    assert(pairs_map(all) =~= t@);
}

/// Two listings of a trie agree on the keys before position `i`, so they
/// agree at `i` too.
proof fn lemma_listings_agree_at(t: MerklePatriciaTrie, a: Seq<(String, Vec<u8>)>, b: Seq<(String, Vec<u8>)>, i: int)
    requires
        t.lists(a),
        t.lists(b),
        0 <= i < a.len(),
        i < b.len(),
        forall|k: int| 0 <= k < i ==> #[trigger] a[k].0@ == b[k].0@,
    ensures
        a[i].0@ == b[i].0@,
{
    let x = a[i].0@;
    let y = b[i].0@;
    assert(t@.contains_key(a[i].0@));
    assert(t@.contains_key(b[i].0@));
    let j = choose|j: int| 0 <= j < b.len() && #[trigger] b[j].0@ == x;
    let jj = choose|j: int| 0 <= j < a.len() && #[trigger] a[j].0@ == y;
    if j < i {
        assert(a[j].0@ == b[j].0@);
        assert(a[j].0@ != a[i].0@);
    }
    if jj < i {
        assert(a[jj].0@ == b[jj].0@);
        assert(b[jj].0@ != b[i].0@);
    }
    if j > i {
        assert(path_lt(key_path(b[i].0@), key_path(b[j].0@)));
        if jj == i {
            assert(b[i].0@ != b[j].0@);
        } else {
            assert(path_lt(key_path(a[i].0@), key_path(a[jj].0@)));
            lemma_path_lt_asymmetric(key_path(x), key_path(y));
        }
    }
}

/// Two listings of a trie agree on their first `n` keys.
proof fn lemma_listings_agree_upto(t: MerklePatriciaTrie, a: Seq<(String, Vec<u8>)>, b: Seq<(String, Vec<u8>)>, n: int)
    requires
        t.lists(a),
        t.lists(b),
        0 <= n <= a.len(),
        n <= b.len(),
    ensures
        forall|k: int| 0 <= k < n ==> #[trigger] a[k].0@ == b[k].0@,
    decreases n,
{
    if n > 0 {
        lemma_listings_agree_upto(t, a, b, n - 1);
        lemma_listings_agree_at(t, a, b, n - 1);
    }
}

/// The listing of a trie is determined by what it stores: any two listings
/// have the same length and the same pairs at each position.
pub proof fn lemma_listing_unique(t: MerklePatriciaTrie, a: Seq<(String, Vec<u8>)>, b: Seq<(String, Vec<u8>)>)
    requires
        t.lists(a),
        t.lists(b),
    ensures
        a.len() == b.len(),
        forall|i: int| 0 <= i < a.len() ==> #[trigger] a[i].0@ == b[i].0@ && a[i].1@ == b[i].1@,
{
    if a.len() > b.len() {
        lemma_listings_agree_upto(t, a, b, b.len() as int);
        let n = b.len() as int;
        assert(t@.contains_key(a[n].0@));
        let j = choose|j: int| 0 <= j < b.len() && #[trigger] b[j].0@ == a[n].0@;
        assert(a[j].0@ == b[j].0@);
        assert(a[j].0@ != a[n].0@);
    } else if b.len() > a.len() {
        lemma_listings_agree_upto(t, a, b, a.len() as int);
        let n = a.len() as int;
        assert(t@.contains_key(b[n].0@));
        let j = choose|j: int| 0 <= j < a.len() && #[trigger] a[j].0@ == b[n].0@;
        assert(a[j].0@ == b[j].0@);
        assert(b[j].0@ != b[n].0@);
    }
    lemma_listings_agree_upto(t, a, b, a.len() as int);
    assert forall|i: int| 0 <= i < a.len() implies #[trigger] a[i].0@ == b[i].0@ && a[i].1@ == b[i].1@ by {
        assert(a[i].0@ == b[i].0@);
        assert(t@[a[i].0@] == a[i].1@);
        assert(t@[b[i].0@] == b[i].1@);
    }
}

/// Inserting a key that a trie does not hold and removing it again gives
/// back the pairs that the trie held.
pub proof fn lemma_insert_then_remove_restores_pairs(
    before: MerklePatriciaTrie,
    filled: MerklePatriciaTrie,
    cleared: MerklePatriciaTrie,
    key: Seq<char>,
    value: Seq<u8>,
)
    requires
        !before@.contains_key(key),
        filled@ == before@.insert(key, value),
        cleared@ == filled@.remove(key),
    ensures
        cleared@ == before@,
{
    assert(cleared@ =~= before@);
}

/// The root hash commits to the stored data: a trie that stores a pair is
/// not the empty trie, and its root hash is the SHA-256 digest of a text
/// that holds the JSON text of the pair's value, however deep the value is
/// stored.
pub proof fn lemma_root_hash_commits_to_values(t: MerklePatriciaTrie, key: Seq<char>)
    requires
        t@.contains_key(key),
    ensures
        !(t.spec_root() is Empty),
        spec_root_hash(t.spec_root()) == spec_sha256(node_json(t.spec_root())),
        occurs_in(json_array(t@[key]), node_json(t.spec_root())),
{
    lemma_node_json_holds_values(t.root, key_path(key));
}

/// A child of a list of children is smaller than the list.
proof fn lemma_vec_child_decreases(children: Vec<Option<Box<MPTNode>>>, i: int)
    requires
        0 <= i < children@.len(),
        children@[i] is Some,
    ensures
        decreases_to!(children => *(children@[i]->0)),
{
    assert(decreases_to!(children => children@));
    assert(decreases_to!(children@ => children@[i]));
    assert(decreases_to!(children@[i] => children@[i]->0));
}

impl View for MerklePatriciaTrie {
    type V = Map<Seq<char>, Seq<u8>>;

    /// The stored key-value pairs.
    closed spec fn view(&self) -> Map<Seq<char>, Seq<u8>> {
        Map::new(
            |s: Seq<char>| self.root.lookup(key_path(s)) is Some,
            |s: Seq<char>| self.root.lookup(key_path(s))->0,
        )
    }
}

} // verus!
