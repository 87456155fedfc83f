//! MPT node types, the compact path encoding, and the byte rendering of
//! nodes from which their hashes are computed.

use vstd::prelude::*;
use crate::digest::{sha256, spec_sha256};
use crate::error::Result;
use crate::mpt::hash::is_nibble_seq;
use crate::text::{dec_bytes, push_decimal};

verus! {

/// Merkle-Patricia Trie node types
#[derive(Debug)]
pub enum MPTNode {
    /// Branch node with up to 16 children
    Branch { children: Vec<Option<Box<MPTNode>>>, value: Option<Vec<u8>> },
    /// Extension node for path compression
    Extension {
        path: Vec<u8>,  // Compact encoded path
        child: Box<MPTNode>,
    },
    /// Leaf node containing a value
    Leaf {
        path: Vec<u8>,  // Compact encoded path
        value: Vec<u8>,
    },
    /// Empty node (root state)
    Empty,
}

/// Compact encoding utilities for MPT paths
pub struct CompactEncoding;

/// Copies a byte vector.
pub fn copy_bytes(v: &Vec<u8>) -> (c: Vec<u8>)
    ensures
        c@ == v@,
{
    let mut c: Vec<u8> = Vec::new();
    let mut i: usize = 0;
    while i < v.len()
        invariant
            i <= v@.len(),
            c@ =~= v@.subrange(0, i as int),
        decreases v@.len() - i,
    {
        c.push(v[i]);
        i = i + 1;
    }
    assert(v@.subrange(0, v@.len() as int) =~= v@);
    c
}

impl Clone for MPTNode {
    fn clone(&self) -> (res: Self)
        ensures
            same_node(*self, res),
        decreases self,
    {
        match self {
            MPTNode::Empty => MPTNode::Empty,
            MPTNode::Leaf { path, value } => MPTNode::Leaf { path: copy_bytes(path), value: copy_bytes(value) },
            MPTNode::Extension { path, child } => {
                let c: MPTNode = (**child).clone();
                MPTNode::Extension { path: copy_bytes(path), child: Box::new(c) }
            },
            MPTNode::Branch { children, value } => {
                let mut cs: Vec<Option<Box<MPTNode>>> = Vec::new();
                let mut i: usize = 0;
                while i < children.len()
                    invariant
                        i <= children@.len(),
                        *self is Branch,
                        self->children == *children,
                        same_children(children@.subrange(0, i as int), cs@),
                    decreases children@.len() - i,
                {
                    let ghost before = cs@;
                    match &children[i] {
                        Some(c) => {
                            proof {
                                lemma_child_decreases(*self, i as int);
                            }
                            let cc: MPTNode = (**c).clone();
                            cs.push(Some(Box::new(cc)));
                        },
                        None => {
                            cs.push(None);
                        },
                    }
                    proof {
                        let s = children@.subrange(0, i + 1);
                        assert(s.drop_last() =~= children@.subrange(0, i as int));
                        assert(cs@.drop_last() =~= before);
                    }
                    i = i + 1;
                }
                assert(children@.subrange(0, children@.len() as int) =~= children@);
                let v = match value {
                    Some(v) => Some(copy_bytes(v)),
                    None => None,
                };
                MPTNode::Branch { children: cs, value: v }
            },
        }
    }
}

/// Two nodes have the same structure and the same bytes in it.
pub open spec fn same_node(a: MPTNode, b: MPTNode) -> bool
    decreases a,
{
    match a {
        MPTNode::Empty => b is Empty,
        MPTNode::Leaf { path, value } => b matches MPTNode::Leaf { path: p2, value: v2 } && path@ == p2@ && value@
            == v2@,
        MPTNode::Extension { path, child } => b matches MPTNode::Extension { path: p2, child: c2 } && path@ == p2@
            && same_node(*child, *c2),
        MPTNode::Branch { children, value } => b matches MPTNode::Branch { children: c2, value: v2 } && opt_view(
            value,
        ) == opt_view(v2) && same_children(children@, c2@),
    }
}

/// Two lists of children have the same nodes at the same places.
pub open spec fn same_children(cs: Seq<Option<Box<MPTNode>>>, ds: Seq<Option<Box<MPTNode>>>) -> bool
    decreases cs,
{
    if cs.len() == 0 {
        ds.len() == 0
    } else {
        &&& ds.len() == cs.len()
        &&& same_children(cs.drop_last(), ds.drop_last())
        &&& match cs.last() {
            Some(c) => ds.last() matches Some(d) && same_node(*c, *d),
            None => ds.last() is None,
        }
    }
}

/// Nodes of the same structure and bytes are equally well formed, store
/// the same values, and have the same JSON text.
pub proof fn lemma_same_node(a: MPTNode, b: MPTNode)
    requires
        same_node(a, b),
    ensures
        a.wf() == b.wf(),
        node_json(a) == node_json(b),
        forall|q: Seq<u8>| #[trigger] a.lookup(q) == b.lookup(q),
    decreases a,
{
    match a {
        MPTNode::Extension { path, child } => {
            let c2 = b->child;
            lemma_same_node(*child, *c2);
            assert forall|q: Seq<u8>| #[trigger] a.lookup(q) == b.lookup(q) by {
                let p = decoded_path(path@);
                if has_prefix(q, p) {
                    assert(child.lookup(suffix(q, p.len() as int)) == c2.lookup(suffix(q, p.len() as int)));
                }
            }
        },
        MPTNode::Branch { children, value } => {
            let c2 = b->children;
            lemma_same_children(children@, c2@);
            assert forall|q: Seq<u8>| #[trigger] a.lookup(q) == b.lookup(q) by {
                if q.len() > 0 && q[0] < children@.len() {
                    let i = q[0] as int;
                    if children@[i] is Some {
                        lemma_child_decreases(a, i);
                        lemma_same_node(*children@[i]->0, *c2@[i]->0);
                        assert(children@[i]->0.lookup(q.drop_first()) == c2@[i]->0.lookup(q.drop_first()));
                    }
                }
            }
        },
        _ => {},
    }
}

/// Lists of children with the same nodes are equally well formed, have the
/// same JSON text, and the same node at each place.
pub proof fn lemma_same_children(cs: Seq<Option<Box<MPTNode>>>, ds: Seq<Option<Box<MPTNode>>>)
    requires
        same_children(cs, ds),
    ensures
        cs.len() == ds.len(),
        children_wf(cs) == children_wf(ds),
        children_json(cs) == children_json(ds),
        forall|i: int|
            0 <= i < cs.len() ==> (#[trigger] cs[i] is Some <==> ds[i] is Some) && (cs[i] is Some ==> same_node(
                *cs[i]->0,
                *ds[i]->0,
            )),
    decreases cs,
{
    if cs.len() > 0 {
        lemma_same_children(cs.drop_last(), ds.drop_last());
        match cs.last() {
            Some(c) => {
                lemma_same_node(*c, *ds.last()->0);
            },
            None => {},
        }
        assert forall|i: int| 0 <= i < cs.len() implies (#[trigger] cs[i] is Some <==> ds[i] is Some) && (cs[i] is Some
            ==> same_node(*cs[i]->0, *ds[i]->0)) by {
            if i < cs.len() - 1 {
                assert(cs.drop_last()[i] == cs[i]);
                assert(ds.drop_last()[i] == ds[i]);
            }
        }
    }
}

/// The flag byte of an encoded path: 0x20 marks a terminator (leaf), 0x10 an
/// odd number of nibbles.
pub open spec fn encode_flag(len: nat, terminator: bool) -> u8 {
    ((if terminator { 0x20u8 } else { 0u8 }) | (if len % 2 == 1 { 0x10u8 } else { 0u8 })) as u8
}

/// The compact encoding of a path: the flag byte followed by the path.
pub open spec fn spec_encode(path: Seq<u8>, terminator: bool) -> Seq<u8> {
    seq![encode_flag(path.len(), terminator)] + path
}

/// The path and terminator flag that an encoded path stands for.
pub open spec fn spec_decode(encoded: Seq<u8>) -> (Seq<u8>, bool) {
    if encoded.len() == 0 {
        (Seq::empty(), false)
    } else {
        (encoded.drop_first(), encoded[0] & 0x20u8 != 0)
    }
}

/// The path that an encoded path stands for.
pub open spec fn decoded_path(encoded: Seq<u8>) -> Seq<u8> {
    spec_decode(encoded).0
}

pub proof fn lemma_flag_terminator(len: nat, terminator: bool)
    ensures
        (encode_flag(len, terminator) & 0x20u8 != 0) == terminator,
{
    let a: u8 = if terminator { 0x20u8 } else { 0u8 };
    let b: u8 = if len % 2 == 1 { 0x10u8 } else { 0u8 };
    assert(((a | b) & 0x20u8 != 0) == (a == 0x20u8)) by (bit_vector)
        requires
            a == 0x20u8 || a == 0u8,
            b == 0x10u8 || b == 0u8,
    ;
}

/// Decoding an encoded path gives back the path and the terminator flag.
pub proof fn lemma_decode_encode(path: Seq<u8>, terminator: bool)
    ensures
        spec_decode(spec_encode(path, terminator)) == (path, terminator),
{
    lemma_flag_terminator(path.len(), terminator);
    assert(spec_encode(path, terminator).drop_first() =~= path);
}

impl CompactEncoding {
    /// Encode a path with terminator flag
    pub fn encode(path: &[u8], terminator: bool) -> (encoded: Vec<u8>)
        ensures
            encoded@ == spec_encode(path@, terminator),
    {
        let mut encoded: Vec<u8> = Vec::new();
        let terminator_bit: u8 = if terminator { 0x20u8 } else { 0u8 };
        let odd_bit: u8 = if path.len() % 2 == 1 { 0x10u8 } else { 0u8 };
        let flag: u8 = terminator_bit | odd_bit;
        encoded.push(flag);
        let mut i: usize = 0;
        while i < path.len()
            invariant
                i <= path@.len(),
                encoded@ =~= seq![flag] + path@.subrange(0, i as int),
            decreases path@.len() - i,
        {
            encoded.push(path[i]);
            i = i + 1;
        }
        assert(path@.subrange(0, path@.len() as int) =~= path@);
        encoded
    }

    /// Decode compact encoding to path and terminator flag
    pub fn decode(encoded: &[u8]) -> (res: Result<(Vec<u8>, bool)>)
        ensures
            res matches Ok((path, terminator)) && path@ == spec_decode(encoded@).0 && terminator == spec_decode(
                encoded@,
            ).1,
    {
        if encoded.len() == 0 {
            return Ok((Vec::new(), false));
        }
        let flag = encoded[0];
        let terminator = (flag & 0x20) != 0;
        let mut path: Vec<u8> = Vec::new();
        let mut i: usize = 1;
        while i < encoded.len()
            invariant
                1 <= i <= encoded@.len(),
                path@ =~= encoded@.subrange(1, i as int),
            decreases encoded@.len() - i,
        {
            path.push(encoded[i]);
            i = i + 1;
        }
        assert(path@ =~= encoded@.drop_first());
        Ok((path, terminator))
    }
}

/// A branch's children are smaller than the branch.
pub proof fn lemma_child_decreases(node: MPTNode, i: int)
    requires
        node is Branch,
        0 <= i < node->children@.len(),
        node->children@[i] is Some,
    ensures
        decreases_to!(node => *(node->children@[i]->0)),
{
    let children = node->children;
    assert(decreases_to!(node => node->children));
    assert(decreases_to!(children => children@));
    assert(decreases_to!(children@ => children@[i]));
    assert(decreases_to!(children@[i] => children@[i]->0));
}

/// Decodes a path (the encoding cannot fail).
pub fn decode_path(encoded: &[u8]) -> (res: (Vec<u8>, bool))
    ensures
        (res.0@, res.1) == spec_decode(encoded@),
{
    match CompactEncoding::decode(encoded) {
        Ok(r) => r,
        Err(_) => (Vec::new(), false),
    }
}

/// `p` is a prefix of `q`.
pub open spec fn has_prefix(q: Seq<u8>, p: Seq<u8>) -> bool {
    p.len() <= q.len() && q.subrange(0, p.len() as int) == p
}

/// What follows the first `n` elements of `q`.
pub open spec fn suffix(q: Seq<u8>, n: int) -> Seq<u8> {
    q.subrange(n, q.len() as int)
}

/// The view of an optional value.
pub open spec fn opt_view(v: Option<Vec<u8>>) -> Option<Seq<u8>> {
    match v {
        Some(x) => Some(x@),
        None => None,
    }
}

impl MPTNode {
    /// Structural well-formedness: branches have sixteen children, stored
    /// paths are nibble sequences, and leaves carry the terminator flag.
    pub open spec fn wf(&self) -> bool
        decreases self,
    {
        match self {
            MPTNode::Empty => true,
            MPTNode::Leaf { path, value } => {
                &&& path@.len() >= 1
                &&& spec_decode(path@).1
                &&& is_nibble_seq(decoded_path(path@))
            },
            MPTNode::Extension { path, child } => {
                &&& is_nibble_seq(decoded_path(path@))
                &&& child.wf()
            },
            MPTNode::Branch { children, value } => {
                &&& children@.len() == 16
                &&& children_wf(children@)
            },
        }
    }

    /// The value stored under a nibble path, following the structure as a
    /// lookup does.
    pub open spec fn lookup(&self, key: Seq<u8>) -> Option<Seq<u8>>
        decreases self,
    {
        match self {
            MPTNode::Empty => None,
            MPTNode::Leaf { path, value } => {
                if decoded_path(path@) == key && spec_decode(path@).1 {
                    Some(value@)
                } else {
                    None
                }
            },
            MPTNode::Extension { path, child } => {
                let p = decoded_path(path@);
                if has_prefix(key, p) {
                    child.lookup(suffix(key, p.len() as int))
                } else {
                    None
                }
            },
            MPTNode::Branch { children, value } => {
                if key.len() == 0 {
                    opt_view(*value)
                } else if key[0] < children@.len() {
                    match children@[key[0] as int] {
                        Some(c) => c.lookup(key.drop_first()),
                        None => None,
                    }
                } else {
                    None
                }
            },
        }
    }
}

/// Every present child is well formed.
pub open spec fn children_wf(children: Seq<Option<Box<MPTNode>>>) -> bool
    decreases children,
{
    if children.len() == 0 {
        true
    } else {
        children_wf(children.drop_last()) && match children.last() {
            Some(c) => c.wf(),
            None => true,
        }
    }
}

pub proof fn lemma_children_wf(children: Seq<Option<Box<MPTNode>>>, i: int)
    requires
        children_wf(children),
        0 <= i < children.len(),
    ensures
        children[i] matches Some(c) ==> c.wf(),
    decreases children.len(),
{
    if i < children.len() - 1 {
        assert(children.drop_last()[i] == children[i]);
        lemma_children_wf(children.drop_last(), i);
    }
}

pub proof fn lemma_children_wf_update(children: Seq<Option<Box<MPTNode>>>, i: int, c: Option<Box<MPTNode>>)
    requires
        children_wf(children),
        0 <= i < children.len(),
        c matches Some(n) ==> n.wf(),
    ensures
        children_wf(children.update(i, c)),
    decreases children.len(),
{
    let u = children.update(i, c);
    if i < children.len() - 1 {
        lemma_children_wf_update(children.drop_last(), i, c);
        assert(u.drop_last() =~= children.drop_last().update(i, c));
    } else {
        assert(u.drop_last() =~= children.drop_last());
    }
}

pub proof fn lemma_children_wf_none(n: nat)
    ensures
        children_wf(Seq::new(n, |i: int| None::<Box<MPTNode>>)),
    decreases n,
{
    if n > 0 {
        lemma_children_wf_none((n - 1) as nat);
        assert(Seq::new(n, |i: int| None::<Box<MPTNode>>).drop_last() =~= Seq::new(
            (n - 1) as nat,
            |i: int| None::<Box<MPTNode>>,
        ));
    }
}

/// Sixteen absent children.
pub open spec fn no_children() -> Seq<Option<Box<MPTNode>>> {
    Seq::new(16, |i: int| None::<Box<MPTNode>>)
}

/// Sixteen absent children.
pub fn empty_children() -> (children: Vec<Option<Box<MPTNode>>>)
    ensures
        children@ == no_children(),
        children_wf(children@),
{
    let mut children: Vec<Option<Box<MPTNode>>> = Vec::new();
    let mut i: usize = 0;
    while i < 16
        invariant
            i <= 16,
            children@ =~= Seq::new(i as nat, |j: int| None::<Box<MPTNode>>),
        decreases 16 - i,
    {
        children.push(None);
        i = i + 1;
    }
    proof {
        lemma_children_wf_none(16);
    }
    children
}

/// The bytes of `"Empty"`.
pub open spec fn json_empty() -> Seq<u8> {
    seq![34u8, 69, 109, 112, 116, 121, 34]
}

fn push_json_empty(out: &mut Vec<u8>)
    ensures
        final(out)@ == old(out)@ + json_empty(),
{
    out.push(34u8);
    out.push(69u8);
    out.push(109u8);
    out.push(112u8);
    out.push(116u8);
    out.push(121u8);
    out.push(34u8);
    assert(out@ =~= old(out)@ + json_empty());
}

/// The bytes of `{"Leaf":{"path":`.
pub open spec fn json_leaf_open() -> Seq<u8> {
    seq![123u8, 34, 76, 101, 97, 102, 34, 58, 123, 34, 112, 97, 116, 104, 34, 58]
}

fn push_json_leaf_open(out: &mut Vec<u8>)
    ensures
        final(out)@ == old(out)@ + json_leaf_open(),
{
    out.push(123u8);
    out.push(34u8);
    out.push(76u8);
    out.push(101u8);
    out.push(97u8);
    out.push(102u8);
    out.push(34u8);
    out.push(58u8);
    out.push(123u8);
    out.push(34u8);
    out.push(112u8);
    out.push(97u8);
    out.push(116u8);
    out.push(104u8);
    out.push(34u8);
    out.push(58u8);
    assert(out@ =~= old(out)@ + json_leaf_open());
}

/// The bytes of `,"value":`.
pub open spec fn json_value_key() -> Seq<u8> {
    seq![44u8, 34, 118, 97, 108, 117, 101, 34, 58]
}

fn push_json_value_key(out: &mut Vec<u8>)
    ensures
        final(out)@ == old(out)@ + json_value_key(),
{
    out.push(44u8);
    out.push(34u8);
    out.push(118u8);
    out.push(97u8);
    out.push(108u8);
    out.push(117u8);
    out.push(101u8);
    out.push(34u8);
    out.push(58u8);
    assert(out@ =~= old(out)@ + json_value_key());
}

/// The bytes of `}}`.
pub open spec fn json_close() -> Seq<u8> {
    seq![125u8, 125]
}

fn push_json_close(out: &mut Vec<u8>)
    ensures
        final(out)@ == old(out)@ + json_close(),
{
    out.push(125u8);
    out.push(125u8);
    assert(out@ =~= old(out)@ + json_close());
}

/// The bytes of `{"Extension":{"path":`.
pub open spec fn json_ext_open() -> Seq<u8> {
    seq![123u8, 34, 69, 120, 116, 101, 110, 115, 105, 111, 110, 34, 58, 123, 34, 112, 97, 116, 104, 34, 58]
}

fn push_json_ext_open(out: &mut Vec<u8>)
    ensures
        final(out)@ == old(out)@ + json_ext_open(),
{
    out.push(123u8);
    out.push(34u8);
    out.push(69u8);
    out.push(120u8);
    out.push(116u8);
    out.push(101u8);
    out.push(110u8);
    out.push(115u8);
    out.push(105u8);
    out.push(111u8);
    out.push(110u8);
    out.push(34u8);
    out.push(58u8);
    out.push(123u8);
    out.push(34u8);
    out.push(112u8);
    out.push(97u8);
    out.push(116u8);
    out.push(104u8);
    out.push(34u8);
    out.push(58u8);
    assert(out@ =~= old(out)@ + json_ext_open());
}

/// The bytes of `,"child":`.
pub open spec fn json_child_key() -> Seq<u8> {
    seq![44u8, 34, 99, 104, 105, 108, 100, 34, 58]
}

fn push_json_child_key(out: &mut Vec<u8>)
    ensures
        final(out)@ == old(out)@ + json_child_key(),
{
    out.push(44u8);
    out.push(34u8);
    out.push(99u8);
    out.push(104u8);
    out.push(105u8);
    out.push(108u8);
    out.push(100u8);
    out.push(34u8);
    out.push(58u8);
    assert(out@ =~= old(out)@ + json_child_key());
}

/// The bytes of `{"Branch":{"children":[`.
pub open spec fn json_branch_open() -> Seq<u8> {
    seq![123u8, 34, 66, 114, 97, 110, 99, 104, 34, 58, 123, 34, 99, 104, 105, 108, 100, 114, 101, 110, 34, 58, 91]
}

fn push_json_branch_open(out: &mut Vec<u8>)
    ensures
        final(out)@ == old(out)@ + json_branch_open(),
{
    out.push(123u8);
    out.push(34u8);
    out.push(66u8);
    out.push(114u8);
    out.push(97u8);
    out.push(110u8);
    out.push(99u8);
    out.push(104u8);
    out.push(34u8);
    out.push(58u8);
    out.push(123u8);
    out.push(34u8);
    out.push(99u8);
    out.push(104u8);
    out.push(105u8);
    out.push(108u8);
    out.push(100u8);
    out.push(114u8);
    out.push(101u8);
    out.push(110u8);
    out.push(34u8);
    out.push(58u8);
    out.push(91u8);
    assert(out@ =~= old(out)@ + json_branch_open());
}

/// The bytes of `],"value":`.
pub open spec fn json_branch_mid() -> Seq<u8> {
    seq![93u8, 44, 34, 118, 97, 108, 117, 101, 34, 58]
}

fn push_json_branch_mid(out: &mut Vec<u8>)
    ensures
        final(out)@ == old(out)@ + json_branch_mid(),
{
    out.push(93u8);
    out.push(44u8);
    out.push(34u8);
    out.push(118u8);
    out.push(97u8);
    out.push(108u8);
    out.push(117u8);
    out.push(101u8);
    out.push(34u8);
    out.push(58u8);
    assert(out@ =~= old(out)@ + json_branch_mid());
}

/// The bytes of `null`.
pub open spec fn json_null() -> Seq<u8> {
    seq![110u8, 117, 108, 108]
}

fn push_json_null(out: &mut Vec<u8>)
    ensures
        final(out)@ == old(out)@ + json_null(),
{
    out.push(110u8);
    out.push(117u8);
    out.push(108u8);
    out.push(108u8);
    assert(out@ =~= old(out)@ + json_null());
}

/// The decimal numbers of the bytes separated by commas.
pub open spec fn json_numbers(bytes: Seq<u8>) -> Seq<u8>
    decreases bytes.len(),
{
    if bytes.len() == 0 {
        Seq::empty()
    } else if bytes.len() == 1 {
        dec_bytes(bytes[0] as nat)
    } else {
        json_numbers(bytes.drop_last()) + seq![44u8] + dec_bytes(bytes.last() as nat)
    }
}

/// A byte sequence as a JSON array of numbers, as serde_json writes it.
pub open spec fn json_array(bytes: Seq<u8>) -> Seq<u8> {
    seq![91u8] + json_numbers(bytes) + seq![93u8]
}

/// The JSON text of a node, as serde_json writes the serde rendering of the
/// node type (externally tagged variants, no whitespace).
pub open spec fn node_json(node: MPTNode) -> Seq<u8>
    decreases node,
{
    match node {
        MPTNode::Empty => json_empty(),
        MPTNode::Leaf { path, value } => json_leaf_open() + json_array(path@) + json_value_key() + json_array(
            value@,
        ) + json_close(),
        MPTNode::Extension { path, child } => json_ext_open() + json_array(path@) + json_child_key() + node_json(
            *child,
        ) + json_close(),
        MPTNode::Branch { children, value } => json_branch_open() + children_json(children@)
            + json_branch_mid() + match value {
            Some(v) => json_array(v@),
            None => json_null(),
        } + json_close(),
    }
}

/// The JSON text of a list of optional children, separated by commas.
pub open spec fn children_json(children: Seq<Option<Box<MPTNode>>>) -> Seq<u8>
    decreases children,
{
    if children.len() == 0 {
        Seq::empty()
    } else {
        let last = match children.last() {
            Some(c) => node_json(*c),
            None => json_null(),
        };
        if children.len() == 1 {
            last
        } else {
            children_json(children.drop_last()) + seq![44u8] + last
        }
    }
}

/// `needle` occurs in `hay` as a run of consecutive bytes.
pub open spec fn occurs_in(needle: Seq<u8>, hay: Seq<u8>) -> bool {
    exists|i: int| 0 <= i && i + needle.len() <= hay.len() && #[trigger] hay.subrange(i, i + needle.len()) == needle
}

/// A text occurs in itself.
proof fn lemma_occurs_self(a: Seq<u8>)
    ensures
        occurs_in(a, a),
{
    let i = 0int;
    assert(a.subrange(i, i + a.len()) =~= a);
}

/// What occurs in a text occurs in that text with more before or after it.
proof fn lemma_occurs_concat(n: Seq<u8>, a: Seq<u8>, b: Seq<u8>)
    ensures
        occurs_in(n, a) ==> occurs_in(n, a + b),
        occurs_in(n, b) ==> occurs_in(n, a + b),
{
    if occurs_in(n, a) {
        let i = choose|i: int| 0 <= i && i + n.len() <= a.len() && #[trigger] a.subrange(i, i + n.len()) == n;
        assert((a + b).subrange(i, i + n.len()) =~= a.subrange(i, i + n.len()));
    }
    if occurs_in(n, b) {
        let i = choose|i: int| 0 <= i && i + n.len() <= b.len() && #[trigger] b.subrange(i, i + n.len()) == n;
        assert((a + b).subrange(a.len() + i, a.len() + i + n.len()) =~= b.subrange(i, i + n.len()));
    }
}

/// What occurs in a part of a text occurs in the text.
proof fn lemma_occurs_trans(a: Seq<u8>, b: Seq<u8>, c: Seq<u8>)
    requires
        occurs_in(a, b),
        occurs_in(b, c),
    ensures
        occurs_in(a, c),
{
    let i = choose|i: int| 0 <= i && i + a.len() <= b.len() && #[trigger] b.subrange(i, i + a.len()) == a;
    let j = choose|j: int| 0 <= j && j + b.len() <= c.len() && #[trigger] c.subrange(j, j + b.len()) == b;
    assert(c.subrange(j + i, j + i + a.len()) =~= c.subrange(j, j + b.len()).subrange(i, i + a.len()));
}

/// The JSON text of a list of children holds the JSON text of each
/// present child.
proof fn lemma_children_json_holds_child(children: Seq<Option<Box<MPTNode>>>, i: int)
    requires
        0 <= i < children.len(),
        children[i] is Some,
    ensures
        occurs_in(node_json(*children[i]->0), children_json(children)),
    decreases children.len(),
{
    let n = children.len() - 1;
    let c = *children[i]->0;
    if i == n {
        lemma_occurs_self(node_json(c));
        if children.len() > 1 {
            lemma_occurs_concat(node_json(c), children_json(children.drop_last()) + seq![44u8], node_json(c));
        }
    } else {
        let rest = children.drop_last();
        assert(rest[i] == children[i]);
        lemma_children_json_holds_child(rest, i);
        let last = match children.last() {
            Some(d) => node_json(*d),
            None => json_null(),
        };
        lemma_occurs_concat(node_json(c), children_json(rest), seq![44u8]);
        lemma_occurs_concat(node_json(c), children_json(rest) + seq![44u8], last);
    }
}

/// The JSON text of a node holds the JSON text of every value that the
/// node stores: what is hashed for a node commits to all the data below
/// it, whatever path leads there.
pub proof fn lemma_node_json_holds_values(node: MPTNode, key: Seq<u8>)
    requires
        node.lookup(key) is Some,
    ensures
        occurs_in(json_array(node.lookup(key)->0), node_json(node)),
    decreases node,
{
    match node {
        MPTNode::Empty => {},
        MPTNode::Leaf { path, value } => {
            let v = json_array(value@);
            lemma_occurs_self(v);
            lemma_occurs_concat(v, json_leaf_open() + json_array(path@) + json_value_key(), v);
            lemma_occurs_concat(v, json_leaf_open() + json_array(path@) + json_value_key() + v, json_close());
        },
        MPTNode::Extension { path, child } => {
            let p = decoded_path(path@);
            let rest = suffix(key, p.len() as int);
            lemma_node_json_holds_values(*child, rest);
            let v = json_array(child.lookup(rest)->0);
            let head = json_ext_open() + json_array(path@) + json_child_key();
            lemma_occurs_self(node_json(*child));
            lemma_occurs_concat(node_json(*child), head, node_json(*child));
            lemma_occurs_trans(v, node_json(*child), head + node_json(*child));
            lemma_occurs_concat(v, head + node_json(*child), json_close());
        },
        MPTNode::Branch { children, value } => {
            let tail = match value {
                Some(w) => json_array(w@),
                None => json_null(),
            };
            let head = json_branch_open() + children_json(children@) + json_branch_mid();
            let v = json_array(node.lookup(key)->0);
            if key.len() == 0 {
                lemma_occurs_self(v);
                lemma_occurs_concat(v, head, tail);
            } else {
                let i = key[0] as int;
                let c = *children@[i]->0;
                lemma_child_decreases(node, i);
                lemma_node_json_holds_values(c, key.drop_first());
                lemma_children_json_holds_child(children@, i);
                lemma_occurs_trans(v, node_json(c), children_json(children@));
                lemma_occurs_concat(v, json_branch_open(), children_json(children@));
                lemma_occurs_concat(v, json_branch_open() + children_json(children@), json_branch_mid());
                lemma_occurs_concat(v, head, tail);
            }
            lemma_occurs_concat(v, head + tail, json_close());
        },
    }
}

fn push_json_array(bytes: &[u8], out: &mut Vec<u8>)
    ensures
        final(out)@ == old(out)@ + json_array(bytes@),
{
    out.push(91u8);
    let mut i: usize = 0;
    while i < bytes.len()
        invariant
            i <= bytes@.len(),
            out@ == old(out)@ + seq![91u8] + json_numbers(bytes@.subrange(0, i as int)),
        decreases bytes@.len() - i,
    {
        let ghost before = out@;
        if i > 0 {
            out.push(44u8);
        }
        push_decimal(bytes[i] as u64, out);
        proof {
            let s = bytes@.subrange(0, i + 1);
            assert(s.drop_last() =~= bytes@.subrange(0, i as int));
            if i == 0 {
                assert(json_numbers(bytes@.subrange(0, 0)) =~= Seq::<u8>::empty());
            }
        }
        i = i + 1;
        proof {
            let s = bytes@.subrange(0, i as int);
            assert(out@ =~= old(out)@ + seq![91u8] + json_numbers(s));
        }
    }
    assert(bytes@.subrange(0, bytes@.len() as int) =~= bytes@);
    out.push(93u8);
    assert(out@ =~= old(out)@ + json_array(bytes@));
}

/// Appends the JSON text of a node.
pub fn push_node_json(node: &MPTNode, out: &mut Vec<u8>)
    ensures
        final(out)@ == old(out)@ + node_json(*node),
    decreases node,
{
    match node {
        MPTNode::Empty => {
            push_json_empty(out);
        },
        MPTNode::Leaf { path, value } => {
            push_json_leaf_open(out);
            push_json_array(path.as_slice(), out);
            push_json_value_key(out);
            push_json_array(value.as_slice(), out);
            push_json_close(out);
            assert(out@ =~= old(out)@ + node_json(*node));
        },
        MPTNode::Extension { path, child } => {
            push_json_ext_open(out);
            push_json_array(path.as_slice(), out);
            push_json_child_key(out);
            push_node_json(child, out);
            push_json_close(out);
            assert(out@ =~= old(out)@ + node_json(*node));
        },
        MPTNode::Branch { children, value } => {
            push_json_branch_open(out);
            let ghost start = out@;
            let mut i: usize = 0;
            while i < children.len()
                invariant
                    i <= children@.len(),
                    *node is Branch,
                    node->children == *children,
                    out@ == start + children_json(children@.subrange(0, i as int)),
                decreases children@.len() - i,
            {
                proof {
                    let s = children@.subrange(0, i + 1);
                    assert(s.drop_last() =~= children@.subrange(0, i as int));
                    assert(s.last() == children@[i as int]);
                    if i == 0 {
                        assert(children_json(children@.subrange(0, 0)) =~= Seq::<u8>::empty());
                    }
                }
                if i > 0 {
                    out.push(44u8);
                }
                match &children[i] {
                    Some(c) => {
                        proof {
                            lemma_child_decreases(*node, i as int);
                        }
                        push_node_json(c, out);
                    },
                    None => {
                        push_json_null(out);
                    },
                }
                i = i + 1;
                proof {
                    assert(out@ =~= start + children_json(children@.subrange(0, i as int)));
                }
            }
            assert(children@.subrange(0, children@.len() as int) =~= children@);
            push_json_branch_mid(out);
            match value {
                Some(v) => {
                    push_json_array(v.as_slice(), out);
                },
                None => {
                    push_json_null(out);
                },
            }
            push_json_close(out);
            assert(out@ =~= old(out)@ + node_json(*node));
        },
    }
}

/// The hash of a node: the SHA-256 digest of its JSON text.
pub open spec fn spec_node_hash(node: MPTNode) -> Seq<u8> {
    spec_sha256(node_json(node))
}

impl MPTNode {
    /// Create a new branch node
    pub fn new_branch() -> (node: MPTNode)
        ensures
            node matches MPTNode::Branch { children, value } && children@ == no_children() && value is None,
            node.wf(),
    {
        MPTNode::Branch { children: empty_children(), value: None }
    }

    /// Calculate the hash of this node
    pub fn calculate_hash(&self) -> (hash: Vec<u8>)
        ensures
            hash@ == spec_node_hash(*self),
            hash@.len() == 32,
    {
        let mut serialized: Vec<u8> = Vec::new();
        push_node_json(self, &mut serialized);
        assert(serialized@ =~= node_json(*self));
        sha256(serialized.as_slice())
    }

    /// Check if this node is empty
    pub fn is_empty(&self) -> (b: bool)
        ensures
            b == (*self is Empty),
    {
        match self {
            MPTNode::Empty => true,
            _ => false,
        }
    }

    /// Get the value if this is a branch with a value
    pub fn get_branch_value(&self) -> (v: Option<&Vec<u8>>)
        ensures
            match *self {
                MPTNode::Branch { value, .. } => match value {
                    Some(x) => v == Some(&x),
                    None => v is None,
                },
                _ => v is None,
            },
    {
        match self {
            MPTNode::Branch { value, .. } => value.as_ref(),
            _ => None,
        }
    }
}

} // verus!
