//! Merkle-Patricia trie proof verification, decode side.
//!
//! A proof is an ordered list of RLP-encoded trie nodes from the root down.
//! Each node is identified by the Keccak-256 of its encoding; a child slot
//! holds either that 32-byte hash or, when the child's encoding is shorter
//! than 32 bytes, the encoding itself inline. Keys are sequences of 64
//! nibbles; paths inside leaf and extension nodes carry Ethereum's
//! hex-prefix encoding, whose first nibble holds the leaf flag and the
//! odd-length flag.

use vstd::prelude::*;

use crate::rlp::{parse_header, spec_decode_string, spec_parse_header, RlpError};

verus! {

/// The nibbles of a byte string: for each byte its high nibble, then its
/// low nibble.
pub open spec fn nibbles_of(b: Seq<u8>) -> Seq<u8> {
    Seq::new(
        2 * b.len(),
        |i: int|
            if i % 2 == 0 {
                b[i / 2] >> 4
            } else {
                b[i / 2] & 0xf
            },
    )
}

/// Every nibble is below 16.
pub proof fn lemma_nibbles_bounded(b: Seq<u8>)
    ensures
        forall|i: int| 0 <= i < nibbles_of(b).len() ==> #[trigger] nibbles_of(b)[i] < 16,
{
    assert forall|i: int| 0 <= i < nibbles_of(b).len() implies #[trigger] nibbles_of(b)[i]
        < 16 by {
        let x = b[i / 2];
        assert(x >> 4 < 16 && x & 0xf < 16) by (bit_vector);
    }
}

/// Unpack a byte string into its nibbles, high nibble of each byte first.
pub fn key_nibbles(b: &Vec<u8>) -> (r: Vec<u8>)
    ensures
        r@ == nibbles_of(b@),
        forall|i: int| 0 <= i < r@.len() ==> r@[i] < 16,
{
    let n = b.len();
    let mut r: Vec<u8> = Vec::new();
    let mut i: usize = 0;
    while i < n
        invariant
            i <= n,
            n == b@.len(),
            r@ =~= nibbles_of(b@).take(2 * i as int),
        decreases n - i,
    {
        r.push(b[i] >> 4);
        r.push(b[i] & 0xf);
        i = i + 1;
        proof {
            assert(r@ =~= nibbles_of(b@).take(2 * i as int));
        }
    }
    proof {
        assert(nibbles_of(b@).take(2 * n as int) =~= nibbles_of(b@));
        lemma_nibbles_bounded(b@);
    }
    r
}

/// A child slot of a branch or extension node.
#[derive(Clone, Debug, PartialEq, Eq)]
pub enum Child {
    /// The slot is empty: the trie has no node there.
    Empty,
    /// The 32-byte Keccak-256 hash of the child node's encoding.
    Hash(Vec<u8>),
    /// The child node's whole RLP encoding, inlined because it is shorter
    /// than 32 bytes.
    Inline(Vec<u8>),
}

/// The mathematical content of a [`Child`].
#[verifier::ext_equal]
pub enum ChildModel {
    /// The slot is empty.
    Empty,
    /// The 32-byte hash of the child node's encoding.
    Hash(Seq<u8>),
    /// The child node's whole RLP encoding.
    Inline(Seq<u8>),
}

impl View for Child {
    type V = ChildModel;

    open spec fn view(&self) -> ChildModel {
        match self {
            Child::Empty => ChildModel::Empty,
            Child::Hash(h) => ChildModel::Hash(h@),
            Child::Inline(b) => ChildModel::Inline(b@),
        }
    }
}

/// A decoded trie node: the three shapes the verifier walks.
#[derive(Clone, Debug, PartialEq, Eq)]
pub enum TrieNode {
    /// Terminal node: the rest of a key's nibbles and the stored value.
    Leaf {
        /// The key nibbles remaining below this node.
        path: Vec<u8>,
        /// The stored value.
        value: Vec<u8>,
    },
    /// A shared run of nibbles leading to a single child.
    Extension {
        /// The shared nibbles.
        path: Vec<u8>,
        /// The child below the shared run.
        child: Child,
    },
    /// A 16-way fork with an optional value of its own.
    Branch {
        /// One child slot per nibble.
        children: Vec<Child>,
        /// The value stored at the branch itself; empty when absent.
        value: Vec<u8>,
    },
}

/// The mathematical content of a [`TrieNode`].
#[verifier::ext_equal]
pub enum NodeModel {
    /// Terminal node.
    Leaf {
        /// The key nibbles remaining below this node.
        path: Seq<u8>,
        /// The stored value.
        value: Seq<u8>,
    },
    /// A shared run of nibbles leading to a single child.
    Extension {
        /// The shared nibbles.
        path: Seq<u8>,
        /// The child below the shared run.
        child: ChildModel,
    },
    /// A 16-way fork with an optional value of its own.
    Branch {
        /// One child slot per nibble, 16 slots.
        children: Seq<ChildModel>,
        /// The value stored at the branch itself; empty when absent.
        value: Seq<u8>,
    },
}

impl View for TrieNode {
    type V = NodeModel;

    open spec fn view(&self) -> NodeModel {
        match self {
            TrieNode::Leaf { path, value } => NodeModel::Leaf { path: path@, value: value@ },
            TrieNode::Extension { path, child } => NodeModel::Extension {
                path: path@,
                child: child@,
            },
            TrieNode::Branch { children, value } => NodeModel::Branch {
                children: children@.map_values(|c: Child| c@),
                value: value@,
            },
        }
    }
}

/// Decode a hex-prefix path: the leaf flag and the nibbles. The first
/// nibble must be a valid flag, and an even path must have a zero filler
/// nibble.
pub open spec fn spec_decode_path(s: Seq<u8>) -> Result<(bool, Seq<u8>), RlpError> {
    if s.len() == 0 {
        Err(RlpError::UnexpectedShape)
    } else {
        let flag = s[0] >> 4;
        if flag > 3 {
            Err(RlpError::UnexpectedShape)
        } else {
            let is_leaf = flag & 2 == 2;
            let odd = flag & 1 == 1;
            if !odd && s[0] & 0xf != 0 {
                Err(RlpError::UnexpectedShape)
            } else {
                let tail = nibbles_of(s.drop_first());
                if odd {
                    Ok((is_leaf, seq![s[0] & 0xf] + tail))
                } else {
                    Ok((is_leaf, tail))
                }
            }
        }
    }
}

/// Decode a hex-prefix path from the payload of a node's first item.
pub fn decode_path(s: &Vec<u8>) -> (r: Result<(bool, Vec<u8>), RlpError>)
    ensures
        match spec_decode_path(s@) {
            Ok((is_leaf, nibs)) => r matches Ok((rl, rn)) && rl == is_leaf && rn@ == nibs,
            Err(e) => r matches Err(e2) && e2 == e,
        },
{
    if s.len() == 0 {
        return Err(RlpError::UnexpectedShape);
    }
    let flag = s[0] >> 4;
    if flag > 3 {
        return Err(RlpError::UnexpectedShape);
    }
    let is_leaf = flag & 2 == 2;
    let odd = flag & 1 == 1;
    if !odd && s[0] & 0xf != 0 {
        return Err(RlpError::UnexpectedShape);
    }
    let rest = crate::bytes::copy_range(s, 1, s.len());
    proof {
        assert(rest@ =~= s@.drop_first());
    }
    let tail = key_nibbles(&rest);
    if odd {
        let mut nibs: Vec<u8> = Vec::new();
        nibs.push(s[0] & 0xf);
        crate::bytes::push_all(&mut nibs, &tail);
        proof {
            assert(nibs@ =~= seq![s@[0] & 0xf] + nibbles_of(s@.drop_first()));
        }
        Ok((is_leaf, nibs))
    } else {
        Ok((is_leaf, tail))
    }
}

/// The views of a vector of byte vectors.
pub open spec fn views_of(s: Seq<Vec<u8>>) -> Seq<Seq<u8>> {
    s.map_values(|v: Vec<u8>| v@)
}

/// Prepend already-parsed items to a parse result.
pub open spec fn combine_items(pre: Seq<Seq<u8>>, r: Result<Seq<Seq<u8>>, RlpError>) -> Result<
    Seq<Seq<u8>>,
    RlpError,
> {
    match r {
        Ok(s) => Ok(pre + s),
        Err(e) => Err(e),
    }
}

/// Split a list payload into its items, each kept whole with its own
/// header. Every item must be a well-formed frame, and together they must
/// fill the payload exactly.
pub open spec fn spec_parse_items(p: Seq<u8>) -> Result<Seq<Seq<u8>>, RlpError>
    decreases p.len(),
{
    if p.len() == 0 {
        Ok(seq![])
    } else {
        match spec_parse_header(p) {
            Err(e) => Err(e),
            Ok(h) => {
                let tot = h.off + h.len;
                if 0 < tot <= p.len() {
                    match spec_parse_items(p.skip(tot)) {
                        Err(e) => Err(e),
                        Ok(rest) => Ok(seq![p.take(tot)] + rest),
                    }
                } else {
                    Err(RlpError::UnexpectedLength)
                }
            },
        }
    }
}

/// Split the list payload at positions `off..` of `buf` into its items.
pub fn parse_items(buf: &Vec<u8>, off: usize) -> (r: Result<Vec<Vec<u8>>, RlpError>)
    requires
        off <= buf@.len(),
    ensures
        match spec_parse_items(buf@.skip(off as int)) {
            Ok(items) => r matches Ok(v) && views_of(v@) == items,
            Err(e) => r matches Err(e2) && e2 == e,
        },
{
    let n = buf.len();
    let mut items: Vec<Vec<u8>> = Vec::new();
    let mut cur: usize = off;
    while cur < n
        invariant
            off <= cur <= n,
            n == buf@.len(),
            spec_parse_items(buf@.skip(off as int)) == combine_items(
                views_of(items@),
                spec_parse_items(buf@.skip(cur as int)),
            ),
        decreases n - cur,
    {
        let (is_list, o, l) = match parse_header(buf, cur) {
            Err(e) => {
                return Err(e);
            },
            Ok(h) => h,
        };
        let tot = o + l;
        if !(0 < tot && tot <= n - cur) {
            return Err(RlpError::UnexpectedLength);
        }
        let item = crate::bytes::copy_range(buf, cur, cur + tot);
        let ghost prior = views_of(items@);
        let ghost p = buf@.skip(cur as int);
        items.push(item);
        proof {
            assert(p.take(tot as int) =~= buf@.subrange(cur as int, cur + tot));
            assert(p.skip(tot as int) =~= buf@.skip(cur + tot));
            assert(views_of(items@) =~= prior + seq![p.take(tot as int)]);
            match spec_parse_items(buf@.skip(cur + tot)) {
                Ok(rest) => {
                    assert(prior + (seq![p.take(tot as int)] + rest) =~= views_of(items@) + rest);
                },
                Err(_) => {},
            }
            assert(spec_parse_items(buf@.skip(off as int)) == combine_items(
                views_of(items@),
                spec_parse_items(buf@.skip(cur + tot)),
            ));
        }
        cur = cur + tot;
    }
    proof {
        assert(buf@.skip(n as int).len() == 0);
        match spec_parse_items(buf@.skip(off as int)) {
            Ok(its) => {
                assert(views_of(items@) + seq![] =~= views_of(items@));
                assert(its =~= views_of(items@));
            },
            Err(_) => {},
        }
    }
    Ok(items)
}

/// Decode a child slot from one raw item: an empty string is an empty
/// slot, a 32-byte string is a hash, and a list shorter than 32 bytes is
/// an inline node. Anything else is not a trie node.
pub open spec fn spec_decode_child(item: Seq<u8>) -> Result<ChildModel, RlpError> {
    match spec_parse_header(item) {
        Err(e) => Err(e),
        Ok(h) => if h.is_list {
            if item.len() < 32 {
                Ok(ChildModel::Inline(item))
            } else {
                Err(RlpError::UnexpectedShape)
            }
        } else {
            if h.len == 0 {
                Ok(ChildModel::Empty)
            } else if h.len == 32 {
                Ok(ChildModel::Hash(item.subrange(h.off, h.off + h.len)))
            } else {
                Err(RlpError::UnexpectedShape)
            }
        },
    }
}

/// Decode a child slot from one raw item.
pub fn decode_child(item: &Vec<u8>) -> (r: Result<Child, RlpError>)
    ensures
        match spec_decode_child(item@) {
            Ok(c) => r matches Ok(rc) && rc@ == c,
            Err(e) => r matches Err(e2) && e2 == e,
        },
{
    proof {
        assert(item@.skip(0) =~= item@);
    }
    let n = item.len();
    let (is_list, o, l) = match parse_header(item, 0) {
        Err(e) => {
            return Err(e);
        },
        Ok(h) => h,
    };
    if is_list {
        if item.len() < 32 {
            Ok(Child::Inline(item.clone()))
        } else {
            Err(RlpError::UnexpectedShape)
        }
    } else {
        if l == 0 {
            Ok(Child::Empty)
        } else if l == 32 {
            Ok(Child::Hash(crate::bytes::copy_range(item, o, o + l)))
        } else {
            Err(RlpError::UnexpectedShape)
        }
    }
}

/// Decode a child slot from each of the first 16 items of a branch node.
pub open spec fn spec_decode_children(items: Seq<Seq<u8>>, i: int) -> Result<
    Seq<ChildModel>,
    RlpError,
>
    decreases 16 - i,
{
    if i >= 16 {
        Ok(seq![])
    } else {
        match spec_decode_child(items[i]) {
            Err(e) => Err(e),
            Ok(c) => match spec_decode_children(items, i + 1) {
                Err(e) => Err(e),
                Ok(rest) => Ok(seq![c] + rest),
            },
        }
    }
}

/// Decode a trie node from its RLP items: two items make a leaf or an
/// extension by the hex-prefix flag, seventeen make a branch.
pub open spec fn spec_decode_node_items(items: Seq<Seq<u8>>) -> Result<NodeModel, RlpError> {
    if items.len() == 2 {
        match spec_decode_string(items[0]) {
            Err(e) => Err(e),
            Ok((pv, c)) => match spec_decode_path(pv) {
                Err(e) => Err(e),
                Ok((is_leaf, nibs)) => if is_leaf {
                    match spec_decode_string(items[1]) {
                        Err(e) => Err(e),
                        Ok((val, c2)) => Ok(NodeModel::Leaf { path: nibs, value: val }),
                    }
                } else {
                    match spec_decode_child(items[1]) {
                        Err(e) => Err(e),
                        Ok(ch) => if ch is Empty {
                            Err(RlpError::UnexpectedShape)
                        } else {
                            Ok(NodeModel::Extension { path: nibs, child: ch })
                        },
                    }
                },
            },
        }
    } else if items.len() == 17 {
        match spec_decode_children(items, 0) {
            Err(e) => Err(e),
            Ok(children) => match spec_decode_string(items[16]) {
                Err(e) => Err(e),
                Ok((val, c)) => Ok(NodeModel::Branch { children, value: val }),
            },
        }
    } else {
        Err(RlpError::UnexpectedShape)
    }
}

/// Decode a trie node: a list that fills its input exactly, made of two or
/// seventeen items.
pub open spec fn spec_decode_node(b: Seq<u8>) -> Result<NodeModel, RlpError> {
    match spec_parse_header(b) {
        Err(e) => Err(e),
        Ok(h) => if !h.is_list {
            Err(RlpError::UnexpectedType)
        } else if h.off + h.len != b.len() {
            Err(RlpError::UnexpectedLength)
        } else {
            match spec_parse_items(b.skip(h.off)) {
                Err(e) => Err(e),
                Ok(items) => spec_decode_node_items(items),
            }
        },
    }
}

/// Decode a child slot from each of the first 16 items of a branch node.
fn decode_children(items: &Vec<Vec<u8>>, i: usize) -> (r: Result<Vec<Child>, RlpError>)
    requires
        items@.len() >= 16,
        i <= 16,
    ensures
        match spec_decode_children(views_of(items@), i as int) {
            Ok(cs) => r matches Ok(v) && v@.map_values(|c: Child| c@) == cs,
            Err(e) => r matches Err(e2) && e2 == e,
        },
    decreases 16 - i,
{
    if i == 16 {
        let v: Vec<Child> = Vec::new();
        proof {
            assert(v@.map_values(|c: Child| c@) =~= Seq::<ChildModel>::empty());
        }
        Ok(v)
    } else {
        let c = match decode_child(&items[i]) {
            Err(e) => {
                return Err(e);
            },
            Ok(c) => c,
        };
        match decode_children(items, i + 1) {
            Err(e) => Err(e),
            Ok(rest) => {
                let ghost c_model = c@;
                let ghost rest_models = rest@.map_values(|ch: Child| ch@);
                let mut v: Vec<Child> = Vec::new();
                v.push(c);
                let mut tail = rest;
                v.append(&mut tail);
                proof {
                    assert(v@.map_values(|ch: Child| ch@) =~= seq![c_model] + rest_models);
                }
                Ok(v)
            },
        }
    }
}

/// Decode a trie node from its RLP encoding, which it must fill exactly.
pub fn decode_node(b: &Vec<u8>) -> (r: Result<TrieNode, RlpError>)
    ensures
        match spec_decode_node(b@) {
            Ok(m) => r matches Ok(node) && node@ == m,
            Err(e) => r matches Err(e2) && e2 == e,
        },
{
    proof {
        assert(b@.skip(0) =~= b@);
    }
    let n = b.len();
    let (is_list, off, len) = match parse_header(b, 0) {
        Err(e) => {
            return Err(e);
        },
        Ok(h) => h,
    };
    if !is_list {
        return Err(RlpError::UnexpectedType);
    }
    if off + len != n {
        return Err(RlpError::UnexpectedLength);
    }
    let items = match parse_items(b, off) {
        Err(e) => {
            return Err(e);
        },
        Ok(v) => v,
    };
    decode_node_items(&items)
}

/// Decode a trie node from its already-split items.
fn decode_node_items(items: &Vec<Vec<u8>>) -> (r: Result<TrieNode, RlpError>)
    ensures
        match spec_decode_node_items(views_of(items@)) {
            Ok(m) => r matches Ok(node) && node@ == m,
            Err(e) => r matches Err(e2) && e2 == e,
        },
{
    let ghost models = views_of(items@);
    if items.len() == 2 {
        proof {
            assert(items@[0]@.skip(0) =~= models[0]);
            assert(items@[1]@.skip(0) =~= models[1]);
        }
        let (pv, _c) = match crate::rlp::decode_string_at(&items[0], 0) {
            Err(e) => {
                return Err(e);
            },
            Ok(v) => v,
        };
        let (is_leaf, nibs) = match decode_path(&pv) {
            Err(e) => {
                return Err(e);
            },
            Ok(v) => v,
        };
        if is_leaf {
            let (val, _c2) = match crate::rlp::decode_string_at(&items[1], 0) {
                Err(e) => {
                    return Err(e);
                },
                Ok(v) => v,
            };
            Ok(TrieNode::Leaf { path: nibs, value: val })
        } else {
            let ch = match decode_child(&items[1]) {
                Err(e) => {
                    return Err(e);
                },
                Ok(c) => c,
            };
            if matches!(ch, Child::Empty) {
                Err(RlpError::UnexpectedShape)
            } else {
                Ok(TrieNode::Extension { path: nibs, child: ch })
            }
        }
    } else if items.len() == 17 {
        let children = match decode_children(items, 0) {
            Err(e) => {
                return Err(e);
            },
            Ok(v) => v,
        };
        proof {
            assert(items@[16]@.skip(0) =~= models[16]);
        }
        let (val, _c) = match crate::rlp::decode_string_at(&items[16], 0) {
            Err(e) => {
                return Err(e);
            },
            Ok(v) => v,
        };
        Ok(TrieNode::Branch { children, value: val })
    } else {
        Err(RlpError::UnexpectedShape)
    }
}

/// Why a proof failed to verify.
#[derive(Clone, Copy, Debug, PartialEq, Eq, Structural)]
pub enum ProofError {
    /// A node's Keccak-256 does not match the hash that refers to it.
    NodeHashMismatch,
    /// An inclusion proof's path diverges from the key.
    PathMismatch,
    /// A node is valid RLP but not a leaf, extension or branch.
    UnexpectedNodeShape,
    /// A node is not valid RLP.
    RlpDecode,
    /// The node list ends before the walk does.
    ProofIncomplete,
    /// The terminal binding for the key is not the expected value.
    ValueMismatch,
    /// Nodes remain after the walk has terminated.
    TrailingNodes,
}

/// The root hash of the empty trie: the Keccak-256 of the RLP empty string.
pub open spec fn empty_root_spec() -> Seq<u8> {
    seq![
        0x56u8, 0xe8, 0x1f, 0x17, 0x1b, 0xcc, 0x55, 0xa6, 0xff, 0x83, 0x45, 0xe6, 0x92, 0xc0,
        0xf8, 0x6e, 0x5b, 0x48, 0xe0, 0x1b, 0x99, 0x6c, 0xad, 0xc0, 0x01, 0x62, 0x2f, 0xb5, 0xe3,
        0x63, 0xb4, 0x21,
    ]
}

/// The root hash of the empty trie, as bytes.
pub fn empty_root() -> (r: Vec<u8>)
    ensures
        r@ == empty_root_spec(),
{
    let mut r: Vec<u8> = Vec::new();
    r.push(0x56);
    r.push(0xe8);
    r.push(0x1f);
    r.push(0x17);
    r.push(0x1b);
    r.push(0xcc);
    r.push(0x55);
    r.push(0xa6);
    r.push(0xff);
    r.push(0x83);
    r.push(0x45);
    r.push(0xe6);
    r.push(0x92);
    r.push(0xc0);
    r.push(0xf8);
    r.push(0x6e);
    r.push(0x5b);
    r.push(0x48);
    r.push(0xe0);
    r.push(0x1b);
    r.push(0x99);
    r.push(0x6c);
    r.push(0xad);
    r.push(0xc0);
    r.push(0x01);
    r.push(0x62);
    r.push(0x2f);
    r.push(0xb5);
    r.push(0xe3);
    r.push(0x63);
    r.push(0xb4);
    r.push(0x21);
    proof {
        assert(r@ =~= empty_root_spec());
    }
    r
}

/// The content of an optional byte vector.
pub open spec fn opt_view(o: Option<Vec<u8>>) -> Option<Seq<u8>> {
    match o {
        Some(v) => Some(v@),
        None => None,
    }
}

/// The walk has terminated at node `i`: it must be the last one.
pub open spec fn spec_terminate(i: int, nodes: Seq<Seq<u8>>) -> Result<(), ProofError> {
    if i + 1 == nodes.len() {
        Ok(())
    } else {
        Err(ProofError::TrailingNodes)
    }
}

/// How a node decode failure reads as a proof failure.
pub open spec fn node_decode_err(e: RlpError) -> ProofError {
    if e is UnexpectedShape {
        ProofError::UnexpectedNodeShape
    } else {
        ProofError::RlpDecode
    }
}

/// Walk step at a hash reference: node `i` must hash to `target`, and the
/// walk continues inside it.
pub open spec fn spec_walk_hash(
    target: Seq<u8>,
    key: Seq<u8>,
    cursor: int,
    expected: Option<Seq<u8>>,
    nodes: Seq<Seq<u8>>,
    i: int,
) -> Result<(), ProofError>
    decreases nodes.len() - i, 1int, 0int, 0int,
{
    if i < 0 || i >= nodes.len() {
        Err(ProofError::ProofIncomplete)
    } else if crate::hash::keccak256_of(nodes[i]) != target {
        Err(ProofError::NodeHashMismatch)
    } else {
        spec_walk_node(nodes[i], key, cursor, expected, nodes, i)
    }
}

/// Walk step inside the node encoded as `nb`, which is `nodes[i]` or a
/// node inlined within it.
pub open spec fn spec_walk_node(
    nb: Seq<u8>,
    key: Seq<u8>,
    cursor: int,
    expected: Option<Seq<u8>>,
    nodes: Seq<Seq<u8>>,
    i: int,
) -> Result<(), ProofError>
    decreases nodes.len() - i, 0int, nb.len(), 1int,
{
    if i < 0 || i >= nodes.len() {
        Err(ProofError::ProofIncomplete)
    } else {
        match spec_decode_node(nb) {
            Err(e) => Err(node_decode_err(e)),
            Ok(node) => match node {
                NodeModel::Leaf { path, value } => {
                    if path == key.skip(cursor) {
                        match expected {
                            Some(v) => if value == v {
                                spec_terminate(i, nodes)
                            } else {
                                Err(ProofError::ValueMismatch)
                            },
                            None => Err(ProofError::ValueMismatch),
                        }
                    } else {
                        match expected {
                            None => spec_terminate(i, nodes),
                            Some(_) => Err(ProofError::PathMismatch),
                        }
                    }
                },
                NodeModel::Extension { path, child } => {
                    let tail = key.skip(cursor);
                    if path.len() <= tail.len() && tail.take(path.len() as int) == path {
                        spec_walk_child(
                            child,
                            key,
                            cursor + path.len(),
                            expected,
                            nodes,
                            i,
                            nb.len() as int,
                        )
                    } else {
                        match expected {
                            None => spec_terminate(i, nodes),
                            Some(_) => Err(ProofError::PathMismatch),
                        }
                    }
                },
                NodeModel::Branch { children, value } => {
                    if cursor == key.len() {
                        match expected {
                            Some(v) => if value == v {
                                spec_terminate(i, nodes)
                            } else {
                                Err(ProofError::ValueMismatch)
                            },
                            None => if value.len() == 0 {
                                spec_terminate(i, nodes)
                            } else {
                                Err(ProofError::ValueMismatch)
                            },
                        }
                    } else {
                        if 0 <= cursor < key.len() && key[cursor] < 16 && children.len() == 16 {
                            spec_walk_child(
                                children[key[cursor] as int],
                                key,
                                cursor + 1,
                                expected,
                                nodes,
                                i,
                                nb.len() as int,
                            )
                        } else {
                            Err(ProofError::UnexpectedNodeShape)
                        }
                    }
                },
            },
        }
    }
}

/// Walk step at a child slot of the node encoded in `parent_len` bytes: an
/// empty slot witnesses exclusion, a hash sends the walk to the next listed
/// node, and an inline child is walked in place.
pub open spec fn spec_walk_child(
    child: ChildModel,
    key: Seq<u8>,
    cursor: int,
    expected: Option<Seq<u8>>,
    nodes: Seq<Seq<u8>>,
    i: int,
    parent_len: int,
) -> Result<(), ProofError>
    decreases nodes.len() - i, 0int, parent_len, 0int,
{
    if i < 0 || i >= nodes.len() {
        Err(ProofError::ProofIncomplete)
    } else {
        match child {
            ChildModel::Empty => match expected {
                None => spec_terminate(i, nodes),
                Some(_) => Err(ProofError::ValueMismatch),
            },
            ChildModel::Hash(h) => spec_walk_hash(h, key, cursor, expected, nodes, i + 1),
            ChildModel::Inline(raw) => if raw.len() < parent_len {
                spec_walk_node(raw, key, cursor, expected, nodes, i)
            } else {
                Err(ProofError::UnexpectedNodeShape)
            },
        }
    }
}

/// Verify a Merkle-Patricia proof: the listed nodes, read in order from
/// `root`, must walk `key` down to a binding equal to `expected` —
/// `Some` for inclusion of that value, `None` for exclusion. An empty trie
/// admits only exclusion proofs over an empty node list.
pub open spec fn spec_verify_proof(
    root: Seq<u8>,
    key: Seq<u8>,
    expected: Option<Seq<u8>>,
    nodes: Seq<Seq<u8>>,
) -> Result<(), ProofError> {
    if nodes.len() == 0 {
        if expected is None && root == empty_root_spec() {
            Ok(())
        } else {
            Err(ProofError::ProofIncomplete)
        }
    } else {
        spec_walk_hash(root, key, 0, expected, nodes, 0)
    }
}

/// Whether `path` equals the rest of the key from `cursor` on.
fn suffix_eq(key: &Vec<u8>, cursor: usize, path: &Vec<u8>) -> (r: bool)
    requires
        cursor <= key@.len(),
    ensures
        r <==> path@ == key@.skip(cursor as int),
{
    let n = key.len();
    if path.len() != n - cursor {
        proof {
            assert(path@.len() != key@.skip(cursor as int).len());
        }
        return false;
    }
    let m = path.len();
    let mut j: usize = 0;
    while j < m
        invariant
            j <= m,
            m == path@.len(),
            n == key@.len(),
            cursor + m <= n,
            forall|k: int| 0 <= k < j ==> path@[k] == key@[cursor + k],
        decreases m - j,
    {
        if path[j] != key[cursor + j] {
            proof {
                assert(path@[j as int] != key@.skip(cursor as int)[j as int]);
            }
            return false;
        }
        j = j + 1;
    }
    proof {
        assert(path@ =~= key@.skip(cursor as int));
    }
    true
}

/// Whether `path` is a prefix of the rest of the key from `cursor` on.
fn prefix_eq(key: &Vec<u8>, cursor: usize, path: &Vec<u8>) -> (r: bool)
    requires
        cursor <= key@.len(),
    ensures
        r <==> (path@.len() <= key@.len() - cursor && key@.skip(cursor as int).take(
            path@.len() as int,
        ) == path@),
{
    let n = key.len();
    if path.len() > n - cursor {
        return false;
    }
    let m = path.len();
    let mut j: usize = 0;
    while j < m
        invariant
            j <= m,
            m == path@.len(),
            n == key@.len(),
            cursor + m <= n,
            forall|k: int| 0 <= k < j ==> path@[k] == key@[cursor + k],
        decreases m - j,
    {
        if path[j] != key[cursor + j] {
            proof {
                assert(key@.skip(cursor as int).take(m as int)[j as int] != path@[j as int]);
            }
            return false;
        }
        j = j + 1;
    }
    proof {
        assert(key@.skip(cursor as int).take(m as int) =~= path@);
    }
    true
}

/// Whether the walk may stop at node `i`: it must be the last one.
fn terminate(i: usize, nodes: &Vec<Vec<u8>>) -> (r: Result<(), ProofError>)
    requires
        i < nodes@.len(),
    ensures
        r == spec_terminate(i as int, views_of(nodes@)),
{
    let n = nodes.len();
    if i + 1 == n {
        Ok(())
    } else {
        Err(ProofError::TrailingNodes)
    }
}

/// Walk step at a hash reference: node `i` must hash to `target`.
fn walk_hash(
    target: &Vec<u8>,
    key: &Vec<u8>,
    cursor: usize,
    expected: &Option<Vec<u8>>,
    nodes: &Vec<Vec<u8>>,
    i: usize,
) -> (r: Result<(), ProofError>)
    requires
        cursor <= key@.len(),
        forall|k: int| 0 <= k < key@.len() ==> key@[k] < 16,
    ensures
        r == spec_walk_hash(
            target@,
            key@,
            cursor as int,
            opt_view(*expected),
            views_of(nodes@),
            i as int,
        ),
    decreases nodes@.len() - i, 1int, 0int, 0int,
{
    if i >= nodes.len() {
        return Err(ProofError::ProofIncomplete);
    }
    let h = crate::hash::keccak256(&nodes[i]);
    if !crate::bytes::bytes_eq(&h, target) {
        return Err(ProofError::NodeHashMismatch);
    }
    walk_node(&nodes[i], key, cursor, expected, nodes, i)
}

/// Walk step inside the node encoded as `nb`.
fn walk_node(
    nb: &Vec<u8>,
    key: &Vec<u8>,
    cursor: usize,
    expected: &Option<Vec<u8>>,
    nodes: &Vec<Vec<u8>>,
    i: usize,
) -> (r: Result<(), ProofError>)
    requires
        cursor <= key@.len(),
        forall|k: int| 0 <= k < key@.len() ==> key@[k] < 16,
        i < nodes@.len(),
    ensures
        r == spec_walk_node(
            nb@,
            key@,
            cursor as int,
            opt_view(*expected),
            views_of(nodes@),
            i as int,
        ),
    decreases nodes@.len() - i, 0int, nb@.len(), 1int,
{
    let kn = key.len();
    let node = match decode_node(nb) {
        Err(e) => {
            return Err(
                if matches!(e, RlpError::UnexpectedShape) {
                    ProofError::UnexpectedNodeShape
                } else {
                    ProofError::RlpDecode
                },
            );
        },
        Ok(n) => n,
    };
    match node {
        TrieNode::Leaf { path, value } => {
            if suffix_eq(key, cursor, &path) {
                match expected {
                    Some(v) => {
                        if crate::bytes::bytes_eq(&value, v) {
                            terminate(i, nodes)
                        } else {
                            Err(ProofError::ValueMismatch)
                        }
                    },
                    None => Err(ProofError::ValueMismatch),
                }
            } else {
                match expected {
                    None => terminate(i, nodes),
                    Some(_) => Err(ProofError::PathMismatch),
                }
            }
        },
        TrieNode::Extension { path, child } => {
            if prefix_eq(key, cursor, &path) {
                walk_child(&child, key, cursor + path.len(), expected, nodes, i, nb.len())
            } else {
                match expected {
                    None => terminate(i, nodes),
                    Some(_) => Err(ProofError::PathMismatch),
                }
            }
        },
        TrieNode::Branch { children, value } => {
            if cursor == key.len() {
                match expected {
                    Some(v) => {
                        if crate::bytes::bytes_eq(&value, v) {
                            terminate(i, nodes)
                        } else {
                            Err(ProofError::ValueMismatch)
                        }
                    },
                    None => {
                        if value.len() == 0 {
                            terminate(i, nodes)
                        } else {
                            Err(ProofError::ValueMismatch)
                        }
                    },
                }
            } else {
                let nib = key[cursor];
                if nib < 16 && children.len() == 16 {
                    walk_child(&children[nib as usize], key, cursor + 1, expected, nodes, i,
                    nb.len())
                } else {
                    Err(ProofError::UnexpectedNodeShape)
                }
            }
        },
    }
}

/// Walk step at a child slot of a node encoded in `parent_len` bytes.
fn walk_child(
    child: &Child,
    key: &Vec<u8>,
    cursor: usize,
    expected: &Option<Vec<u8>>,
    nodes: &Vec<Vec<u8>>,
    i: usize,
    parent_len: usize,
) -> (r: Result<(), ProofError>)
    requires
        cursor <= key@.len(),
        forall|k: int| 0 <= k < key@.len() ==> key@[k] < 16,
        i < nodes@.len(),
    ensures
        r == spec_walk_child(
            child@,
            key@,
            cursor as int,
            opt_view(*expected),
            views_of(nodes@),
            i as int,
            parent_len as int,
        ),
    decreases nodes@.len() - i, 0int, parent_len, 0int,
{
    let n = nodes.len();
    match child {
        Child::Empty => match expected {
            None => terminate(i, nodes),
            Some(_) => Err(ProofError::ValueMismatch),
        },
        Child::Hash(h) => walk_hash(h, key, cursor, expected, nodes, i + 1),
        Child::Inline(raw) => {
            if raw.len() < parent_len {
                walk_node(raw, key, cursor, expected, nodes, i)
            } else {
                Err(ProofError::UnexpectedNodeShape)
            }
        },
    }
}

/// Verify a Merkle-Patricia proof: the listed nodes, read in order from
/// `root`, must walk `key` down to a binding equal to `expected` —
/// `Some` for inclusion of that value, `None` for exclusion.
pub fn verify_proof(
    root: &Vec<u8>,
    key: &Vec<u8>,
    expected: &Option<Vec<u8>>,
    nodes: &Vec<Vec<u8>>,
) -> (r: Result<(), ProofError>)
    requires
        forall|k: int| 0 <= k < key@.len() ==> key@[k] < 16,
    ensures
        r == spec_verify_proof(root@, key@, opt_view(*expected), views_of(nodes@)),
{
    if nodes.len() == 0 {
        let e = empty_root();
        if expected.is_none() && crate::bytes::bytes_eq(root, &e) {
            Ok(())
        } else {
            Err(ProofError::ProofIncomplete)
        }
    } else {
        walk_hash(root, key, 0, expected, nodes, 0)
    }
}

} // verus!
