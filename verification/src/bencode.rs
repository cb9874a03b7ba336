//! Bencoded values.
use bip_bencode::{BDecodeOpt, BRefAccess, BencodeRef, BencodeRefKind};
use crate::wire::{copy_range, same_bytes};
use vstd::prelude::*;
use vstd::utf8::{decode_utf8, encode_utf8, valid_utf8};

verus! {

/// A bencoded value, with the bytes that it was decoded from.
#[derive(Debug)]
pub enum Bencode {
    Int(i64, Vec<u8>),
    Bytes(Vec<u8>, Vec<u8>),
    List(Vec<Bencode>, Vec<u8>),
    Dict(Vec<DictEntry>, Vec<u8>),
}

/// A key of a dictionary and its value.
#[derive(Debug)]
pub struct DictEntry {
    pub key: Vec<u8>,
    pub value: Bencode,
}

/// What a `Bencode` says.
pub enum BencodeTree {
    Int(i64, Seq<u8>),
    Bytes(Seq<u8>, Seq<u8>),
    List(Seq<BencodeTree>, Seq<u8>),
    Dict(Seq<(Seq<u8>, BencodeTree)>, Seq<u8>),
}

impl View for Bencode {
    type V = BencodeTree;

    open spec fn view(&self) -> BencodeTree
        decreases self,
    {
        match self {
            Bencode::Int(n, raw) => BencodeTree::Int(*n, raw@),
            Bencode::Bytes(bytes, raw) => BencodeTree::Bytes(bytes@, raw@),
            Bencode::List(items, raw) => BencodeTree::List(
                Seq::new(items@.len(), |i: int| if 0 <= i < items@.len() {
                    items@[i].view()
                } else {
                    arbitrary()
                }),
                raw@,
            ),
            Bencode::Dict(entries, raw) => BencodeTree::Dict(
                Seq::new(entries@.len(), |i: int| if 0 <= i < entries@.len() {
                    (entries@[i].key@, entries@[i].value.view())
                } else {
                    arbitrary()
                }),
                raw@,
            ),
        }
    }
}

/// A bencoded value of which the values inside it are still bytes.
pub enum BencodeNode {
    Int(i64),
    Bytes(Vec<u8>),
    List(Vec<Vec<u8>>),
    Dict(Vec<(Vec<u8>, Vec<u8>)>),
}

/// What a `BencodeNode` says.
pub enum NodeView {
    Int(i64),
    Bytes(Seq<u8>),
    List(Seq<Seq<u8>>),
    Dict(Seq<(Seq<u8>, Seq<u8>)>),
}

impl View for BencodeNode {
    type V = NodeView;

    open spec fn view(&self) -> NodeView {
        match self {
            BencodeNode::Int(n) => NodeView::Int(*n),
            BencodeNode::Bytes(bytes) => NodeView::Bytes(bytes@),
            BencodeNode::List(items) => NodeView::List(
                Seq::new(items@.len(), |i: int| items@[i]@),
            ),
            BencodeNode::Dict(entries) => NodeView::Dict(
                Seq::new(entries@.len(), |i: int| (entries@[i].0@, entries@[i].1@)),
            ),
        }
    }
}

/// Whether every value inside the node takes fewer than `n` bytes.
pub open spec fn parts_are_shorter(node: NodeView, n: nat) -> bool {
    match node {
        NodeView::List(items) => forall|i: int|
            0 <= i < items.len() ==> #[trigger] items[i].len() < n,
        NodeView::Dict(entries) => forall|i: int|
            0 <= i < entries.len() ==> #[trigger] entries[i].1.len() < n,
        _ => true,
    }
}

/// What the crate `bip_bencode` decodes `bytes` to, or what it says is wrong with them. Of the
/// values inside a list or a dictionary it gives the bytes.
pub uninterp spec fn bencode_node(bytes: Seq<u8>) -> Result<NodeView, Seq<char>>;

/// `bip_bencode::BencodeRef::decode` with the default options: what it finds, or its error in
/// words, is a function of the bytes alone. What lies inside a list or a dictionary is given by
/// the bytes that it was decoded from; they are fewer than those of the whole, which has
/// delimiters around them.
#[verifier::external_body]
fn decode_node(bytes: &[u8]) -> (r: Result<BencodeNode, String>)
    ensures
        match r {
            Ok(node) => bencode_node(bytes@) == Ok::<NodeView, Seq<char>>(node@)
                && parts_are_shorter(node@, bytes@.len()),
            Err(text) => bencode_node(bytes@) == Err::<NodeView, Seq<char>>(text@),
        },
{
    let tree = BencodeRef::decode(bytes, BDecodeOpt::default()).map_err(|e| e.to_string())?;
    Ok(match tree.kind() {
        BencodeRefKind::Int(n) => BencodeNode::Int(n),
        BencodeRefKind::Bytes(s) => BencodeNode::Bytes(s.to_vec()),
        BencodeRefKind::List(items) => BencodeNode::List(
            items.into_iter().map(|x| x.buffer().to_vec()).collect(),
        ),
        BencodeRefKind::Dict(d) => BencodeNode::Dict(
            d.to_list().into_iter().map(|(k, v)| (k.to_vec(), v.buffer().to_vec())).collect(),
        ),
    })
}

/// The tree that `bytes` is decoded to, or what is wrong with them.
pub open spec fn bencode_tree(bytes: Seq<u8>) -> Result<BencodeTree, Seq<char>>
    decreases bytes.len(), 1nat, 0nat,
{
    match bencode_node(bytes) {
        Err(text) => Err(text),
        Ok(NodeView::Int(n)) => Ok(BencodeTree::Int(n, bytes)),
        Ok(NodeView::Bytes(s)) => Ok(BencodeTree::Bytes(s, bytes)),
        Ok(NodeView::List(items)) => match item_trees(items, bytes.len()) {
            Ok(trees) => Ok(BencodeTree::List(trees, bytes)),
            Err(text) => Err(text),
        },
        Ok(NodeView::Dict(entries)) => match entry_trees(entries, bytes.len()) {
            Ok(trees) => Ok(BencodeTree::Dict(trees, bytes)),
            Err(text) => Err(text),
        },
    }
}

/// The trees of the items of a list, each of fewer than `bound` bytes, or the first error.
pub open spec fn item_trees(items: Seq<Seq<u8>>, bound: nat) -> Result<Seq<BencodeTree>, Seq<char>>
    decreases bound, 0nat, items.len(),
{
    if items.len() == 0 {
        Ok(Seq::empty())
    } else {
        match item_trees(items.drop_last(), bound) {
            Err(text) => Err(text),
            Ok(trees) => if items.last().len() < bound {
                match bencode_tree(items.last()) {
                    Err(text) => Err(text),
                    Ok(tree) => Ok(trees.push(tree)),
                }
            } else {
                Err(Seq::empty())
            },
        }
    }
}

/// The keys and trees of the entries of a dictionary, each of fewer than `bound` bytes, or the
/// first error.
pub open spec fn entry_trees(entries: Seq<(Seq<u8>, Seq<u8>)>, bound: nat) -> Result<
    Seq<(Seq<u8>, BencodeTree)>,
    Seq<char>,
>
    decreases bound, 0nat, entries.len(),
{
    if entries.len() == 0 {
        Ok(Seq::empty())
    } else {
        match entry_trees(entries.drop_last(), bound) {
            Err(text) => Err(text),
            Ok(trees) => if entries.last().1.len() < bound {
                match bencode_tree(entries.last().1) {
                    Err(text) => Err(text),
                    Ok(tree) => Ok(trees.push((entries.last().0, tree))),
                }
            } else {
                Err(Seq::empty())
            },
        }
    }
}

/// Once an item is wrong, every longer list is wrong in the same way.
proof fn lemma_item_error_stays(items: Seq<Seq<u8>>, k: int, bound: nat)
    requires
        0 <= k <= items.len(),
        item_trees(items.take(k), bound) is Err,
    ensures
        item_trees(items, bound) == item_trees(items.take(k), bound),
    decreases items.len() - k,
{
    if k < items.len() {
        assert(items.take(k + 1).drop_last() =~= items.take(k));
        lemma_item_error_stays(items, k + 1, bound);
    } else {
        assert(items.take(k) =~= items);
    }
}

/// Once an entry is wrong, every longer dictionary is wrong in the same way.
proof fn lemma_entry_error_stays(entries: Seq<(Seq<u8>, Seq<u8>)>, k: int, bound: nat)
    requires
        0 <= k <= entries.len(),
        entry_trees(entries.take(k), bound) is Err,
    ensures
        entry_trees(entries, bound) == entry_trees(entries.take(k), bound),
    decreases entries.len() - k,
{
    if k < entries.len() {
        assert(entries.take(k + 1).drop_last() =~= entries.take(k));
        lemma_entry_error_stays(entries, k + 1, bound);
    } else {
        assert(entries.take(k) =~= entries);
    }
}

/// The views of some values.
pub open spec fn trees_of(items: Seq<Bencode>) -> Seq<BencodeTree> {
    Seq::new(items.len(), |i: int| items[i]@)
}

/// The views of some dictionary entries.
pub open spec fn entries_of(entries: Seq<DictEntry>) -> Seq<(Seq<u8>, BencodeTree)> {
    Seq::new(entries.len(), |i: int| (entries[i].key@, entries[i].value@))
}

/// The integer that a tree is, if it is one.
pub open spec fn tree_int(tree: BencodeTree) -> Option<i64> {
    match tree {
        BencodeTree::Int(n, _) => Some(n),
        _ => None,
    }
}

/// The integer that a tree is, if it is one that thirty-two bits without a sign hold.
pub open spec fn tree_u32(tree: BencodeTree) -> Option<u32> {
    match tree {
        BencodeTree::Int(n, _) => if 0 <= n <= u32::MAX {
            Some(n as u32)
        } else {
            None
        },
        _ => None,
    }
}

/// The byte string that a tree is, if it is one.
pub open spec fn tree_bytes(tree: BencodeTree) -> Option<Seq<u8>> {
    match tree {
        BencodeTree::Bytes(bytes, _) => Some(bytes),
        _ => None,
    }
}

/// The text that a tree is, if it is a byte string in UTF-8.
pub open spec fn tree_str(tree: BencodeTree) -> Option<Seq<char>> {
    match tree {
        BencodeTree::Bytes(bytes, _) => if valid_utf8(bytes) {
            Some(decode_utf8(bytes))
        } else {
            None
        },
        _ => None,
    }
}

/// The items of a tree, if it is a list.
pub open spec fn tree_list(tree: BencodeTree) -> Option<Seq<BencodeTree>> {
    match tree {
        BencodeTree::List(items, _) => Some(items),
        _ => None,
    }
}

/// The entries of a tree, if it is a dictionary.
pub open spec fn tree_dict(tree: BencodeTree) -> Option<Seq<(Seq<u8>, BencodeTree)>> {
    match tree {
        BencodeTree::Dict(entries, _) => Some(entries),
        _ => None,
    }
}

/// The bytes that a tree was decoded from.
pub open spec fn tree_raw(tree: BencodeTree) -> Seq<u8> {
    match tree {
        BencodeTree::Int(_, raw) => raw,
        BencodeTree::Bytes(_, raw) => raw,
        BencodeTree::List(_, raw) => raw,
        BencodeTree::Dict(_, raw) => raw,
    }
}

/// The value of the first entry whose key is `key` in UTF-8.
pub open spec fn tree_lookup(entries: Seq<(Seq<u8>, BencodeTree)>, key: Seq<char>) -> Option<
    BencodeTree,
>
    decreases entries.len(),
{
    if entries.len() == 0 {
        None
    } else if entries[0].0 == encode_utf8(key) {
        Some(entries[0].1)
    } else {
        tree_lookup(entries.drop_first(), key)
    }
}

/// The error of `core::str::from_utf8`.
#[verifier::external_type_specification]
#[verifier::external_body]
pub struct ExUtf8Error(core::str::Utf8Error);

/// `core::str::from_utf8`: succeeds on UTF-8 and on nothing else, and gives the text that the
/// bytes encode.
pub assume_specification<'a>[ core::str::from_utf8 ](v: &'a [u8]) -> (r: Result<
    &'a str,
    core::str::Utf8Error,
>)
    ensures
        r is Ok <==> valid_utf8(v@),
        r matches Ok(s) ==> s@ == decode_utf8(v@),
;

/// A list says what its items say.
proof fn lemma_list_view(items: Vec<Bencode>, raw: Vec<u8>)
    ensures
        Bencode::List(items, raw)@ == BencodeTree::List(trees_of(items@), raw@),
{
    reveal_with_fuel(<Bencode as View>::view, 2);
    let b = Bencode::List(items, raw);
    assert(b@->List_0 =~= trees_of(items@));
}

/// A dictionary says what its entries say.
proof fn lemma_dict_view(entries: Vec<DictEntry>, raw: Vec<u8>)
    ensures
        Bencode::Dict(entries, raw)@ == BencodeTree::Dict(entries_of(entries@), raw@),
{
    reveal_with_fuel(<Bencode as View>::view, 2);
    let b = Bencode::Dict(entries, raw);
    assert(b@->Dict_0 =~= entries_of(entries@));
}

impl Bencode {
    /// Decodes `bytes`, all of them, as one bencoded value.
    pub fn decode(bytes: &[u8]) -> (r: Result<Bencode, String>)
        ensures
            match r {
                Ok(b) => bencode_tree(bytes@) == Ok::<BencodeTree, Seq<char>>(b@),
                Err(text) => bencode_tree(bytes@) == Err::<BencodeTree, Seq<char>>(text@),
            },
        decreases bytes@.len(),
    {
        let raw: Vec<u8> = copy_range(bytes, 0, bytes.len());
        assert(raw@ =~= bytes@);
        let ghost bound = bytes@.len();
        match decode_node(bytes) {
            Err(text) => Err(text),
            Ok(BencodeNode::Int(n)) => Ok(Bencode::Int(n, raw)),
            Ok(BencodeNode::Bytes(s)) => Ok(Bencode::Bytes(s, raw)),
            Ok(BencodeNode::List(parts)) => {
                let ghost items = Seq::new(parts@.len(), |i: int| parts@[i]@);
                assert(bencode_node(bytes@) == Ok::<NodeView, Seq<char>>(NodeView::List(items)));
                let n: usize = parts.len();
                let mut list: Vec<Bencode> = Vec::new();
                assert(trees_of(list@) =~= Seq::<BencodeTree>::empty());
                let mut i: usize = 0;
                while i < n
                    invariant
                        i <= n == parts@.len() == items.len(),
                        bound == bytes@.len(),
                        items == Seq::new(parts@.len(), |i: int| parts@[i]@),
                        bencode_node(bytes@) == Ok::<NodeView, Seq<char>>(NodeView::List(items)),
                        parts_are_shorter(NodeView::List(items), bound),
                        item_trees(items.take(i as int), bound) == Ok::<
                            Seq<BencodeTree>,
                            Seq<char>,
                        >(trees_of(list@)),
                    decreases n - i,
                {
                    assert(items[i as int].len() < bound);
                    let ghost next = items.take(i + 1);
                    assert(next.drop_last() =~= items.take(i as int));
                    assert(next.last() == items[i as int]);
                    match Bencode::decode(parts[i].as_slice()) {
                        Err(text) => {
                            proof {
                                lemma_item_error_stays(items, i + 1, bound);
                            }
                            return Err(text);
                        },
                        Ok(item) => {
                            let ghost before = trees_of(list@);
                            list.push(item);
                            assert(trees_of(list@) =~= before.push(item@));
                        },
                    }
                    i = i + 1;
                }
                assert(items.take(n as int) =~= items);
                proof {
                    lemma_list_view(list, raw);
                }
                Ok(Bencode::List(list, raw))
            },
            Ok(BencodeNode::Dict(parts)) => {
                let ghost entries = Seq::new(parts@.len(), |i: int| (parts@[i].0@, parts@[i].1@));
                assert(bencode_node(bytes@) == Ok::<NodeView, Seq<char>>(NodeView::Dict(entries)));
                let n: usize = parts.len();
                let mut dict: Vec<DictEntry> = Vec::new();
                assert(entries_of(dict@) =~= Seq::<(Seq<u8>, BencodeTree)>::empty());
                let mut i: usize = 0;
                while i < n
                    invariant
                        i <= n == parts@.len() == entries.len(),
                        bound == bytes@.len(),
                        entries == Seq::new(parts@.len(), |i: int| (parts@[i].0@, parts@[i].1@)),
                        bencode_node(bytes@) == Ok::<NodeView, Seq<char>>(NodeView::Dict(entries)),
                        parts_are_shorter(NodeView::Dict(entries), bound),
                        entry_trees(entries.take(i as int), bound) == Ok::<
                            Seq<(Seq<u8>, BencodeTree)>,
                            Seq<char>,
                        >(entries_of(dict@)),
                    decreases n - i,
                {
                    assert(entries[i as int].1.len() < bound);
                    let ghost next = entries.take(i + 1);
                    assert(next.drop_last() =~= entries.take(i as int));
                    assert(next.last() == entries[i as int]);
                    match Bencode::decode(parts[i].1.as_slice()) {
                        Err(text) => {
                            proof {
                                lemma_entry_error_stays(entries, i + 1, bound);
                            }
                            return Err(text);
                        },
                        Ok(value) => {
                            let ghost before = entries_of(dict@);
                            let key: Vec<u8> = copy_range(
                                parts[i].0.as_slice(),
                                0,
                                parts[i].0.len(),
                            );
                            assert(key@ =~= parts@[i as int].0@);
                            dict.push(DictEntry { key, value });
                            assert(entries_of(dict@) =~= before.push((key@, value@)));
                        },
                    }
                    i = i + 1;
                }
                assert(entries.take(n as int) =~= entries);
                proof {
                    lemma_dict_view(dict, raw);
                }
                Ok(Bencode::Dict(dict, raw))
            },
        }
    }

    /// The integer that the value is, if it is one.
    pub fn as_int(&self) -> (r: Option<i64>)
        ensures
            r == tree_int(self@),
    {
        match self {
            Bencode::Int(n, _) => Some(*n),
            _ => None,
        }
    }

    /// The integer that the value is, if it is one that a `u32` holds.
    pub fn as_u32(&self) -> (r: Option<u32>)
        ensures
            r == tree_u32(self@),
    {
        match self {
            Bencode::Int(n, _) => if 0 <= *n && *n <= u32::MAX as i64 {
                Some(*n as u32)
            } else {
                None
            },
            _ => None,
        }
    }

    /// The byte string that the value is, if it is one.
    pub fn as_bytes(&self) -> (r: Option<&Vec<u8>>)
        ensures
            match r {
                Some(bytes) => tree_bytes(self@) == Some(bytes@),
                None => tree_bytes(self@) is None,
            },
    {
        match self {
            Bencode::Bytes(bytes, _) => Some(bytes),
            _ => None,
        }
    }

    /// The text that the value is, if it is a byte string in UTF-8.
    pub fn as_str(&self) -> (r: Option<String>)
        ensures
            match r {
                Some(text) => tree_str(self@) == Some(text@),
                None => tree_str(self@) is None,
            },
    {
        match self {
            Bencode::Bytes(bytes, _) => match core::str::from_utf8(bytes.as_slice()) {
                Ok(text) => Some(text.to_owned()),
                Err(_) => None,
            },
            _ => None,
        }
    }

    /// The items of the value, if it is a list.
    pub fn as_list(&self) -> (r: Option<&Vec<Bencode>>)
        ensures
            match r {
                Some(items) => tree_list(self@) == Some(trees_of(items@)),
                None => tree_list(self@) is None,
            },
    {
        match self {
            Bencode::List(items, _) => {
                proof {
                    lemma_list_view(*items, self->List_1);
                }
                Some(items)
            },
            _ => None,
        }
    }

    /// The entries of the value, if it is a dictionary.
    pub fn as_dict(&self) -> (r: Option<&Vec<DictEntry>>)
        ensures
            match r {
                Some(entries) => tree_dict(self@) == Some(entries_of(entries@)),
                None => tree_dict(self@) is None,
            },
    {
        match self {
            Bencode::Dict(entries, _) => {
                proof {
                    lemma_dict_view(*entries, self->Dict_1);
                }
                Some(entries)
            },
            _ => None,
        }
    }

    /// The bytes that the value was decoded from.
    pub fn buffer(&self) -> (r: &Vec<u8>)
        ensures
            r@ == tree_raw(self@),
    {
        match self {
            Bencode::Int(_, raw) => raw,
            Bencode::Bytes(_, raw) => raw,
            Bencode::List(_, raw) => raw,
            Bencode::Dict(_, raw) => raw,
        }
    }
}

/// The value of the first entry whose key is `key`.
pub fn lookup<'a>(entries: &'a Vec<DictEntry>, key: &str) -> (r: Option<&'a Bencode>)
    ensures
        match r {
            Some(value) => tree_lookup(entries_of(entries@), key@) == Some(value@),
            None => tree_lookup(entries_of(entries@), key@) is None,
        },
{
    let n: usize = entries.len();
    let mut i: usize = 0;
    let ghost all = entries_of(entries@);
    assert(all.skip(0) =~= all);
    while i < n
        invariant
            i <= n == entries@.len() == all.len(),
            all == entries_of(entries@),
            tree_lookup(all, key@) == tree_lookup(all.skip(i as int), key@),
        decreases n - i,
    {
        assert(all.skip(i as int)[0] == all[i as int]);
        assert(all.skip(i as int).drop_first() =~= all.skip(i + 1));
        if same_bytes(entries[i].key.as_slice(), key.as_bytes()) {
            return Some(&entries[i].value);
        }
        i = i + 1;
    }
    None
}

} // verus!
