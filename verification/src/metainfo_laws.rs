//! What is taken from torrent files, entry by entry.
use crate::bencode::{
    bencode_node, bencode_tree, entries_of, entry_trees, item_trees, tree_dict, tree_int, tree_list,
    tree_lookup, tree_raw, tree_str, tree_u32, trees_of, Bencode, BencodeTree, DictEntry, NodeView,
};
use crate::bytes::sha1_digest;
use crate::metainfo::{
    all_str, dict_bytes, dict_dict, dict_int, dict_list, dict_str, dict_u32, digests_of,
    is_metainfo_result, listed_file, parse_metainfo, runs_of_20, Entries, File, FileView, MetaInfo,
    MetaInfoError, MetaInfoView,
};
use vstd::prelude::*;
use vstd::utf8::{decode_utf8, encode_utf8, valid_utf8};

verus! {

/// Whether `value` is the first value under `key`.
pub open spec fn is_under(entries: Entries, key: Seq<char>, value: BencodeTree) -> bool {
    exists|i: int|
        0 <= i < entries.len() && (#[trigger] entries[i]).0 == encode_utf8(key) && entries[i].1
            == value && forall|j: int| 0 <= j < i ==> (#[trigger] entries[j]).0 != encode_utf8(key)
}

/// A value is found under a key exactly when the key is there, and it is the first one under it.
pub proof fn law_lookup_finds_the_first(entries: Entries, key: Seq<char>, value: BencodeTree)
    ensures
        tree_lookup(entries, key) == Some(value) <==> is_under(entries, key, value),
        tree_lookup(entries, key) is None <==> forall|i: int|
            0 <= i < entries.len() ==> (#[trigger] entries[i]).0 != encode_utf8(key),
    decreases entries.len(),
{
    if entries.len() > 0 {
        let rest = entries.drop_first();
        law_lookup_finds_the_first(rest, key, value);
        assert forall|i: int| 0 <= i < rest.len() implies rest[i] == entries[i + 1] by {}
        if entries[0].0 == encode_utf8(key) {
            if tree_lookup(entries, key) == Some(value) {
                assert(entries[0].1 == value);
            }
        } else {
            if is_under(rest, key, value) {
                let i = choose|i: int|
                    0 <= i < rest.len() && (#[trigger] rest[i]).0 == encode_utf8(key) && rest[i].1
                        == value && forall|j: int|
                        0 <= j < i ==> (#[trigger] rest[j]).0 != encode_utf8(key);
                assert forall|j: int| 0 <= j < i + 1 implies (#[trigger] entries[j]).0
                    != encode_utf8(key) by {
                    if j > 0 {
                        assert(rest[j - 1] == entries[j]);
                    }
                }
                assert(entries[i + 1].0 == encode_utf8(key) && entries[i + 1].1 == value);
            }
            if is_under(entries, key, value) {
                let i = choose|i: int|
                    0 <= i < entries.len() && (#[trigger] entries[i]).0 == encode_utf8(key)
                        && entries[i].1 == value && forall|j: int|
                        0 <= j < i ==> (#[trigger] entries[j]).0 != encode_utf8(key);
                assert(rest[i - 1] == entries[i]);
                assert forall|j: int| 0 <= j < i - 1 implies (#[trigger] rest[j]).0 != encode_utf8(
                    key,
                ) by {
                    assert(rest[j] == entries[j + 1]);
                }
            }
            if tree_lookup(rest, key) is None {
                assert forall|i: int| 0 <= i < entries.len() implies (#[trigger] entries[i]).0
                    != encode_utf8(key) by {
                    if i > 0 {
                        assert(rest[i - 1] == entries[i]);
                    }
                }
            } else if forall|i: int|
                0 <= i < entries.len() ==> (#[trigger] entries[i]).0 != encode_utf8(key) {
                assert forall|i: int| 0 <= i < rest.len() implies (#[trigger] rest[i]).0
                    != encode_utf8(key) by {
                    assert(rest[i] == entries[i + 1]);
                }
            }
        }
    }
}

/// Whether `text` is the text under `key`: a byte string in UTF-8.
pub open spec fn is_text_under(entries: Entries, key: Seq<char>, text: Seq<char>) -> bool {
    tree_lookup(entries, key) matches Some(BencodeTree::Bytes(bytes, _)) && valid_utf8(bytes)
        && text == decode_utf8(bytes)
}

/// Whether `n` is the number under `key`.
pub open spec fn is_number_under(entries: Entries, key: Seq<char>, n: u32) -> bool {
    tree_lookup(entries, key) matches Some(BencodeTree::Int(value, _)) && value == n
}

/// Whether `texts` are the texts of a list.
pub open spec fn are_texts(items: Seq<BencodeTree>, texts: Seq<String>) -> bool {
    &&& texts.len() == items.len()
    &&& forall|i: int|
        0 <= i < items.len() ==> (#[trigger] items[i] matches BencodeTree::Bytes(bytes, _)
            && valid_utf8(bytes) && texts[i]@ == decode_utf8(bytes))
}

/// Whether a list is one of texts alone.
pub open spec fn all_texts(items: Seq<BencodeTree>) -> bool {
    forall|i: int|
        0 <= i < items.len() ==> (#[trigger] items[i] matches BencodeTree::Bytes(bytes, _)
            && valid_utf8(bytes))
}

/// What a torrent file that is taken says: in each field what stands under its name, the digests
/// twenty bytes each and in their order, and the digest of the bytes of the inner dictionary.
pub proof fn law_torrent_file_is_read(tree: BencodeTree, m: MetaInfo, i: int, k: int)
    requires
        is_metainfo_result(Ok(m), parse_metainfo(tree)),
    ensures
        tree matches BencodeTree::Dict(root, _) && tree_lookup(root, "info"@) matches Some(
            BencodeTree::Dict(info, raw),
        ) && {
            &&& is_text_under(root, "announce"@, m.announce@)
            &&& m.info_hash@ == sha1_digest(raw)
            &&& is_number_under(info, "piece length"@, m.piece_length)
            &&& tree_lookup(info, "pieces"@) matches Some(BencodeTree::Bytes(p, _)) && {
                &&& m.pieces@.len() == p.len() / 20
                &&& 0 <= i < p.len() / 20 && 0 <= k < 20 ==> m.pieces@[i]@[k] == p[20 * i + k]
            }
            &&& match m.creation_date {
                Some(n) => is_number_under(root, "creation date"@, n),
                None => !(exists|n: u32| is_number_under(root, "creation date"@, n)),
            }
            &&& match m.comment {
                Some(text) => is_text_under(root, "comment"@, text@),
                None => !(exists|text: Seq<char>| is_text_under(root, "comment"@, text)),
            }
            &&& match m.created_by {
                Some(text) => is_text_under(root, "created by"@, text@),
                None => !(exists|text: Seq<char>| is_text_under(root, "created by"@, text)),
            }
            &&& match m.announce_list {
                Some(texts) => tree_lookup(root, "announce-list"@) matches Some(
                    BencodeTree::List(items, _),
                ) && are_texts(items, texts@),
                None => !(tree_lookup(root, "announce-list"@) matches Some(
                    BencodeTree::List(items, _),
                ) && all_texts(items)),
            }
        },
{
    let root = tree->Dict_0;
    let info = dict_dict(root, "info"@)->0;
    let view = parse_metainfo(tree)->Ok_0;
    let p = dict_bytes(info, "pieces"@)->0;
    assert(view == m@);
    if 0 <= i < p.len() / 20 && 0 <= k < 20 {
        assert(view.pieces == runs_of_20(p));
        assert(m@.pieces == digests_of(m.pieces@));
        assert(m.pieces@.len() == view.pieces.len());
        assert(m@.pieces[i] == m.pieces@[i]@);
        assert(view.pieces[i] == p.subrange(i * 20, i * 20 + 20));
        assert(m.pieces@[i]@[k] == p.subrange(i * 20, i * 20 + 20)[k]);
    }
    assert(m@.pieces.len() == m.pieces@.len());
    if let Some(text) = m.comment {
        assert(dict_str(root, "comment"@) == Some(text@));
    }
    if let Some(text) = m.created_by {
        assert(dict_str(root, "created by"@) == Some(text@));
    }
    match dict_list(root, "announce-list"@) {
        Some(items) => {
            if all_texts(items) {
                assert forall|j: int| 0 <= j < items.len() implies tree_str(
                    #[trigger] items[j],
                ) is Some by {}
                assert(all_str(items) is Some);
                let texts = m.announce_list->0@;
                assert(m@.announce_list == all_str(items));
                assert(texts.len() == m@.announce_list->0.len());
                assert forall|j: int| 0 <= j < items.len() implies (
                #[trigger] items[j] matches BencodeTree::Bytes(bytes, _) && valid_utf8(bytes)
                    && texts[j]@ == decode_utf8(bytes)) by {
                    assert(m@.announce_list->0[j] == texts[j]@);
                    assert(all_str(items)->0[j] == tree_str(items[j])->0);
                }
            } else {
                if all_str(items) is Some {
                    assert forall|j: int| 0 <= j < items.len() implies (
                    #[trigger] items[j] matches BencodeTree::Bytes(bytes, _) && valid_utf8(
                        bytes,
                    )) by {
                        assert(tree_str(items[j]) is Some);
                    }
                }
                assert(m@.announce_list is None);
            }
        },
        None => {},
    }
}

/// A file stands for itself: its length, and the parts of its path in their order.
pub proof fn law_files_stand_for_themselves(file: File, k: int)
    ensures
        file@.length == file.length,
        file@.path.len() == file.path@.len(),
        0 <= k < file.path@.len() ==> file@.path[k] == file.path@[k]@,
{
}

/// The file that a torrent of a single file names, and those that a torrent of several lists: each
/// with its length, and with its path below the directory that the torrent names.
pub proof fn law_files_are_read(tree: BencodeTree, m: MetaInfo, i: int, k: int)
    requires
        is_metainfo_result(Ok(m), parse_metainfo(tree)),
    ensures
        tree matches BencodeTree::Dict(root, _) && tree_lookup(root, "info"@) matches Some(
            BencodeTree::Dict(info, _),
        ) && tree_lookup(info, "name"@) matches Some(BencodeTree::Bytes(name, _)) && valid_utf8(
            name,
        ) && match tree_lookup(info, "length"@) {
            Some(BencodeTree::Int(n, _)) => {
                &&& m.files@.len() == 1
                &&& m.files@[0].length == n
                &&& m.files@[0].path@.len() == 1
                &&& m.files@[0].path@[0]@ == decode_utf8(name)
            },
            _ => tree_lookup(info, "files"@) matches Some(BencodeTree::List(items, _)) && {
                &&& m.files@.len() == items.len()
                &&& 0 <= i < items.len() ==> (items[i] matches BencodeTree::Dict(file, _) && {
                    &&& is_number_under(file, "length"@, m.files@[i].length)
                    &&& tree_lookup(file, "path"@) matches Some(BencodeTree::List(parts, _)) && {
                        &&& m.files@[i].path@.len() == parts.len() + 1
                        &&& m.files@[i].path@[0]@ == decode_utf8(name)
                        &&& 0 <= k < parts.len() ==> (parts[k] matches BencodeTree::Bytes(part, _)
                            && valid_utf8(part) && m.files@[i].path@[k + 1]@ == decode_utf8(part))
                    }
                })
            },
        },
{
    let root = tree->Dict_0;
    let info = dict_dict(root, "info"@)->0;
    let view = parse_metainfo(tree)->Ok_0;
    let name = dict_str(info, "name"@)->0;
    assert(view == m@);
    assert(m@.files.len() == m.files@.len());
    match dict_int(info, "length"@) {
        Some(n) => {
            assert(view.files[0] == (FileView { length: n as u32, path: seq![name] }));
            assert(m@.files[0] == m.files@[0]@);
            law_files_stand_for_themselves(m.files@[0], 0);
        },
        None => {
            let items = dict_list(info, "files"@)->0;
            if 0 <= i < items.len() {
                assert(listed_file(items[i], name) is Some);
                assert(view.files[i] == listed_file(items[i], name)->0);
                assert(m@.files[i] == m.files@[i]@);
                let file = tree_dict(items[i])->0;
                let parts = dict_list(file, "path"@)->0;
                let path = all_str(parts)->0;
                assert(m.files@[i]@.path == seq![name] + path);
                law_files_stand_for_themselves(m.files@[i], 0);
                law_files_stand_for_themselves(m.files@[i], k + 1);
                if 0 <= k < parts.len() {
                    assert(tree_str(parts[k]) is Some);
                    assert(path[k] == tree_str(parts[k])->0);
                }
            }
        },
    }
}

/// Whether an entry of the list of files describes one.
pub open spec fn describes_a_file(item: BencodeTree) -> bool {
    item matches BencodeTree::Dict(file, _) && (exists|n: u32|
        is_number_under(file, "length"@, n)) && (tree_lookup(file, "path"@) matches Some(
        BencodeTree::List(parts, _),
    ) && all_texts(parts))
}

/// A torrent file is refused for the first thing that is missing or wrong, and for nothing else.
pub proof fn law_torrent_file_is_refused(tree: BencodeTree)
    ensures
        match parse_metainfo(tree) {
            Err(MetaInfoError::NotADictionary) => !(tree is Dict),
            result => tree matches BencodeTree::Dict(root, _) && {
                let announce = exists|text: Seq<char>| is_text_under(root, "announce"@, text);
                match tree_lookup(root, "info"@) {
                    Some(BencodeTree::Dict(info, _)) if announce => {
                        let piece_length = exists|n: u32|
                            is_number_under(info, "piece length"@, n);
                        let pieces = tree_lookup(info, "pieces"@) matches Some(
                            BencodeTree::Bytes(_, _),
                        );
                        let name = exists|text: Seq<char>| is_text_under(info, "name"@, text);
                        match result {
                            Err(MetaInfoError::PieceLengthMissing) => !piece_length,
                            Err(MetaInfoError::PiecesMissing) => piece_length && !pieces,
                            Err(MetaInfoError::NameMissing) => piece_length && pieces && !name,
                            other => piece_length && pieces && name && match tree_lookup(
                                info,
                                "length"@,
                            ) {
                                Some(BencodeTree::Int(n, _)) => if 0 <= n <= 0xffff_ffff {
                                    other is Ok
                                } else {
                                    other == Err::<
                                        crate::metainfo::MetaInfoView,
                                        MetaInfoError,
                                    >(MetaInfoError::LengthNegative)
                                },
                                _ => match tree_lookup(info, "files"@) {
                                    Some(BencodeTree::List(items, _)) => if forall|i: int|
                                        0 <= i < items.len() ==> describes_a_file(
                                            #[trigger] items[i],
                                        ) {
                                        other is Ok
                                    } else {
                                        other == Err::<
                                            crate::metainfo::MetaInfoView,
                                            MetaInfoError,
                                        >(MetaInfoError::FileMalformed)
                                    },
                                    _ => other == Err::<
                                        crate::metainfo::MetaInfoView,
                                        MetaInfoError,
                                    >(MetaInfoError::FilesMissing),
                                },
                            },
                        }
                    },
                    _ => if announce {
                        result == Err::<crate::metainfo::MetaInfoView, MetaInfoError>(
                            MetaInfoError::InfoMissing,
                        )
                    } else {
                        result == Err::<crate::metainfo::MetaInfoView, MetaInfoError>(
                            MetaInfoError::AnnounceMissing,
                        )
                    },
                }
            },
        },
{
    if let BencodeTree::Dict(root, _) = tree {
        if let Some(text) = dict_str(root, "announce"@) {
            assert(is_text_under(root, "announce"@, text));
        }
        if let Some(info) = dict_dict(root, "info"@) {
            if let Some(n) = dict_u32(info, "piece length"@) {
                assert(is_number_under(info, "piece length"@, n));
            }
            if let Some(text) = dict_str(info, "name"@) {
                assert(is_text_under(info, "name"@, text));
                if let Some(items) = dict_list(info, "files"@) {
                    assert forall|i: int| 0 <= i < items.len() implies (listed_file(
                        #[trigger] items[i],
                        text,
                    ) is Some <==> describes_a_file(items[i])) by {
                        lemma_listed_file(items[i], text);
                    }
                    if forall|i: int|
                        0 <= i < items.len() ==> describes_a_file(#[trigger] items[i]) {
                        assert forall|i: int| 0 <= i < items.len() implies listed_file(
                            #[trigger] items[i],
                            text,
                        ) is Some by {
                            assert(describes_a_file(items[i]));
                        }
                    } else {
                        let i = choose|i: int|
                            0 <= i < items.len() && !describes_a_file(#[trigger] items[i]);
                        assert(listed_file(items[i], text) is None);
                    }
                }
            }
        }
    }
}

proof fn lemma_listed_file(item: BencodeTree, name: Seq<char>)
    ensures
        listed_file(item, name) is Some <==> describes_a_file(item),
{
    if let BencodeTree::Dict(file, _) = item {
        if let Some(n) = dict_u32(file, "length"@) {
            assert(is_number_under(file, "length"@, n));
        }
        if let Some(parts) = dict_list(file, "path"@) {
            if all_texts(parts) {
                assert forall|j: int| 0 <= j < parts.len() implies tree_str(
                    #[trigger] parts[j],
                ) is Some by {}
            }
            if all_str(parts) is Some {
                assert forall|j: int| 0 <= j < parts.len() implies (
                #[trigger] parts[j] matches BencodeTree::Bytes(bytes, _) && valid_utf8(bytes)) by {
                    assert(tree_str(parts[j]) is Some);
                }
            }
        }
    }
}

/// A decoded list or dictionary has one value for each part, in the order of the parts, and each
/// is what its own bytes are decoded to; and every value keeps the bytes it was decoded from.
pub proof fn law_values_are_decoded_part_by_part(bytes: Seq<u8>, i: int)
    ensures
        bencode_tree(bytes) matches Ok(tree) ==> match bencode_node(bytes) {
            Ok(NodeView::Int(n)) => tree == BencodeTree::Int(n, bytes),
            Ok(NodeView::Bytes(s)) => tree == BencodeTree::Bytes(s, bytes),
            Ok(NodeView::List(items)) => tree matches BencodeTree::List(trees, raw) && raw == bytes
                && trees.len() == items.len() && (0 <= i < items.len() ==> bencode_tree(items[i])
                == Ok::<BencodeTree, Seq<char>>(trees[i])),
            Ok(NodeView::Dict(entries)) => tree matches BencodeTree::Dict(trees, raw) && raw
                == bytes && trees.len() == entries.len() && (0 <= i < entries.len() ==> trees[i].0
                == entries[i].0 && bencode_tree(entries[i].1) == Ok::<BencodeTree, Seq<char>>(
                trees[i].1,
            )),
            Err(_) => false,
        },
{
    match bencode_node(bytes) {
        Ok(NodeView::List(items)) => {
            lemma_items(items, bytes.len(), i);
        },
        Ok(NodeView::Dict(entries)) => {
            lemma_entries(entries, bytes.len(), i);
        },
        _ => {},
    }
}

proof fn lemma_items(items: Seq<Seq<u8>>, bound: nat, i: int)
    ensures
        item_trees(items, bound) matches Ok(trees) ==> trees.len() == items.len() && (0 <= i
            < items.len() ==> bencode_tree(items[i]) == Ok::<BencodeTree, Seq<char>>(trees[i])),
    decreases items.len(),
{
    if items.len() > 0 {
        lemma_items(items.drop_last(), bound, i);
    }
}

proof fn lemma_entries(entries: Seq<(Seq<u8>, Seq<u8>)>, bound: nat, i: int)
    ensures
        entry_trees(entries, bound) matches Ok(trees) ==> trees.len() == entries.len() && (0 <= i
            < entries.len() ==> trees[i].0 == entries[i].0 && bencode_tree(entries[i].1) == Ok::<
            BencodeTree,
            Seq<char>,
        >(trees[i].1)),
    decreases entries.len(),
{
    if entries.len() > 0 {
        lemma_entries(entries.drop_last(), bound, i);
    }
}

/// What is read of a value: a number only of a number, bytes only of bytes, and so on; a number of
/// thirty-two bits only where it is one; and the bytes it was decoded from in any case.
pub proof fn law_values_are_read_as_what_they_are(tree: BencodeTree)
    ensures
        match tree {
            BencodeTree::Int(n, raw) => tree_int(tree) == Some(n) && tree_raw(tree) == raw && (
            tree_u32(tree) is Some <==> 0 <= n <= 0xffff_ffff) && (tree_u32(tree) matches Some(m)
                ==> m == n) && tree_str(tree) is None && tree_list(tree) is None && tree_dict(
                tree,
            ) is None,
            BencodeTree::Bytes(bytes, raw) => tree_raw(tree) == raw && tree_int(tree) is None
                && tree_u32(tree) is None && (tree_str(tree) is Some <==> valid_utf8(bytes)) && (
            tree_str(tree) matches Some(text) ==> text == decode_utf8(bytes)) && tree_list(
                tree,
            ) is None && tree_dict(tree) is None && crate::bencode::tree_bytes(tree) == Some(bytes),
            BencodeTree::List(items, raw) => tree_raw(tree) == raw && tree_list(tree) == Some(items)
                && tree_int(tree) is None && tree_str(tree) is None && tree_dict(tree) is None,
            BencodeTree::Dict(entries, raw) => tree_raw(tree) == raw && tree_dict(tree) == Some(
                entries,
            ) && tree_int(tree) is None && tree_str(tree) is None && tree_list(tree) is None,
        },
{
}

/// A value that was decoded stands for itself, part by part and in order.
pub proof fn law_values_stand_for_themselves(value: Bencode, i: int)
    ensures
        match value {
            Bencode::Int(n, raw) => value@ == BencodeTree::Int(n, raw@),
            Bencode::Bytes(bytes, raw) => value@ == BencodeTree::Bytes(bytes@, raw@),
            Bencode::List(items, raw) => value@ matches BencodeTree::List(trees, bytes) && bytes
                == raw@ && trees.len() == items@.len() && (0 <= i < items@.len() ==> trees[i]
                == items@[i]@),
            Bencode::Dict(entries, raw) => value@ matches BencodeTree::Dict(trees, bytes) && bytes
                == raw@ && trees.len() == entries@.len() && (0 <= i < entries@.len() ==> trees[i]
                == (entries@[i].key@, entries@[i].value@)),
        },
{
    reveal_with_fuel(<Bencode as View>::view, 2);
}

/// The items of a list and the entries of a dictionary stand for themselves, in their order.
pub proof fn law_parts_stand_for_themselves(
    items: Seq<Bencode>,
    entries: Seq<DictEntry>,
    i: int,
)
    ensures
        trees_of(items).len() == items.len(),
        entries_of(entries).len() == entries.len(),
        0 <= i < items.len() ==> trees_of(items)[i] == items[i]@,
        0 <= i < entries.len() ==> {
            &&& entries_of(entries)[i].0 == entries[i].key@
            &&& entries_of(entries)[i].1 == entries[i].value@
        },
{
}

/// The result of reading a torrent file is the one that the file calls for: its contents, or the
/// very error.
pub proof fn law_result_is_the_one_called_for(
    m: MetaInfo,
    e: MetaInfoError,
    expected: Result<MetaInfoView, MetaInfoError>,
)
    ensures
        is_metainfo_result(Ok(m), expected) <==> (expected matches Ok(view) && view == m@),
        is_metainfo_result(Err(e), expected) <==> (expected matches Err(error) && error == e),
{
}

} // verus!
