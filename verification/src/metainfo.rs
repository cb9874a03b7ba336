//! What a torrent file says.
use crate::bencode::{
    bencode_tree, entries_of, lookup, tree_bytes, tree_dict, tree_int, tree_list, tree_lookup,
    tree_raw, tree_str, tree_u32, trees_of, Bencode, BencodeTree, DictEntry,
};
use crate::bytes::{sha1_digest, sha1_hash};
use crate::wire::copy_20;
use vstd::prelude::*;

verus! {

/// The contents of a torrent file.
#[derive(Clone, Debug)]
pub struct MetaInfo {
    /// URL of the tracker.
    pub announce: String,
    /// URLs of further trackers.
    pub announce_list: Option<Vec<String>>,
    pub creation_date: Option<u32>,
    pub comment: Option<String>,
    pub created_by: Option<String>,
    /// Number of bytes of each piece but the last.
    pub piece_length: u32,
    /// SHA-1 digest of each piece.
    pub pieces: Vec<[u8; 20]>,
    pub files: Vec<File>,
    /// SHA-1 digest of the bytes of the `info` dictionary.
    pub info_hash: [u8; 20],
}

/// One file of a torrent.
#[derive(Clone, Debug)]
pub struct File {
    pub length: u32,
    /// Directories and name, the outermost directory first.
    pub path: Vec<String>,
}

/// What a `MetaInfo` says.
pub struct MetaInfoView {
    pub announce: Seq<char>,
    pub announce_list: Option<Seq<Seq<char>>>,
    pub creation_date: Option<u32>,
    pub comment: Option<Seq<char>>,
    pub created_by: Option<Seq<char>>,
    pub piece_length: u32,
    pub pieces: Seq<Seq<u8>>,
    pub files: Seq<FileView>,
    pub info_hash: Seq<u8>,
}

/// What a `File` says.
pub struct FileView {
    pub length: u32,
    pub path: Seq<Seq<char>>,
}

/// The characters of each text.
pub open spec fn texts_of(texts: Seq<String>) -> Seq<Seq<char>> {
    Seq::new(texts.len(), |i: int| texts[i]@)
}

/// The characters of a text, if there is one.
pub open spec fn text_of(text: Option<String>) -> Option<Seq<char>> {
    match text {
        Some(t) => Some(t@),
        None => None,
    }
}

/// The bytes of each digest.
pub open spec fn digests_of(digests: Seq<[u8; 20]>) -> Seq<Seq<u8>> {
    Seq::new(digests.len(), |i: int| digests[i]@)
}

/// What each file says.
pub open spec fn files_of(files: Seq<File>) -> Seq<FileView> {
    Seq::new(files.len(), |i: int| files[i]@)
}

impl View for File {
    type V = FileView;

    open spec fn view(&self) -> FileView {
        FileView { length: self.length, path: texts_of(self.path@) }
    }
}

impl View for MetaInfo {
    type V = MetaInfoView;

    open spec fn view(&self) -> MetaInfoView {
        MetaInfoView {
            announce: self.announce@,
            announce_list: match self.announce_list {
                Some(list) => Some(texts_of(list@)),
                None => None,
            },
            creation_date: self.creation_date,
            comment: text_of(self.comment),
            created_by: text_of(self.created_by),
            piece_length: self.piece_length,
            pieces: digests_of(self.pieces@),
            files: files_of(self.files@),
            info_hash: self.info_hash@,
        }
    }
}

/// Why bytes are not a torrent file.
#[derive(Debug)]
pub enum MetaInfoError {
    /// The bytes are not a bencoded value, for the reason in the text.
    NotBencode(String),
    /// The outermost value is not a dictionary.
    NotADictionary,
    AnnounceMissing,
    InfoMissing,
    PieceLengthMissing,
    PiecesMissing,
    NameMissing,
    /// The length of the only file is negative or does not fit.
    LengthNegative,
    FilesMissing,
    /// Some entry of the list of files is not a proper file.
    FileMalformed,
}

impl MetaInfoError {
    /// The error in words.
    pub fn message(&self) -> (text: String)
        ensures
            text@ == match self {
                MetaInfoError::NotBencode(reason) => reason@,
                MetaInfoError::NotADictionary => "Bad metainfo file"@,
                MetaInfoError::AnnounceMissing => "Announce missing"@,
                MetaInfoError::InfoMissing => "Info missing"@,
                MetaInfoError::PieceLengthMissing =>
                    "Piece length missing or not a positive integer"@,
                MetaInfoError::PiecesMissing => "Pieces missing"@,
                MetaInfoError::NameMissing => "Name missing"@,
                MetaInfoError::LengthNegative => "Length is negative"@,
                MetaInfoError::FilesMissing => "Files (and length) missing"@,
                MetaInfoError::FileMalformed => "File dictionary is malformed"@,
            },
    {
        match self {
            MetaInfoError::NotBencode(reason) => reason.clone(),
            MetaInfoError::NotADictionary => "Bad metainfo file".to_owned(),
            MetaInfoError::AnnounceMissing => "Announce missing".to_owned(),
            MetaInfoError::InfoMissing => "Info missing".to_owned(),
            MetaInfoError::PieceLengthMissing => {
                "Piece length missing or not a positive integer".to_owned()
            },
            MetaInfoError::PiecesMissing => "Pieces missing".to_owned(),
            MetaInfoError::NameMissing => "Name missing".to_owned(),
            MetaInfoError::LengthNegative => "Length is negative".to_owned(),
            MetaInfoError::FilesMissing => "Files (and length) missing".to_owned(),
            MetaInfoError::FileMalformed => "File dictionary is malformed".to_owned(),
        }
    }
}

/// The entries of a dictionary.
pub type Entries = Seq<(Seq<u8>, BencodeTree)>;

/// The text under `key`, if there is one.
pub open spec fn dict_str(entries: Entries, key: Seq<char>) -> Option<Seq<char>> {
    match tree_lookup(entries, key) {
        Some(tree) => tree_str(tree),
        None => None,
    }
}

/// The integer under `key`, if there is one.
pub open spec fn dict_int(entries: Entries, key: Seq<char>) -> Option<i64> {
    match tree_lookup(entries, key) {
        Some(tree) => tree_int(tree),
        None => None,
    }
}

/// The integer under `key`, if there is one that fits a `u32`.
pub open spec fn dict_u32(entries: Entries, key: Seq<char>) -> Option<u32> {
    match tree_lookup(entries, key) {
        Some(tree) => tree_u32(tree),
        None => None,
    }
}

/// The byte string under `key`, if there is one.
pub open spec fn dict_bytes(entries: Entries, key: Seq<char>) -> Option<Seq<u8>> {
    match tree_lookup(entries, key) {
        Some(tree) => tree_bytes(tree),
        None => None,
    }
}

/// The items of the list under `key`, if there is one.
pub open spec fn dict_list(entries: Entries, key: Seq<char>) -> Option<Seq<BencodeTree>> {
    match tree_lookup(entries, key) {
        Some(tree) => tree_list(tree),
        None => None,
    }
}

/// The entries of the dictionary under `key`, if there is one.
pub open spec fn dict_dict(entries: Entries, key: Seq<char>) -> Option<Entries> {
    match tree_lookup(entries, key) {
        Some(tree) => tree_dict(tree),
        None => None,
    }
}

/// The texts that the items are, if all of them are texts.
pub open spec fn all_str(items: Seq<BencodeTree>) -> Option<Seq<Seq<char>>> {
    if forall|i: int| 0 <= i < items.len() ==> tree_str(#[trigger] items[i]) is Some {
        Some(Seq::new(items.len(), |i: int| tree_str(items[i])->0))
    } else {
        None
    }
}

/// `bytes` cut into runs of twenty; a shorter rest is dropped.
pub open spec fn runs_of_20(bytes: Seq<u8>) -> Seq<Seq<u8>> {
    Seq::new(bytes.len() / 20, |i: int| bytes.subrange(i * 20, i * 20 + 20))
}

/// The file that an entry of the list of files describes, below the directory `name`.
pub open spec fn listed_file(tree: BencodeTree, name: Seq<char>) -> Option<FileView> {
    match tree_dict(tree) {
        None => None,
        Some(entries) => match (dict_u32(entries, "length"@), dict_list(entries, "path"@)) {
            (Some(length), Some(items)) => match all_str(items) {
                Some(path) => Some(FileView { length, path: seq![name] + path }),
                None => None,
            },
            _ => None,
        },
    }
}

/// The files that the entries of the list of files describe, if each of them describes one.
pub open spec fn listed_files(items: Seq<BencodeTree>, name: Seq<char>) -> Option<Seq<FileView>> {
    if forall|i: int| 0 <= i < items.len() ==> listed_file(#[trigger] items[i], name) is Some {
        Some(Seq::new(items.len(), |i: int| listed_file(items[i], name)->0))
    } else {
        None
    }
}

/// The files of a torrent: a single one where the dictionary has a length, else those listed.
pub open spec fn info_files(info: Entries, name: Seq<char>) -> Result<
    Seq<FileView>,
    MetaInfoError,
> {
    match dict_int(info, "length"@) {
        Some(n) => if 0 <= n <= u32::MAX {
            Ok(seq![FileView { length: n as u32, path: seq![name] }])
        } else {
            Err(MetaInfoError::LengthNegative)
        },
        None => match dict_list(info, "files"@) {
            None => Err(MetaInfoError::FilesMissing),
            Some(items) => match listed_files(items, name) {
                Some(files) => Ok(files),
                None => Err(MetaInfoError::FileMalformed),
            },
        },
    }
}

/// What a torrent file with this tree says, or the first thing that is wrong with it.
pub open spec fn parse_metainfo(tree: BencodeTree) -> Result<MetaInfoView, MetaInfoError> {
    match tree_dict(tree) {
        None => Err(MetaInfoError::NotADictionary),
        Some(root) => match dict_str(root, "announce"@) {
            None => Err(MetaInfoError::AnnounceMissing),
            Some(announce) => match dict_dict(root, "info"@) {
                None => Err(MetaInfoError::InfoMissing),
                Some(info) => match dict_u32(info, "piece length"@) {
                    None => Err(MetaInfoError::PieceLengthMissing),
                    Some(piece_length) => match dict_bytes(info, "pieces"@) {
                        None => Err(MetaInfoError::PiecesMissing),
                        Some(pieces) => match dict_str(info, "name"@) {
                            None => Err(MetaInfoError::NameMissing),
                            Some(name) => match info_files(info, name) {
                                Err(e) => Err(e),
                                Ok(files) => Ok(
                                    MetaInfoView {
                                        announce,
                                        announce_list: match dict_list(root, "announce-list"@) {
                                            Some(items) => all_str(items),
                                            None => None,
                                        },
                                        creation_date: dict_u32(root, "creation date"@),
                                        comment: dict_str(root, "comment"@),
                                        created_by: dict_str(root, "created by"@),
                                        piece_length,
                                        pieces: runs_of_20(pieces),
                                        files,
                                        info_hash: sha1_digest(
                                            tree_raw(tree_lookup(root, "info"@)->0),
                                        ),
                                    },
                                ),
                            },
                        },
                    },
                },
            },
        },
    }
}

/// Whether `r` is the result `expected`.
pub open spec fn is_metainfo_result(
    r: Result<MetaInfo, MetaInfoError>,
    expected: Result<MetaInfoView, MetaInfoError>,
) -> bool {
    match r {
        Ok(m) => expected == Ok::<MetaInfoView, MetaInfoError>(m@),
        Err(e) => expected == Err::<MetaInfoView, MetaInfoError>(e),
    }
}

/// The text under `key`.
pub fn get_str(entries: &Vec<DictEntry>, key: &str) -> (r: Option<String>)
    ensures
        text_of(r) == dict_str(entries_of(entries@), key@),
{
    match lookup(entries, key) {
        Some(value) => value.as_str(),
        None => None,
    }
}

/// The integer under `key`, if it fits a `u32`.
pub fn get_u32(entries: &Vec<DictEntry>, key: &str) -> (r: Option<u32>)
    ensures
        r == dict_u32(entries_of(entries@), key@),
{
    match lookup(entries, key) {
        Some(value) => value.as_u32(),
        None => None,
    }
}

/// The byte string under `key`.
pub fn get_bytes<'a>(entries: &'a Vec<DictEntry>, key: &str) -> (r: Option<&'a Vec<u8>>)
    ensures
        match r {
            Some(bytes) => dict_bytes(entries_of(entries@), key@) == Some(bytes@),
            None => dict_bytes(entries_of(entries@), key@) is None,
        },
{
    match lookup(entries, key) {
        Some(value) => value.as_bytes(),
        None => None,
    }
}

/// The items of the list under `key`.
fn get_list<'a>(entries: &'a Vec<DictEntry>, key: &str) -> (r: Option<&'a Vec<Bencode>>)
    ensures
        match r {
            Some(items) => dict_list(entries_of(entries@), key@) == Some(trees_of(items@)),
            None => dict_list(entries_of(entries@), key@) is None,
        },
{
    match lookup(entries, key) {
        Some(value) => value.as_list(),
        None => None,
    }
}

/// The texts that the items are, if all of them are.
fn get_all_str(items: &Vec<Bencode>) -> (r: Option<Vec<String>>)
    ensures
        match r {
            Some(texts) => all_str(trees_of(items@)) == Some(texts_of(texts@)),
            None => all_str(trees_of(items@)) is None,
        },
{
    let n: usize = items.len();
    let ghost trees = trees_of(items@);
    let mut texts: Vec<String> = Vec::new();
    let mut i: usize = 0;
    while i < n
        invariant
            i <= n == items@.len() == trees.len(),
            trees == trees_of(items@),
            texts@.len() == i,
            forall|j: int| 0 <= j < i ==> tree_str(#[trigger] trees[j]) == Some(texts@[j]@),
        decreases n - i,
    {
        assert(trees[i as int] == items@[i as int]@);
        match items[i].as_str() {
            Some(text) => {
                texts.push(text);
            },
            None => {
                return None;
            },
        }
        i = i + 1;
    }
    proof {
        let expected = Seq::new(trees.len(), |i: int| tree_str(trees[i])->0);
        assert forall|j: int| 0 <= j < n implies expected[j] == texts_of(texts@)[j] by {
            assert(tree_str(trees[j]) == Some(texts@[j]@));
        }
        assert(expected =~= texts_of(texts@));
    }
    Some(texts)
}

/// The runs of twenty bytes in `bytes`.
fn cut_20(bytes: &Vec<u8>) -> (runs: Vec<[u8; 20]>)
    ensures
        digests_of(runs@) == runs_of_20(bytes@),
{
    let n: usize = bytes.len();
    let mut runs: Vec<[u8; 20]> = Vec::new();
    let mut at: usize = 0;
    while n - at >= 20
        invariant
            at <= n == bytes@.len(),
            at == runs@.len() * 20,
            forall|j: int|
                0 <= j < runs@.len() ==> (#[trigger] runs@[j])@ == bytes@.subrange(
                    j * 20,
                    j * 20 + 20,
                ),
        decreases n - at,
    {
        runs.push(copy_20(bytes.as_slice(), at));
        at = at + 20;
    }
    assert(digests_of(runs@) =~= runs_of_20(bytes@));
    runs
}

/// The file that an entry of the list of files describes.
fn get_listed_file(item: &Bencode, name: &String) -> (r: Option<File>)
    ensures
        match r {
            Some(file) => listed_file(item@, name@) == Some(file@),
            None => listed_file(item@, name@) is None,
        },
{
    let entries = match item.as_dict() {
        Some(entries) => entries,
        None => {
            return None;
        },
    };
    let length: u32 = match get_u32(entries, "length") {
        Some(length) => length,
        None => {
            return None;
        },
    };
    let items = match get_list(entries, "path") {
        Some(items) => items,
        None => {
            return None;
        },
    };
    match get_all_str(items) {
        Some(mut path) => {
            let ghost inner = texts_of(path@);
            path.insert(0, name.clone());
            assert(texts_of(path@) =~= seq![name@] + inner);
            Some(File { length, path })
        },
        None => None,
    }
}

/// The files of the dictionary `info`.
fn get_files(info: &Vec<DictEntry>, name: String) -> (r: Result<Vec<File>, MetaInfoError>)
    ensures
        match r {
            Ok(files) => info_files(entries_of(info@), name@) == Ok::<Seq<FileView>, MetaInfoError>(
                files_of(files@),
            ),
            Err(e) => info_files(entries_of(info@), name@) == Err::<Seq<FileView>, MetaInfoError>(
                e,
            ),
        },
{
    let single: Option<i64> = match lookup(info, "length") {
        Some(value) => value.as_int(),
        None => None,
    };
    let mut files: Vec<File> = Vec::new();
    match single {
        Some(n) => {
            if n < 0 || n > u32::MAX as i64 {
                return Err(MetaInfoError::LengthNegative);
            }
            let ghost text = name@;
            let mut path: Vec<String> = Vec::new();
            path.push(name);
            assert(texts_of(path@) =~= seq![text]);
            files.push(File { length: n as u32, path });
            assert(files_of(files@) =~= seq![FileView { length: n as u32, path: seq![text] }]);
            Ok(files)
        },
        None => {
            let items = match get_list(info, "files") {
                Some(items) => items,
                None => {
                    return Err(MetaInfoError::FilesMissing);
                },
            };
            let ghost trees = trees_of(items@);
            let n: usize = items.len();
            let mut i: usize = 0;
            while i < n
                invariant
                    i <= n == items@.len() == trees.len(),
                    trees == trees_of(items@),
                    dict_int(entries_of(info@), "length"@) is None,
                    dict_list(entries_of(info@), "files"@) == Some(trees),
                    files@.len() == i,
                    forall|j: int|
                        0 <= j < i ==> listed_file(#[trigger] trees[j], name@) == Some(files@[j]@),
                decreases n - i,
            {
                assert(trees[i as int] == items@[i as int]@);
                match get_listed_file(&items[i], &name) {
                    Some(file) => {
                        files.push(file);
                    },
                    None => {
                        return Err(MetaInfoError::FileMalformed);
                    },
                }
                i = i + 1;
            }
            proof {
                let expected = Seq::new(trees.len(), |i: int| listed_file(trees[i], name@)->0);
                assert forall|j: int| 0 <= j < n implies expected[j] == files_of(files@)[j] by {
                    assert(listed_file(trees[j], name@) == Some(files@[j]@));
                }
                assert(expected =~= files_of(files@));
            }
            Ok(files)
        },
    }
}

impl MetaInfo {
    /// Reads a torrent file.
    pub fn from_bytes(bytes: &[u8]) -> (r: Result<MetaInfo, MetaInfoError>)
        ensures
            match bencode_tree(bytes@) {
                Err(text) => r matches Err(MetaInfoError::NotBencode(reason)) && reason@ == text,
                Ok(tree) => is_metainfo_result(r, parse_metainfo(tree)),
            },
    {
        match Bencode::decode(bytes) {
            Err(text) => Err(MetaInfoError::NotBencode(text)),
            Ok(bencode) => MetaInfo::from_bencode(&bencode),
        }
    }

    /// Reads a torrent file that has been decoded.
    pub fn from_bencode(bencode: &Bencode) -> (r: Result<MetaInfo, MetaInfoError>)
        ensures
            is_metainfo_result(r, parse_metainfo(bencode@)),
    {
        let root = match bencode.as_dict() {
            Some(root) => root,
            None => {
                return Err(MetaInfoError::NotADictionary);
            },
        };
        let announce: String = match get_str(root, "announce") {
            Some(announce) => announce,
            None => {
                return Err(MetaInfoError::AnnounceMissing);
            },
        };
        let announce_list: Option<Vec<String>> = match get_list(root, "announce-list") {
            Some(items) => get_all_str(items),
            None => None,
        };
        let creation_date: Option<u32> = get_u32(root, "creation date");
        let comment: Option<String> = get_str(root, "comment");
        let created_by: Option<String> = get_str(root, "created by");
        let info_value = match lookup(root, "info") {
            Some(value) => value,
            None => {
                return Err(MetaInfoError::InfoMissing);
            },
        };
        let info = match info_value.as_dict() {
            Some(info) => info,
            None => {
                return Err(MetaInfoError::InfoMissing);
            },
        };
        let piece_length: u32 = match get_u32(info, "piece length") {
            Some(n) => n,
            None => {
                return Err(MetaInfoError::PieceLengthMissing);
            },
        };
        let pieces: Vec<[u8; 20]> = match get_bytes(info, "pieces") {
            Some(bytes) => cut_20(bytes),
            None => {
                return Err(MetaInfoError::PiecesMissing);
            },
        };
        let name: String = match get_str(info, "name") {
            Some(name) => name,
            None => {
                return Err(MetaInfoError::NameMissing);
            },
        };
        let files: Vec<File> = match get_files(info, name) {
            Ok(files) => files,
            Err(e) => {
                return Err(e);
            },
        };
        let info_hash: [u8; 20] = sha1_hash(info_value.buffer().as_slice());
        Ok(
            MetaInfo {
                announce,
                announce_list,
                creation_date,
                comment,
                created_by,
                piece_length,
                pieces,
                files,
                info_hash,
            },
        )
    }
}

/// Every file of a torrent file has a name, its path starts with the name of the torrent, and the
/// digests are twenty bytes each.
pub proof fn law_metainfo_paths(tree: BencodeTree)
    requires
        parse_metainfo(tree) is Ok,
    ensures
        ({
            let m = parse_metainfo(tree)->Ok_0;
            let name = dict_str(dict_dict(tree_dict(tree)->0, "info"@)->0, "name"@)->0;
            &&& forall|i: int|
                0 <= i < m.files.len() ==> (#[trigger] m.files[i]).path.len() >= 1
                    && m.files[i].path[0] == name
            &&& forall|i: int| 0 <= i < m.pieces.len() ==> (#[trigger] m.pieces[i]).len() == 20
        }),
{
    let info = dict_dict(tree_dict(tree)->0, "info"@)->0;
    let name = dict_str(info, "name"@)->0;
    let files = parse_metainfo(tree)->Ok_0.files;
    if dict_int(info, "length"@) is None {
        let items = dict_list(info, "files"@)->0;
        assert forall|i: int| 0 <= i < files.len() implies (#[trigger] files[i]).path.len() >= 1
            && files[i].path[0] == name by {
            assert(listed_file(items[i], name) is Some);
        }
    }
}

} // verus!
