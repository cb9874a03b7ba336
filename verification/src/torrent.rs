//! The state of one torrent, and what happens to it.
use crate::address::{local_address, other_peers, remove_address, without, PeerAddress};
use crate::bencode::bencode_tree;
use crate::bytes::{is_alphanumeric, random_id, sha1_digest, sha1_hash};
use crate::client_message::{broadcast_to, push_broadcast, ClientMessage, Notice};
use crate::constants::BLOCK_SIZE;
use crate::files::{
    after_writes, at_most, contents, end_to_end, get_file_sections, laid_out,
    law_read_gives_back_write, law_sections_cover_range, law_sections_read_contents,
    law_writes_replace_range, lay_out, lemma_contents_length, lemma_file_ends_fit, read_sections, sections, spread, spread_bytes, sum_of_lengths,
    total_length, writes_of, FileInfo, FileSection, FileWrite,
};
use crate::metainfo::{
    files_of, law_metainfo_paths, parse_metainfo, File, FileView, MetaInfo,
    MetaInfoError,
};
use crate::peer_message::{low_32, truncate_32, Block, BlockInfo};
use crate::pieces::{
    block_count, blocks_fit, count_missing, find_first_missing, first_missing, law_first_missing,
    law_nothing_missing, missing_count, piece_blocks, push_piece_blocks,
};
use crate::wire::{push_bytes, same_bytes};
use vstd::prelude::*;

verus! {

/// A torrent that is being downloaded or shared.
pub struct Torrent {
    pub metainfo: MetaInfo,
    /// The port on which this client listens.
    pub port: u16,
    /// The name by which this client goes.
    pub peer_id: [u8; 20],
    pub files: Vec<FileInfo>,
    pub bytes_uploaded: u32,
    pub bytes_downloaded: u32,
    pub peers: Vec<PeerAddress>,
    /// For each piece whether it is there.
    pub downloaded_pieces: Vec<bool>,
    /// Blocks of the current piece that nobody has been asked for.
    pub blocks_to_download: Vec<BlockInfo>,
    /// The piece that is being downloaded.
    pub downloading_piece_index: Option<u32>,
    /// The blocks of that piece, as far as they have arrived.
    pub downloading_piece: Vec<Option<Block>>,
    pub optimistic_unchoke_peer: Option<PeerAddress>,
}

/// What a block that has arrived leads to.
#[derive(Debug)]
pub enum PieceStep {
    /// The piece is not complete.
    Unfinished,
    /// The piece with this index is complete but not what it should be.
    Bad(u32),
    Good {
        /// The piece that is complete.
        index: u32,
        /// Where its bytes go.
        writes: Vec<FileWrite>,
        /// What the peers are told.
        notices: Vec<Notice>,
        /// Whether that was the last piece.
        finished: bool,
    },
}

/// Whether every block is there.
pub open spec fn all_here(slots: Seq<Option<Block>>) -> bool {
    forall|i: int| 0 <= i < slots.len() ==> (#[trigger] slots[i]) is Some
}

/// The bytes of the blocks that are there, one after the other.
pub open spec fn joined_blocks(slots: Seq<Option<Block>>) -> Seq<u8>
    decreases slots.len(),
{
    if slots.len() == 0 {
        Seq::empty()
    } else {
        joined_blocks(slots.drop_last()) + match slots.last() {
            Some(block) => block.bytes@,
            None => Seq::empty(),
        }
    }
}

/// The coordinates of blocks that are there.
pub open spec fn infos_of(slots: Seq<Option<Block>>) -> Seq<BlockInfo> {
    Seq::new(slots.len(), |i: int| slots[i]->0.info)
}

/// Whether the blocks are still there as far as their coordinates go, without their bytes.
pub open spec fn emptied(slots: Seq<Option<Block>>, after: Seq<Option<Block>>) -> bool {
    &&& after.len() == slots.len()
    &&& forall|i: int|
        0 <= i < after.len() ==> (#[trigger] after[i]) is Some && after[i]->0.info
            == slots[i]->0.info && after[i]->0.bytes@.len() == 0
}

impl Torrent {
    /// The files lie end to end, and of each piece it is known whether it is there.
    pub open spec fn wf(&self) -> bool {
        &&& end_to_end(self.files@)
        &&& self.downloaded_pieces@.len() == self.metainfo.pieces@.len()
    }

    /// Offset of the first byte of a piece in the torrent.
    pub open spec fn piece_offset(&self, index: int) -> int {
        index * self.metainfo.piece_length
    }

    /// Number of bytes of a piece; the last one ends with the last file.
    pub open spec fn piece_size(&self, index: int) -> int {
        at_most(
            self.piece_offset(index) + self.metainfo.piece_length,
            total_length(self.files@),
        ) - self.piece_offset(index)
    }

    /// Whether the download of a piece can begin: it has bytes, and all offsets in it fit.
    pub open spec fn can_start(&self, index: int) -> bool {
        &&& index <= u32::MAX
        &&& self.files@.len() > 0
        &&& self.piece_offset(index) + self.metainfo.piece_length <= u32::MAX
        &&& blocks_fit(self.piece_size(index))
    }

    /// Whether the first of the pieces missing in `downloaded`, if any is, can begin.
    pub open spec fn can_go_on(&self, downloaded: Seq<bool>) -> bool {
        match first_missing(downloaded) {
            Some(i) => self.can_start(i),
            None => true,
        }
    }

    /// Whether the bytes of a piece can be given places in the files.
    pub open spec fn can_place(&self, index: int, count: nat) -> bool {
        self.piece_offset(index) + low_32(count) <= u32::MAX
    }

    /// Whether what follows the arrival of the blocks `slots` is without trouble: where they make
    /// up the current piece, nothing else is left to ask for and the piece exists; and where its
    /// digest is the right one, its bytes have places and the next piece can begin.
    pub open spec fn can_take(&self, slots: Seq<Option<Block>>) -> bool {
        all_here(slots) ==> match self.downloading_piece_index {
            Some(index) => {
                &&& self.blocks_to_download@.len() == 0
                &&& index < self.metainfo.pieces@.len()
                &&& sha1_digest(joined_blocks(slots)) == self.metainfo.pieces@[index as int]@ ==> {
                    &&& self.can_place(index as int, joined_blocks(slots).len())
                    &&& self.can_go_on(self.downloaded_pieces@.update(index as int, true))
                }
            },
            None => true,
        }
    }

    /// The place of a block in the current piece.
    pub open spec fn slot_of(&self, info: BlockInfo) -> int {
        (info.begin / BLOCK_SIZE) as int
    }

    /// The blocks of the current piece once `block` has been put in its place.
    pub open spec fn with_block(&self, block: Block) -> Seq<Option<Block>> {
        self.downloading_piece@.update(self.slot_of(block.info), Some(block))
    }
}

/// Whether `after` is `before` with the download of piece `index` begun.
pub open spec fn piece_started(before: Torrent, after: Torrent, index: u32) -> bool {
    &&& after == (Torrent {
        downloading_piece_index: Some(index),
        downloading_piece: after.downloading_piece,
        blocks_to_download: after.blocks_to_download,
        ..before
    })
    &&& after.downloading_piece@.len() == block_count(before.piece_size(index as int))
    &&& forall|i: int|
        0 <= i < after.downloading_piece@.len() ==> (#[trigger] after.downloading_piece@[i]) is None
    &&& after.blocks_to_download@ == before.blocks_to_download@ + piece_blocks(
        index,
        before.piece_size(index as int),
    )
}

/// Whether `after` and `step` are what follows on `before` when the current piece `index` is
/// complete with the blocks `slots`, whose bytes are `bytes`, and when the digest of these is the
/// right one or not.
pub open spec fn piece_completed(
    before: Torrent,
    slots: Seq<Option<Block>>,
    index: u32,
    bytes: Seq<u8>,
    right: bool,
    after: Torrent,
    step: PieceStep,
) -> bool {
    if !right {
        &&& step == PieceStep::Bad(index)
        &&& after == (Torrent {
            downloading_piece: after.downloading_piece,
            blocks_to_download: after.blocks_to_download,
            ..before
        })
        &&& after.downloading_piece@.len() == slots.len()
        &&& forall|i: int|
            0 <= i < slots.len() ==> (#[trigger] after.downloading_piece@[i]) is None
        &&& after.blocks_to_download@ == before.blocks_to_download@ + infos_of(slots)
    } else {
        let start = before.piece_offset(index as int);
        let marked = before.downloaded_pieces@.update(index as int, true);
        &&& step matches PieceStep::Good { index: done, writes, notices, finished }
        &&& done == index
        &&& writes_of(writes@) == spread(
            sections(before.files@, start, start + low_32(bytes.len())),
            bytes,
        )
        &&& notices@ == broadcast_to(
            before.peers@.len(),
            ClientMessage::PieceDownloaded(index),
        ) + broadcast_to(before.peers@.len(), ClientMessage::UpdatedJobQueue)
        &&& finished == (first_missing(marked) is None)
        &&& after.downloaded_pieces@ == marked
        &&& match first_missing(marked) {
            None => {
                &&& after == (Torrent {
                    downloaded_pieces: after.downloaded_pieces,
                    downloading_piece: after.downloading_piece,
                    downloading_piece_index: None,
                    ..before
                })
                &&& emptied(slots, after.downloading_piece@)
            },
            Some(next) => piece_started(
                Torrent { downloaded_pieces: after.downloaded_pieces, ..before },
                after,
                next as u32,
            ),
        }
    }
}

/// Whether `after` and `step` are what follows on `before` when the blocks of the current piece
/// are `slots`.
pub open spec fn slots_checked(
    before: Torrent,
    slots: Seq<Option<Block>>,
    after: Torrent,
    step: PieceStep,
) -> bool {
    if all_here(slots) && before.downloading_piece_index is Some {
        let index = before.downloading_piece_index->0;
        let bytes = joined_blocks(slots);
        piece_completed(
            before,
            slots,
            index,
            bytes,
            sha1_digest(bytes) == before.metainfo.pieces@[index as int]@,
            after,
            step,
        )
    } else {
        &&& step == PieceStep::Unfinished
        &&& after == (Torrent { downloading_piece: after.downloading_piece, ..before })
        &&& after.downloading_piece@ == slots
    }
}

/// Whether every block is there.
fn is_complete(slots: &Vec<Option<Block>>) -> (r: bool)
    ensures
        r == all_here(slots@),
{
    let n: usize = slots.len();
    let mut i: usize = 0;
    while i < n
        invariant
            i <= n == slots@.len(),
            forall|j: int| 0 <= j < i ==> (#[trigger] slots@[j]) is Some,
        decreases n - i,
    {
        if slots[i].is_none() {
            return false;
        }
        i = i + 1;
    }
    true
}

/// The bytes of the blocks that are there.
fn join_blocks(slots: &Vec<Option<Block>>) -> (bytes: Vec<u8>)
    ensures
        bytes@ == joined_blocks(slots@),
{
    let n: usize = slots.len();
    let mut bytes: Vec<u8> = Vec::new();
    let mut i: usize = 0;
    while i < n
        invariant
            i <= n == slots@.len(),
            bytes@ == joined_blocks(slots@.take(i as int)),
        decreases n - i,
    {
        assert(slots@.take(i + 1).drop_last() =~= slots@.take(i as int));
        match &slots[i] {
            Some(block) => {
                push_bytes(&mut bytes, block.bytes.as_slice());
            },
            None => {},
        }
        i = i + 1;
        assert(bytes@ =~= joined_blocks(slots@.take(i as int)));
    }
    assert(slots@.take(n as int) =~= slots@);
    bytes
}

/// Whether the files have so few bytes in all that every offset fits a `u32`.
pub open spec fn size_fits(metainfo: MetaInfo) -> bool {
    sum_of_lengths(metainfo.files@) <= u32::MAX
}

/// Whether every file has a name.
pub open spec fn files_are_named(metainfo: MetaInfo) -> bool {
    forall|i: int| 0 <= i < metainfo.files@.len() ==> (#[trigger] metainfo.files@[i]).path@.len()
        >= 1
}

/// Number of bytes of the files that a torrent file lists.
pub open spec fn sum_of_listed(files: Seq<FileView>) -> int
    decreases files.len(),
{
    if files.len() == 0 {
        0
    } else {
        sum_of_listed(files.drop_last()) + files.last().length
    }
}

/// The sums over a torrent file and over what it stands for are the same.
pub proof fn lemma_sum_of_listed(files: Seq<File>)
    ensures
        sum_of_listed(files_of(files)) == sum_of_lengths(files),
    decreases files.len(),
{
    if files.len() > 0 {
        lemma_sum_of_listed(files.drop_last());
        assert(files_of(files).drop_last() =~= files_of(files.drop_last()));
    }
}

/// Whether `bytes`, where they are a torrent file, list files of so few bytes that every offset
/// fits a `u32`.
pub open spec fn listed_size_fits(bytes: Seq<u8>) -> bool {
    match bencode_tree(bytes) {
        Ok(tree) => match parse_metainfo(tree) {
            Ok(metainfo) => sum_of_listed(metainfo.files) <= u32::MAX,
            Err(_) => true,
        },
        Err(_) => true,
    }
}

/// Whether every offset in the files of a torrent file fits a `u32`.
pub fn check_size(metainfo: &MetaInfo) -> (fits: bool)
    ensures
        fits == size_fits(*metainfo),
{
    let n: usize = metainfo.files.len();
    let ghost files = metainfo.files@;
    let mut total: u32 = 0;
    let mut i: usize = 0;
    while i < n
        invariant
            i <= n == files.len(),
            files == metainfo.files@,
            total == sum_of_lengths(files.take(i as int)),
        decreases n - i,
    {
        proof {
            assert(files.take(i + 1).drop_last() =~= files.take(i as int));
            crate::files::lemma_sum_of_lengths_grows(files, i + 1);
        }
        let length: u32 = metainfo.files[i].length;
        if length > u32::MAX - total {
            return false;
        }
        total = total + length;
        i = i + 1;
    }
    assert(files.take(n as int) =~= files);
    true
}

/// Whether `t` is a fresh torrent for `metainfo`: nothing downloaded, nobody connected.
pub open spec fn is_fresh(t: Torrent, metainfo: MetaInfo, port: u16) -> bool {
    &&& t.wf()
    &&& t.metainfo@ == metainfo@
    &&& t.port == port
    &&& laid_out(metainfo.files@, t.files@)
    &&& t.bytes_uploaded == 0
    &&& t.bytes_downloaded == 0
    &&& t.peers@.len() == 0
    &&& t.downloaded_pieces@ == Seq::new(metainfo.pieces@.len(), |i: int| false)
    &&& t.blocks_to_download@.len() == 0
    &&& t.downloading_piece_index is None
    &&& t.downloading_piece@.len() == 0
    &&& t.optimistic_unchoke_peer is None
}

impl Torrent {
    /// A torrent that has just been added, under the name `peer_id`.
    pub fn with_peer_id(metainfo: MetaInfo, port: u16, peer_id: [u8; 20]) -> (t: Torrent)
        requires
            size_fits(metainfo),
            files_are_named(metainfo),
        ensures
            is_fresh(t, metainfo, port),
            t.peer_id == peer_id,
            t.metainfo == metainfo,
    {
        let files: Vec<FileInfo> = lay_out(&metainfo.files);
        let pieces_len: usize = metainfo.pieces.len();
        let downloaded_pieces: Vec<bool> = vec![false; pieces_len];
        assert(downloaded_pieces@ =~= Seq::new(metainfo.pieces@.len(), |i: int| false));
        Torrent {
            metainfo,
            port,
            peer_id,
            files,
            bytes_uploaded: 0,
            bytes_downloaded: 0,
            peers: Vec::new(),
            downloaded_pieces,
            blocks_to_download: Vec::new(),
            downloading_piece_index: None,
            downloading_piece: Vec::new(),
            optimistic_unchoke_peer: None,
        }
    }

    /// A torrent that has just been added, under a random name.
    pub fn from_metainfo(metainfo: MetaInfo, port: u16) -> (t: Torrent)
        requires
            size_fits(metainfo),
            files_are_named(metainfo),
        ensures
            is_fresh(t, metainfo, port),
            t.metainfo == metainfo,
            forall|i: int| 0 <= i < 20 ==> is_alphanumeric(#[trigger] t.peer_id@[i]),
    {
        Torrent::with_peer_id(metainfo, port, random_id())
    }

    /// Adds the torrent that a torrent file describes.
    pub fn from_bytes(bytes: &[u8], port: u16) -> (r: Result<Torrent, MetaInfoError>)
        requires
            listed_size_fits(bytes@),
        ensures
            match bencode_tree(bytes@) {
                Err(text) => r matches Err(MetaInfoError::NotBencode(reason)) && reason@ == text,
                Ok(tree) => match r {
                    Ok(t) => {
                        &&& parse_metainfo(tree) == Ok::<
                            crate::metainfo::MetaInfoView,
                            MetaInfoError,
                        >(t.metainfo@)
                        &&& is_fresh(t, t.metainfo, port)
                        &&& forall|i: int|
                            0 <= i < 20 ==> is_alphanumeric(#[trigger] t.peer_id@[i])
                    },
                    Err(e) => parse_metainfo(tree) == Err::<
                        crate::metainfo::MetaInfoView,
                        MetaInfoError,
                    >(e),
                },
            },
    {
        match MetaInfo::from_bytes(bytes) {
            Err(e) => Err(e),
            Ok(metainfo) => {
                proof {
                    let tree = bencode_tree(bytes@)->Ok_0;
                    lemma_sum_of_listed(metainfo.files@);
                    law_metainfo_paths(tree);
                    assert forall|i: int| 0 <= i < metainfo.files@.len() implies (
                    #[trigger] metainfo.files@[i]).path@.len() >= 1 by {
                        assert(metainfo@.files[i].path.len() >= 1);
                    }
                }
                Ok(Torrent::from_metainfo(metainfo, port))
            },
        }
    }

    /// Adds the torrent that a torrent file describes, unless its files are so long that offsets
    /// do not fit a `u32`; then there is no torrent and no error either.
    pub fn from_bytes_if_it_fits(bytes: &[u8], port: u16) -> (r: Option<
        Result<Torrent, MetaInfoError>,
    >)
        ensures
            r is Some <==> listed_size_fits(bytes@),
            r matches Some(Ok(t)) ==> bencode_tree(bytes@) is Ok && parse_metainfo(
                bencode_tree(bytes@)->Ok_0,
            ) == Ok::<crate::metainfo::MetaInfoView, MetaInfoError>(t.metainfo@) && is_fresh(
                t,
                t.metainfo,
                port,
            ) && (forall|i: int| 0 <= i < 20 ==> is_alphanumeric(#[trigger] t.peer_id@[i])),
            r matches Some(Err(e)) ==> match bencode_tree(bytes@) {
                Err(text) => e matches MetaInfoError::NotBencode(reason) && reason@ == text,
                Ok(tree) => parse_metainfo(tree) == Err::<
                    crate::metainfo::MetaInfoView,
                    MetaInfoError,
                >(e),
            },
    {
        match MetaInfo::from_bytes(bytes) {
            Err(e) => {
                Some(Torrent::from_bytes(bytes, port))
            },
            Ok(metainfo) => {
                proof {
                    lemma_sum_of_listed(metainfo.files@);
                }
                if check_size(&metainfo) {
                    Some(Torrent::from_bytes(bytes, port))
                } else {
                    None
                }
            },
        }
    }
}

impl Torrent {
    /// Number of bytes of all the files.
    fn end_of_files(&self) -> (end: u32)
        requires
            self.wf(),
            self.files@.len() > 0,
        ensures
            end == total_length(self.files@),
    {
        let n: usize = self.files.len();
        let last: &FileInfo = &self.files[n - 1];
        proof {
            lemma_file_ends_fit(self.files@);
            assert(self.files@.drop_last() =~= self.files@.take(n - 1));
        }
        last.offset + last.length
    }

    /// Whether the download of a piece can begin.
    pub fn can_start_piece(&self, index: usize) -> (r: bool)
        requires
            self.wf(),
        ensures
            r == self.can_start(index as int),
    {
        if index > u32::MAX as usize || self.files.len() == 0 {
            return false;
        }
        let length: u64 = self.metainfo.piece_length as u64;
        let start: u64 = match (index as u64).checked_mul(length) {
            Some(start) => start,
            None => {
                return false;
            },
        };
        if start > u32::MAX as u64 || start + length > u32::MAX as u64 {
            return false;
        }
        let total: u64 = self.end_of_files() as u64;
        let end: u64 = if start + length < total {
            start + length
        } else {
            total
        };
        if end <= start {
            return false;
        }
        let size: u64 = end - start;
        ((size - 1) / BLOCK_SIZE as u64 + 1) * (BLOCK_SIZE as u64) <= u32::MAX as u64
    }

    /// Number of bytes of a piece.
    pub fn size_of_piece(&self, index: u32) -> (size: u32)
        requires
            self.wf(),
            self.can_start(index as int),
        ensures
            size == self.piece_size(index as int),
    {
        proof {
            assert(index * self.metainfo.piece_length >= 0) by (nonlinear_arith);
        }
        let start: u32 = index * self.metainfo.piece_length;
        let whole_end: u32 = start + self.metainfo.piece_length;
        let total: u32 = self.end_of_files();
        if whole_end < total {
            whole_end - start
        } else {
            total - start
        }
    }

    /// Begins the download of a piece.
    fn start_piece(&mut self, index: u32)
        requires
            old(self).wf(),
            old(self).can_start(index as int),
        ensures
            final(self).wf(),
            piece_started(*old(self), *final(self), index),
    {
        let size: u32 = self.size_of_piece(index);
        let count: usize = push_piece_blocks(&mut self.blocks_to_download, index, size);
        self.downloading_piece = no_blocks(count);
        self.downloading_piece_index = Some(index);
    }

    /// Whether the first missing piece, if any is missing, can begin.
    pub fn can_choose_first_piece(&self) -> (r: bool)
        requires
            self.wf(),
        ensures
            r == self.can_go_on(self.downloaded_pieces@),
    {
        match find_first_missing(&self.downloaded_pieces) {
            Some(index) => self.can_start_piece(index),
            None => true,
        }
    }

    /// Begins the download of the first piece that is missing. Returns its index; where no piece
    /// is missing, nothing happens.
    pub fn choose_first_piece(&mut self) -> (chosen: Option<u32>)
        requires
            old(self).wf(),
            old(self).can_go_on(old(self).downloaded_pieces@),
        ensures
            final(self).wf(),
            match first_missing(old(self).downloaded_pieces@) {
                None => chosen is None && *final(self) == *old(self),
                Some(index) => chosen == Some(index as u32) && piece_started(
                    *old(self),
                    *final(self),
                    index as u32,
                ),
            },
    {
        match find_first_missing(&self.downloaded_pieces) {
            None => None,
            Some(index) => {
                self.start_piece(index as u32);
                Some(index as u32)
            },
        }
    }

    /// What goes where when a piece is written.
    pub fn write_piece(&self, index: u32, bytes: &Vec<u8>) -> (writes: Vec<FileWrite>)
        requires
            self.wf(),
            self.can_place(index as int, bytes@.len()),
        ensures
            writes_of(writes@) == spread(
                sections(
                    self.files@,
                    self.piece_offset(index as int),
                    self.piece_offset(index as int) + low_32(bytes@.len()),
                ),
                bytes@,
            ),
    {
        proof {
            assert(index * self.metainfo.piece_length >= 0) by (nonlinear_arith);
            lemma_file_ends_fit(self.files@);
        }
        let start: u32 = index * self.metainfo.piece_length;
        let length: u32 = truncate_32(bytes.len());
        let parts: Vec<FileSection> = get_file_sections(&self.files, start, length);
        proof {
            assert(self.files.len() == self.files@.len());
            law_sections_cover_range(self.files@, start as int, start + length);
        }
        spread_bytes(&parts, bytes)
    }

    /// The parts of the files that hold a block. The bytes of the block are what they hold, one
    /// after the other.
    pub fn read_block(&self, info: &BlockInfo) -> (parts: Vec<FileSection>)
        requires
            self.wf(),
            self.piece_offset(info.index as int) + info.begin + info.length <= u32::MAX,
        ensures
            parts@ == sections(
                self.files@,
                self.piece_offset(info.index as int) + info.begin,
                self.piece_offset(info.index as int) + info.begin + info.length,
            ),
    {
        let index: u32 = info.index;
        proof {
            assert(index * self.metainfo.piece_length >= 0) by (nonlinear_arith);
            lemma_file_ends_fit(self.files@);
        }
        let start: u32 = index * self.metainfo.piece_length + info.begin;
        get_file_sections(&self.files, start, info.length)
    }

    /// Whether the offset of the end of a block fits.
    pub fn can_read_block(&self, info: &BlockInfo) -> (r: bool)
        ensures
            r == (self.piece_offset(info.index as int) + info.begin + info.length <= u32::MAX),
    {
        match (info.index as u64).checked_mul(self.metainfo.piece_length as u64) {
            None => false,
            Some(start) => start <= u32::MAX as u64 && start + info.begin as u64
                + info.length as u64 <= u32::MAX as u64,
        }
    }

    /// The parts of the files that hold a piece.
    pub fn piece_sections(&self, index: u32) -> (parts: Vec<FileSection>)
        requires
            self.wf(),
            self.piece_offset(index as int) + self.metainfo.piece_length <= u32::MAX,
        ensures
            parts@ == sections(
                self.files@,
                self.piece_offset(index as int),
                self.piece_offset(index as int) + self.metainfo.piece_length,
            ),
    {
        proof {
            assert(index * self.metainfo.piece_length >= 0) by (nonlinear_arith);
            lemma_file_ends_fit(self.files@);
        }
        let start: u32 = index * self.metainfo.piece_length;
        get_file_sections(&self.files, start, self.metainfo.piece_length)
    }

    /// Whether `digest` is the digest of a piece.
    pub fn is_piece_digest(&self, index: u32, digest: &[u8; 20]) -> (right: bool)
        requires
            index < self.metainfo.pieces@.len(),
        ensures
            right == (digest@ == self.metainfo.pieces@[index as int]@),
    {
        same_bytes(digest.as_slice(), self.metainfo.pieces[index as usize].as_slice())
    }

    /// Whether `bytes`, which the files hold in the place of a piece, are that piece.
    pub fn check_piece_hash(&self, index: u32, bytes: &Vec<u8>) -> (right: bool)
        requires
            index < self.metainfo.pieces@.len(),
        ensures
            right == (sha1_digest(bytes@) == self.metainfo.pieces@[index as int]@),
    {
        let digest: [u8; 20] = sha1_hash(bytes.as_slice());
        self.is_piece_digest(index, &digest)
    }

    /// For each piece whether the bytes which the files hold in its place are that piece.
    pub fn check_whole_hash(&self, held: &Vec<Vec<u8>>) -> (good: Vec<bool>)
        requires
            held@.len() == self.metainfo.pieces@.len(),
            held@.len() <= u32::MAX + 1,
        ensures
            good@ == Seq::new(
                held@.len(),
                |i: int| sha1_digest(held@[i]@) == self.metainfo.pieces@[i]@,
            ),
    {
        let n: usize = held.len();
        let mut good: Vec<bool> = Vec::new();
        let mut i: usize = 0;
        while i < n
            invariant
                i <= n == held@.len() == self.metainfo.pieces@.len(),
                n <= u32::MAX + 1,
                good@.len() == i,
                forall|j: int|
                    0 <= j < i ==> #[trigger] good@[j] == (sha1_digest(held@[j]@)
                        == self.metainfo.pieces@[j]@),
            decreases n - i,
        {
            good.push(self.check_piece_hash(i as u32, &held[i]));
            i = i + 1;
        }
        good
    }

    /// Number of bytes that are still missing, when each missing piece is taken to be a whole one.
    pub fn bytes_left(&self) -> (left: u32)
        requires
            missing_count(self.downloaded_pieces@) <= u32::MAX,
            missing_count(self.downloaded_pieces@) * self.metainfo.piece_length <= u32::MAX,
        ensures
            left == missing_count(self.downloaded_pieces@) * self.metainfo.piece_length,
    {
        let count: u32 = count_missing(&self.downloaded_pieces) as u32;
        assert(count * self.metainfo.piece_length >= 0) by (nonlinear_arith);
        count * self.metainfo.piece_length
    }

    /// Number of bytes that are still missing, where it fits.
    pub fn bytes_left_if_it_fits(&self) -> (left: Option<u32>)
        ensures
            left is Some <==> missing_count(self.downloaded_pieces@) <= u32::MAX && missing_count(
                self.downloaded_pieces@,
            ) * self.metainfo.piece_length <= u32::MAX,
            left matches Some(n) ==> n == missing_count(self.downloaded_pieces@)
                * self.metainfo.piece_length,
    {
        let count: usize = count_missing(&self.downloaded_pieces);
        if count > u32::MAX as usize {
            return None;
        }
        match (count as u64).checked_mul(self.metainfo.piece_length as u64) {
            Some(product) => if product <= u32::MAX as u64 {
                Some(self.bytes_left())
            } else {
                None
            },
            None => None,
        }
    }
}

/// Takes the bytes out of blocks, which keep their coordinates.
fn empty_blocks(slots: &Vec<Option<Block>>) -> (after: Vec<Option<Block>>)
    requires
        all_here(slots@),
    ensures
        emptied(slots@, after@),
{
    let n: usize = slots.len();
    let mut after: Vec<Option<Block>> = Vec::new();
    let mut i: usize = 0;
    while i < n
        invariant
            i <= n == slots@.len(),
            all_here(slots@),
            emptied(slots@.take(i as int), after@),
        decreases n - i,
    {
        assert(slots@[i as int] is Some);
        match &slots[i] {
            Some(block) => {
                after.push(Some(Block { info: block.info, bytes: Vec::new() }));
            },
            None => {},
        }
        i = i + 1;
        assert forall|j: int| 0 <= j < after@.len() implies (#[trigger] after@[j]) is Some
            && after@[j]->0.info == slots@.take(i as int)[j]->0.info && after@[j]->0.bytes@.len()
            == 0 by {
            if j < i - 1 {
                assert(slots@.take(i as int)[j] == slots@.take(i - 1)[j]);
            }
        }
    }
    assert(slots@.take(n as int) =~= slots@);
    after
}

/// Appends the coordinates of blocks that are there.
fn push_infos(out: &mut Vec<BlockInfo>, slots: &Vec<Option<Block>>)
    requires
        all_here(slots@),
    ensures
        final(out)@ == old(out)@ + infos_of(slots@),
{
    let n: usize = slots.len();
    let mut i: usize = 0;
    assert(out@ =~= old(out)@ + infos_of(slots@).take(0));
    while i < n
        invariant
            i <= n == slots@.len(),
            all_here(slots@),
            out@ == old(out)@ + infos_of(slots@).take(i as int),
        decreases n - i,
    {
        assert(slots@[i as int] is Some);
        match &slots[i] {
            Some(block) => {
                out.push(block.info);
            },
            None => {},
        }
        i = i + 1;
        assert(out@ =~= old(out)@ + infos_of(slots@).take(i as int));
    }
    assert(infos_of(slots@).take(n as int) =~= infos_of(slots@));
}

/// `n` empty places for blocks.
fn no_blocks(n: usize) -> (slots: Vec<Option<Block>>)
    ensures
        slots@.len() == n,
        forall|i: int| 0 <= i < n ==> (#[trigger] slots@[i]) is None,
{
    let mut slots: Vec<Option<Block>> = Vec::new();
    let mut i: usize = 0;
    while i < n
        invariant
            i <= n,
            slots@.len() == i,
            forall|j: int| 0 <= j < i ==> (#[trigger] slots@[j]) is None,
        decreases n - i,
    {
        slots.push(None);
        i = i + 1;
    }
    slots
}

impl Torrent {
    /// Tells every peer that there may be blocks to ask for.
    pub fn alert_peers_updated_job_queue(&self) -> (notices: Vec<Notice>)
        ensures
            notices@ == broadcast_to(self.peers@.len(), ClientMessage::UpdatedJobQueue),
    {
        let mut notices: Vec<Notice> = Vec::new();
        push_broadcast(&mut notices, self.peers.len(), ClientMessage::UpdatedJobQueue);
        assert(notices@ =~= broadcast_to(self.peers@.len(), ClientMessage::UpdatedJobQueue));
        notices
    }

    /// What follows when the current piece is complete: `bytes` are the bytes of its blocks and
    /// `digest` is their digest. A piece with the right digest is written and marked, the peers
    /// are told, and the next missing piece begins. Of a piece with another digest all blocks are
    /// asked for again.
    pub fn piece_finished(&mut self, bytes: &Vec<u8>, digest: &[u8; 20]) -> (step: PieceStep)
        requires
            old(self).wf(),
            all_here(old(self).downloading_piece@),
            old(self).downloading_piece_index matches Some(index) && index < old(
                self,
            ).metainfo.pieces@.len() && (digest@ == old(self).metainfo.pieces@[index as int]@ ==> old(
                self,
            ).can_place(index as int, bytes@.len()) && old(self).can_go_on(
                old(self).downloaded_pieces@.update(index as int, true),
            )),
        ensures
            final(self).wf(),
            piece_completed(
                *old(self),
                old(self).downloading_piece@,
                old(self).downloading_piece_index->0,
                bytes@,
                digest@ == old(self).metainfo.pieces@[old(self).downloading_piece_index->0 as int]@,
                *final(self),
                step,
            ),
    {
        let index: u32 = match self.downloading_piece_index {
            Some(index) => index,
            None => 0,
        };
        if !self.is_piece_digest(index, digest) {
            let n: usize = self.downloading_piece.len();
            push_infos(&mut self.blocks_to_download, &self.downloading_piece);
            self.downloading_piece = no_blocks(n);
            return PieceStep::Bad(index);
        }
        let writes: Vec<FileWrite> = self.write_piece(index, bytes);
        self.downloaded_pieces.set(index as usize, true);
        let mut notices: Vec<Notice> = Vec::new();
        push_broadcast(&mut notices, self.peers.len(), ClientMessage::PieceDownloaded(index));
        let finished: bool = match find_first_missing(&self.downloaded_pieces) {
            None => {
                self.downloading_piece = empty_blocks(&self.downloading_piece);
                self.downloading_piece_index = None;
                true
            },
            Some(next) => {
                self.start_piece(next as u32);
                false
            },
        };
        push_broadcast(&mut notices, self.peers.len(), ClientMessage::UpdatedJobQueue);
        proof {
            assert(Seq::<Notice>::empty() + broadcast_to(
                old(self).peers@.len(),
                ClientMessage::PieceDownloaded(index),
            ) =~= broadcast_to(old(self).peers@.len(), ClientMessage::PieceDownloaded(index)));
        }
        PieceStep::Good { index, writes, notices, finished }
    }

    /// Where the current piece is complete, checks it and goes on to the next.
    pub fn try_choose_new_piece(&mut self) -> (step: PieceStep)
        requires
            old(self).wf(),
            old(self).can_take(old(self).downloading_piece@),
        ensures
            final(self).wf(),
            slots_checked(*old(self), old(self).downloading_piece@, *final(self), step),
    {
        if is_complete(&self.downloading_piece) && self.downloading_piece_index.is_some() {
            let bytes: Vec<u8> = join_blocks(&self.downloading_piece);
            let digest: [u8; 20] = sha1_hash(bytes.as_slice());
            self.piece_finished(&bytes, &digest)
        } else {
            PieceStep::Unfinished
        }
    }

    /// Puts a block that has arrived in its place. Where the current piece is complete with it,
    /// the piece is checked and the next one begins.
    pub fn block_downloaded(&mut self, block: Block) -> (step: PieceStep)
        requires
            old(self).wf(),
            old(self).slot_of(block.info) < old(self).downloading_piece@.len(),
            old(self).can_take(old(self).with_block(block)),
        ensures
            final(self).wf(),
            slots_checked(*old(self), old(self).with_block(block), *final(self), step),
    {
        let slot: usize = (block.info.begin / BLOCK_SIZE) as usize;
        self.downloading_piece.set(slot, Some(block));
        self.try_choose_new_piece()
    }

    /// Puts a block that has arrived in its place, where it has one and what follows is without
    /// trouble; otherwise nothing happens.
    pub fn block_downloaded_if_accepted(&mut self, block: Block) -> (step: Option<PieceStep>)
        requires
            old(self).wf(),
        ensures
            final(self).wf(),
            step is Some <==> old(self).slot_of(block.info) < old(self).downloading_piece@.len()
                && old(self).can_take(old(self).with_block(block)),
            match step {
                Some(step) => slots_checked(
                    *old(self),
                    old(self).with_block(block),
                    *final(self),
                    step,
                ),
                None => *final(self) == *old(self),
            },
    {
        if self.accepts_block(&block) {
            Some(self.block_downloaded(block))
        } else {
            None
        }
    }

    /// The coordinates of the blocks of the current piece, if the piece is complete with `block`.
    pub fn completed_by(&self, block: &Block) -> (infos: Option<Vec<BlockInfo>>)
        requires
            self.slot_of(block.info) < self.downloading_piece@.len(),
        ensures
            match infos {
                Some(infos) => all_here(self.with_block(*block)) && infos@ == infos_of(
                    self.with_block(*block),
                ),
                None => !all_here(self.with_block(*block)),
            },
    {
        let slot: usize = (block.info.begin / BLOCK_SIZE) as usize;
        let n: usize = self.downloading_piece.len();
        let ghost slots = self.with_block(*block);
        let mut infos: Vec<BlockInfo> = Vec::new();
        let mut i: usize = 0;
        while i < n
            invariant
                i <= n == self.downloading_piece@.len() == slots.len(),
                slot < n,
                slot == self.slot_of(block.info),
                slots == self.with_block(*block),
                infos@.len() == i,
                forall|j: int|
                    0 <= j < i ==> (#[trigger] slots[j]) is Some && slots[j]->0.info == infos@[j],
            decreases n - i,
        {
            if i == slot {
                infos.push(block.info);
            } else {
                match &self.downloading_piece[i] {
                    Some(other) => {
                        infos.push(other.info);
                    },
                    None => {
                        assert(slots[i as int] is None);
                        return None;
                    },
                }
            }
            i = i + 1;
        }
        assert(infos@ =~= infos_of(slots));
        Some(infos)
    }

    /// The bytes of the current piece, as far as they have arrived, with `block`.
    pub fn bytes_with(&self, block: &Block) -> (bytes: Vec<u8>)
        requires
            self.slot_of(block.info) < self.downloading_piece@.len(),
        ensures
            bytes@ == joined_blocks(self.with_block(*block)),
    {
        let slot: usize = (block.info.begin / BLOCK_SIZE) as usize;
        let n: usize = self.downloading_piece.len();
        let ghost slots = self.with_block(*block);
        let mut bytes: Vec<u8> = Vec::new();
        let mut i: usize = 0;
        while i < n
            invariant
                i <= n == self.downloading_piece@.len() == slots.len(),
                slot < n,
                slot == self.slot_of(block.info),
                slots == self.with_block(*block),
                bytes@ == joined_blocks(slots.take(i as int)),
            decreases n - i,
        {
            assert(slots.take(i + 1).drop_last() =~= slots.take(i as int));
            if i == slot {
                push_bytes(&mut bytes, block.bytes.as_slice());
            } else {
                match &self.downloading_piece[i] {
                    Some(other) => {
                        push_bytes(&mut bytes, other.bytes.as_slice());
                    },
                    None => {},
                }
            }
            i = i + 1;
            assert(bytes@ =~= joined_blocks(slots.take(i as int)));
        }
        assert(slots.take(n as int) =~= slots);
        bytes
    }

    /// Whether a block has a place in the current piece and what follows its arrival is without
    /// trouble.
    pub fn accepts_block(&self, block: &Block) -> (r: bool)
        requires
            self.wf(),
        ensures
            r == (self.slot_of(block.info) < self.downloading_piece@.len() && self.can_take(
                self.with_block(*block),
            )),
    {
        if (block.info.begin / BLOCK_SIZE) as usize >= self.downloading_piece.len() {
            return false;
        }
        if self.completed_by(block).is_none() {
            return true;
        }
        let index: u32 = match self.downloading_piece_index {
            Some(index) => index,
            None => {
                return true;
            },
        };
        if self.blocks_to_download.len() != 0 || index as usize >= self.metainfo.pieces.len() {
            return false;
        }
        let bytes: Vec<u8> = self.bytes_with(block);
        let digest: [u8; 20] = sha1_hash(bytes.as_slice());
        if !self.is_piece_digest(index, &digest) {
            return true;
        }
        let start: u64 = match (index as u64).checked_mul(self.metainfo.piece_length as u64) {
            Some(start) => start,
            None => {
                return false;
            },
        };
        if start > u32::MAX as u64 || start + truncate_32(bytes.len()) as u64 > u32::MAX as u64 {
            return false;
        }
        let mut marked: Vec<bool> = self.downloaded_pieces.clone();
        assert(marked@ =~= self.downloaded_pieces@);
        marked.set(index as usize, true);
        match find_first_missing(&marked) {
            Some(next) => self.can_start_piece(next),
            None => true,
        }
    }
}

impl Torrent {
    /// Takes the addresses that the tracker gave as the peers, except that of this client.
    pub fn set_peers(&mut self, addresses: &Vec<PeerAddress>)
        ensures
            final(self).peers@ == without(addresses@, local_address(old(self).port)),
            *final(self) == (Torrent { peers: final(self).peers, ..*old(self) }),
    {
        self.peers = other_peers(addresses, self.port);
    }

    /// Adds a peer that has joined.
    pub fn add_peer(&mut self, address: PeerAddress)
        ensures
            final(self).peers@ == old(self).peers@.push(address),
            *final(self) == (Torrent { peers: final(self).peers, ..*old(self) }),
    {
        self.peers.push(address);
    }

    /// Forgets the peers at an address.
    pub fn disconnect_peer(&mut self, address: PeerAddress)
        ensures
            final(self).peers@ == without(old(self).peers@, address),
            *final(self) == (Torrent { peers: final(self).peers, ..*old(self) }),
    {
        self.peers = remove_address(&self.peers, address);
    }

    /// Takes note of which pieces are there.
    pub fn set_downloaded(&mut self, good: Vec<bool>)
        requires
            old(self).wf(),
            good@.len() == old(self).metainfo.pieces@.len(),
        ensures
            final(self).wf(),
            *final(self) == (Torrent { downloaded_pieces: good, ..*old(self) }),
    {
        self.downloaded_pieces = good;
    }
}

/// A piece is marked as there only when its bytes have the right digest, and stays marked.
pub proof fn law_only_right_pieces_are_marked(
    before: Torrent,
    slots: Seq<Option<Block>>,
    after: Torrent,
    step: PieceStep,
    piece: int,
)
    requires
        before.wf(),
        before.can_take(slots),
        slots_checked(before, slots, after, step),
        0 <= piece < before.downloaded_pieces@.len(),
    ensures
        before.downloaded_pieces@[piece] ==> after.downloaded_pieces@[piece],
        after.downloaded_pieces@[piece] && !before.downloaded_pieces@[piece] ==> {
            &&& before.downloading_piece_index == Some(piece as u32)
            &&& all_here(slots)
            &&& sha1_digest(joined_blocks(slots)) == before.metainfo.pieces@[piece]@
        },
{
}

/// When a piece turns out bad, no place is filled any more and every block of it is to be asked
/// for again, in its old order.
pub proof fn law_bad_piece_is_fetched_again(
    before: Torrent,
    slots: Seq<Option<Block>>,
    after: Torrent,
    step: PieceStep,
)
    requires
        before.can_take(slots),
        slots_checked(before, slots, after, step),
        step is Bad,
    ensures
        after.downloading_piece_index == before.downloading_piece_index,
        after.downloaded_pieces@ == before.downloaded_pieces@,
        after.blocks_to_download@ == infos_of(slots),
        after.downloading_piece@.len() == slots.len(),
        forall|i: int| 0 <= i < slots.len() ==> (#[trigger] after.downloading_piece@[i]) is None,
{
    assert(before.blocks_to_download@ + infos_of(slots) =~= infos_of(slots));
}

/// The piece that is chosen is never one that is there, and every piece before it is there; once
/// every piece is there, none is chosen.
pub proof fn law_next_piece_is_missing(
    before: Torrent,
    slots: Seq<Option<Block>>,
    after: Torrent,
    step: PieceStep,
)
    requires
        before.wf(),
        before.can_take(slots),
        slots_checked(before, slots, after, step),
        step is Good,
    ensures
        match after.downloading_piece_index {
            Some(next) => {
                &&& next < after.downloaded_pieces@.len()
                &&& !after.downloaded_pieces@[next as int]
                &&& forall|i: int| 0 <= i < next ==> after.downloaded_pieces@[i]
            },
            None => forall|i: int|
                0 <= i < after.downloaded_pieces@.len() ==> after.downloaded_pieces@[i],
        },
        step->finished == (after.downloading_piece_index is None),
{
    law_first_missing(after.downloaded_pieces@);
}

/// Nothing is left to download exactly when every piece is there, provided that pieces are not
/// empty.
pub proof fn law_nothing_left_when_all_is_there(downloaded: Seq<bool>, piece_length: u32)
    requires
        piece_length > 0,
    ensures
        missing_count(downloaded) * piece_length == 0 <==> forall|i: int|
            0 <= i < downloaded.len() ==> downloaded[i],
{
    law_nothing_missing(downloaded);
    law_first_missing(downloaded);
    let count = missing_count(downloaded);
    assert(count * piece_length == 0 <==> count == 0) by (nonlinear_arith)
        requires
            piece_length > 0,
            count >= 0,
    ;
}

/// What the files hold of a good piece, once it is written, is the piece; the other bytes of the
/// files are as before. So every block of the piece that is read is the one that arrived.
pub proof fn law_piece_can_be_read_back(
    t: Torrent,
    disk: Seq<Seq<u8>>,
    index: u32,
    bytes: Seq<u8>,
    from: int,
    length: int,
)
    requires
        t.wf(),
        t.files@.len() <= disk.len(),
        t.files@.len() <= usize::MAX,
        t.piece_offset(index as int) + bytes.len() <= total_length(t.files@),
        0 <= from,
        0 <= length,
        from + length <= bytes.len(),
    ensures
        ({
            let start = t.piece_offset(index as int);
            let after = after_writes(
                disk,
                spread(sections(t.files@, start, start + low_32(bytes.len())), bytes),
            );
            &&& read_sections(after, sections(t.files@, start + from, start + from + length))
                == bytes.subrange(from, from + length)
            &&& contents(t.files@, after) == contents(t.files@, disk).take(start) + bytes
                + contents(t.files@, disk).skip(start + bytes.len())
        }),
{
    let start = t.piece_offset(index as int);
    assert(index * t.metainfo.piece_length >= 0) by (nonlinear_arith);
    assert(low_32(bytes.len()) == bytes.len());
    law_read_gives_back_write(t.files@, disk, start, bytes, from, length);
    law_writes_replace_range(t.files@, disk, start, bytes);
}

/// What the files hold in the place of a piece.
pub open spec fn piece_on_disk(t: Torrent, disk: Seq<Seq<u8>>, index: u32) -> Seq<u8> {
    read_sections(
        disk,
        sections(
            t.files@,
            t.piece_offset(index as int),
            t.piece_offset(index as int) + t.metainfo.piece_length,
        ),
    )
}

/// A piece that is found good and written is found good again when the files are checked, and the
/// check of every other piece comes out as before.
pub proof fn law_written_piece_passes_check(
    t: Torrent,
    disk: Seq<Seq<u8>>,
    index: u32,
    bytes: Seq<u8>,
    other: u32,
)
    requires
        t.wf(),
        t.files@.len() <= disk.len(),
        t.files@.len() <= usize::MAX,
        t.can_start(index as int),
        bytes.len() == t.piece_size(index as int),
    ensures
        ({
            let start = t.piece_offset(index as int);
            let after = after_writes(
                disk,
                spread(sections(t.files@, start, start + low_32(bytes.len())), bytes),
            );
            &&& piece_on_disk(t, after, index) == bytes
            &&& other != index ==> piece_on_disk(t, after, other) == piece_on_disk(t, disk, other)
        }),
{
    let length = t.metainfo.piece_length as int;
    let start = t.piece_offset(index as int);
    let start_of_other = t.piece_offset(other as int);
    let total = total_length(t.files@);
    assert(index * length >= 0) by (nonlinear_arith)
        requires
            length >= 0,
    ;
    assert(other * length >= 0) by (nonlinear_arith)
        requires
            length >= 0,
    ;
    let after = after_writes(
        disk,
        spread(sections(t.files@, start, start + low_32(bytes.len())), bytes),
    );
    law_piece_can_be_read_back(t, disk, index, bytes, 0, bytes.len() as int);
    law_sections_read_contents(t.files@, after, start, start + length);
    law_sections_read_contents(t.files@, after, start_of_other, start_of_other + length);
    law_sections_read_contents(t.files@, disk, start_of_other, start_of_other + length);
    lemma_contents_length(t.files@, disk);
    let held = contents(t.files@, disk);
    let now = contents(t.files@, after);
    assert(now.subrange(at_most(start, total), at_most(start + length, total)) =~= bytes);
    if other != index {
        if other < index {
            assert(other * length + length <= index * length) by (nonlinear_arith)
                requires
                    other + 1 <= index,
                    length >= 0,
            ;
        } else {
            assert(index * length + length <= other * length) by (nonlinear_arith)
                requires
                    index + 1 <= other,
                    length >= 0,
            ;
        }
        assert(now.subrange(at_most(start_of_other, total), at_most(start_of_other + length, total))
            =~= held.subrange(
            at_most(start_of_other, total),
            at_most(start_of_other + length, total),
        ));
    }
}

} // verus!
