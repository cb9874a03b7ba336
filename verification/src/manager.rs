//! The torrents of this client.
use crate::bencode::bencode_tree;
use crate::bytes::is_alphanumeric;
use crate::metainfo::{parse_metainfo, MetaInfo, MetaInfoError, MetaInfoView};
use crate::torrent::{check_size, is_fresh, lemma_sum_of_listed, listed_size_fits, Torrent};
use vstd::prelude::*;

verus! {

/// The port on which every torrent is served.
pub const PORT: u16 = 6969;

pub struct TorrentManager {
    pub torrents: Vec<Torrent>,
}

/// Whether `after` is `before` with the torrent that a torrent file describes, or unchanged with
/// the error where the file describes none.
pub open spec fn is_added(
    before: Seq<Torrent>,
    bytes: Seq<u8>,
    after: Seq<Torrent>,
    r: Result<(), MetaInfoError>,
) -> bool {
    match r {
        Ok(_) => {
            &&& after.len() == before.len() + 1
            &&& after.drop_last() == before
            &&& bencode_tree(bytes) is Ok
            &&& parse_metainfo(bencode_tree(bytes)->Ok_0) == Ok::<MetaInfoView, MetaInfoError>(
                after.last().metainfo@,
            )
            &&& is_fresh(after.last(), after.last().metainfo, PORT)
            &&& forall|i: int| 0 <= i < 20 ==> is_alphanumeric(#[trigger] after.last().peer_id@[i])
        },
        Err(e) => {
            &&& after == before
            &&& match bencode_tree(bytes) {
                Err(text) => e matches MetaInfoError::NotBencode(reason) && reason@ == text,
                Ok(tree) => parse_metainfo(tree) == Err::<MetaInfoView, MetaInfoError>(e),
            }
        },
    }
}

impl TorrentManager {
    /// A client without torrents.
    pub fn new() -> (manager: TorrentManager)
        ensures
            manager.torrents@.len() == 0,
    {
        TorrentManager { torrents: Vec::new() }
    }

    /// A port for one more torrent.
    pub fn free_port(&self) -> (port: u16)
        ensures
            port == PORT,
    {
        PORT
    }

    /// Adds the torrent that a torrent file describes.
    pub fn add_torrent(&mut self, bytes: &[u8]) -> (r: Result<(), MetaInfoError>)
        requires
            listed_size_fits(bytes@),
        ensures
            is_added(old(self).torrents@, bytes@, final(self).torrents@, r),
    {
        let port: u16 = self.free_port();
        match Torrent::from_bytes(bytes, port) {
            Err(e) => Err(e),
            Ok(torrent) => {
                self.torrents.push(torrent);
                assert(self.torrents@.drop_last() =~= old(self).torrents@);
                Ok(())
            },
        }
    }

    /// Adds the torrent that a torrent file describes, unless its files are so long that offsets
    /// do not fit a `u32`; then nothing is added.
    pub fn add_torrent_if_it_fits(&mut self, bytes: &[u8]) -> (r: Option<Result<(), MetaInfoError>>)
        ensures
            r is Some <==> listed_size_fits(bytes@),
            match r {
                Some(result) => is_added(
                    old(self).torrents@,
                    bytes@,
                    final(self).torrents@,
                    result,
                ),
                None => *final(self) == *old(self),
            },
    {
        match MetaInfo::from_bytes(bytes) {
            Err(_) => Some(self.add_torrent(bytes)),
            Ok(metainfo) => {
                proof {
                    lemma_sum_of_listed(metainfo.files@);
                }
                if check_size(&metainfo) {
                    Some(self.add_torrent(bytes))
                } else {
                    None
                }
            },
        }
    }
}

} // verus!
