//! What is known of a peer, and how much is asked of it at a time.
use crate::constants::BLOCK_SIZE;
use crate::jobs::{one_less, passed_over, picked, pieces_known, push_jobs, remove_job, take_jobs};
use crate::metainfo::MetaInfo;
use crate::peer_message::BlockInfo;
use crate::rolling::{
    average, is_window, law_average_is_bounded, law_recorded_is_window, record, recorded,
    rolling_average,
};
use vstd::prelude::*;

verus! {

pub struct PeerInfo {
    /// The name by which the peer goes; it has none before the handshake.
    pub peer_id: Option<[u8; 20]>,
    pub am_choking: bool,
    pub am_interested: bool,
    pub peer_choking: bool,
    pub peer_interested: bool,
    /// Number of bytes that have come from the peer.
    pub total_downloaded_from: u32,
    /// Number of bytes that have gone to the peer.
    pub total_uploaded_to: u32,
    /// What the totals were a second ago.
    pub prev_total_downloaded_from: u32,
    pub prev_total_uploaded_to: u32,
    /// Number of bytes in each of the last seconds, the latest first.
    pub rolling_download: Vec<u32>,
    pub rolling_upload: Vec<u32>,
    /// Number of blocks that the peer may be asked for at a time.
    pub queue_size: usize,
    /// For each piece whether the peer has it.
    pub piece_availability: Vec<bool>,
    /// Blocks that the peer has been asked for.
    pub requested_blocks: Vec<BlockInfo>,
    /// Whether the queue still grows with every block.
    pub in_slow_start: bool,
}

impl PeerInfo {
    /// The windows are not empty and equally long, and what they hold in all is no more than has
    /// been transferred.
    pub open spec fn wf(&self) -> bool {
        &&& is_window(self.rolling_download@, self.prev_total_downloaded_from as int)
        &&& is_window(self.rolling_upload@, self.prev_total_uploaded_to as int)
        &&& self.rolling_download@.len() == self.rolling_upload@.len()
        &&& self.prev_total_downloaded_from <= self.total_downloaded_from
        &&& self.prev_total_uploaded_to <= self.total_uploaded_to
    }

    /// Number of bytes that have come from the peer in this second.
    pub open spec fn download_delta(&self) -> u32 {
        (self.total_downloaded_from - self.prev_total_downloaded_from) as u32
    }

    /// Number of bytes that have gone to the peer in this second.
    pub open spec fn upload_delta(&self) -> u32 {
        (self.total_uploaded_to - self.prev_total_uploaded_to) as u32
    }

    /// Whether the peer is asked for nothing: it has been asked for enough, it chokes this client,
    /// or there is nothing to ask for.
    pub open spec fn asks_nothing(&self, available_jobs: Seq<BlockInfo>) -> bool {
        ||| self.requested_blocks@.len() >= self.queue_size
        ||| self.peer_choking
        ||| available_jobs.len() == 0
    }

    /// Number of blocks that the peer can be asked for besides.
    pub open spec fn room(&self) -> nat {
        (self.queue_size - self.requested_blocks@.len()) as nat
    }
}

/// The queue size that suits a download rate outside of slow start.
pub open spec fn queue_size_for(rate: int) -> int {
    if rate / (BLOCK_SIZE as int) > 1 {
        rate / (BLOCK_SIZE as int)
    } else {
        1
    }
}

/// Whether `after` is `before` with the averages brought up to date.
pub open spec fn averages_updated(before: PeerInfo, after: PeerInfo) -> bool {
    &&& after.rolling_download@ == recorded(before.rolling_download@, before.download_delta())
    &&& after.rolling_upload@ == recorded(before.rolling_upload@, before.upload_delta())
    &&& after == (PeerInfo {
        rolling_download: after.rolling_download,
        rolling_upload: after.rolling_upload,
        prev_total_downloaded_from: before.total_downloaded_from,
        prev_total_uploaded_to: before.total_uploaded_to,
        ..before
    })
}

/// `before` with the queue size that suits its download rate.
pub open spec fn queue_size_updated(before: PeerInfo) -> PeerInfo {
    PeerInfo {
        queue_size: if before.in_slow_start {
            before.queue_size
        } else {
            queue_size_for(average(before.rolling_download@)) as usize
        },
        ..before
    }
}

/// `before` out of slow start, where the latest second was clearly worse than the average.
pub open spec fn slow_start_checked(before: PeerInfo) -> PeerInfo {
    PeerInfo {
        in_slow_start: before.in_slow_start && before.rolling_download@[0] + 10000 >= average(
            before.rolling_download@,
        ),
        ..before
    }
}

/// Whether nothing is known of the peer yet.
pub open spec fn is_new(info: PeerInfo, pieces: nat) -> bool {
    &&& info.peer_id is None
    &&& info.am_choking
    &&& !info.am_interested
    &&& info.peer_choking
    &&& !info.peer_interested
    &&& info.total_downloaded_from == 0
    &&& info.total_uploaded_to == 0
    &&& info.prev_total_downloaded_from == 0
    &&& info.prev_total_uploaded_to == 0
    &&& info.rolling_download@ == seq![0u32]
    &&& info.rolling_upload@ == seq![0u32]
    &&& info.queue_size == 2
    &&& info.piece_availability@ == Seq::new(pieces, |i: int| false)
    &&& info.requested_blocks@.len() == 0
    &&& info.in_slow_start
}

/// Whether `after` is `before` a second later: what was transferred is recorded, and then queue
/// size and slow start are brought up to date.
pub open spec fn ticked(before: PeerInfo, after: PeerInfo) -> bool {
    &&& after.rolling_download@ == recorded(before.rolling_download@, before.download_delta())
    &&& after.rolling_upload@ == recorded(before.rolling_upload@, before.upload_delta())
    &&& after == (PeerInfo {
        rolling_download: after.rolling_download,
        rolling_upload: after.rolling_upload,
        prev_total_downloaded_from: before.total_downloaded_from,
        prev_total_uploaded_to: before.total_uploaded_to,
        queue_size: if before.in_slow_start {
            before.queue_size
        } else {
            queue_size_for(average(after.rolling_download@)) as usize
        },
        in_slow_start: before.in_slow_start && before.download_delta() + 10000 >= average(
            after.rolling_download@,
        ),
        ..before
    })
}

impl PeerInfo {
    /// A peer of which nothing is known.
    pub fn new(metainfo: &MetaInfo) -> (info: PeerInfo)
        ensures
            info.wf(),
            is_new(info, metainfo.pieces@.len()),
    {
        let pieces: usize = metainfo.pieces.len();
        let piece_availability: Vec<bool> = vec![false; pieces];
        let mut rolling_download: Vec<u32> = Vec::new();
        rolling_download.push(0);
        let mut rolling_upload: Vec<u32> = Vec::new();
        rolling_upload.push(0);
        proof {
            reveal_with_fuel(crate::rolling::total, 2);
            assert(rolling_download@ =~= seq![0u32]);
            assert(rolling_upload@ =~= seq![0u32]);
            assert(piece_availability@ =~= Seq::new(metainfo.pieces@.len(), |i: int| false));
        }
        PeerInfo {
            peer_id: None,
            am_choking: true,
            am_interested: false,
            peer_choking: true,
            peer_interested: false,
            total_downloaded_from: 0,
            total_uploaded_to: 0,
            prev_total_downloaded_from: 0,
            prev_total_uploaded_to: 0,
            rolling_download,
            rolling_upload,
            queue_size: 2,
            piece_availability,
            requested_blocks: Vec::new(),
            in_slow_start: true,
        }
    }

    /// Brings averages, queue size and slow start up to date. To be called every second.
    pub fn tick(&mut self)
        requires
            old(self).wf(),
            old(self).in_slow_start ==> old(self).download_delta() + 10000 <= u32::MAX,
        ensures
            final(self).wf(),
            ticked(*old(self), *final(self)),
    {
        self.update_speed_averages();
        proof {
            law_recorded_is_window(
                old(self).rolling_download@,
                old(self).prev_total_downloaded_from as int,
                old(self).download_delta(),
            );
        }
        self.update_queue_size();
        self.try_exit_slow_start();
    }

    /// Takes note of the name by which the peer goes.
    pub fn add_peer_id(&mut self, peer_id: [u8; 20])
        requires
            old(self).peer_id is None,
        ensures
            *final(self) == (PeerInfo { peer_id: Some(peer_id), ..*old(self) }),
            old(self).wf() ==> final(self).wf(),
    {
        self.peer_id = Some(peer_id);
    }

    /// Gives a block that the peer has been asked for back to the queue. Says whether the peer had
    /// been asked for it; where not, nothing happens.
    pub fn try_remove_job(
        &mut self,
        block_info: BlockInfo,
        available_jobs: &mut Vec<BlockInfo>,
    ) -> (removed: bool)
        ensures
            removed == old(self).requested_blocks@.contains(block_info),
            final(self).requested_blocks@ == one_less(old(self).requested_blocks@, block_info),
            final(available_jobs)@ == if removed {
                old(available_jobs)@.push(block_info)
            } else {
                old(available_jobs)@
            },
            *final(self) == (PeerInfo {
                requested_blocks: final(self).requested_blocks,
                ..*old(self)
            }),
            old(self).wf() ==> final(self).wf(),
    {
        if remove_job(&mut self.requested_blocks, block_info) {
            available_jobs.push(block_info);
            true
        } else {
            false
        }
    }

    /// Takes blocks that the peer is to be asked for out of the queue, as many as the peer may be
    /// asked for besides and has. Where no block in the queue is of a piece that the peer has, the
    /// queue stays as it is.
    pub fn try_get_new_jobs(&mut self, available_jobs: &mut Vec<BlockInfo>) -> (just_requested:
        Option<Vec<BlockInfo>>)
        requires
            old(self).asks_nothing(old(available_jobs)@) || pieces_known(
                old(available_jobs)@,
                old(self).piece_availability@,
                old(self).room(),
            ),
        ensures
            *final(self) == (PeerInfo {
                requested_blocks: final(self).requested_blocks,
                ..*old(self)
            }),
            old(self).wf() ==> final(self).wf(),
            match just_requested {
                None => {
                    &&& old(self).asks_nothing(old(available_jobs)@)
                    &&& final(self).requested_blocks@ == old(self).requested_blocks@
                    &&& final(available_jobs)@ == old(available_jobs)@
                },
                Some(got) => {
                    &&& !old(self).asks_nothing(old(available_jobs)@)
                    &&& got@ == picked(
                        old(available_jobs)@,
                        old(self).piece_availability@,
                        old(self).room(),
                    )
                    &&& final(self).requested_blocks@ == old(self).requested_blocks@ + got@
                    &&& final(available_jobs)@ == passed_over(
                        old(available_jobs)@,
                        old(self).piece_availability@,
                        old(self).room(),
                    )
                },
            },
    {
        if self.requested_blocks.len() >= self.queue_size || self.peer_choking
            || available_jobs.len() == 0 {
            return None;
        }
        let room: usize = self.queue_size - self.requested_blocks.len();
        let got: Vec<BlockInfo> = take_jobs(available_jobs, &self.piece_availability, room);
        push_jobs(&mut self.requested_blocks, &got);
        Some(got)
    }

    /// Whether the peer has a piece that this client does not have.
    pub fn check_if_interested(&self, downloaded_pieces: &[bool]) -> (interested: bool)
        requires
            downloaded_pieces@.len() == self.piece_availability@.len(),
        ensures
            interested <==> exists|i: int|
                0 <= i < downloaded_pieces@.len() && !downloaded_pieces@[i]
                    && #[trigger] self.piece_availability@[i],
    {
        let n: usize = downloaded_pieces.len();
        let mut i: usize = 0;
        while i < n
            invariant
                i <= n == downloaded_pieces@.len() == self.piece_availability@.len(),
                forall|j: int|
                    0 <= j < i ==> !(!downloaded_pieces@[j]
                        && #[trigger] self.piece_availability@[j]),
            decreases n - i,
        {
            if !downloaded_pieces[i] && self.piece_availability[i] {
                return true;
            }
            i = i + 1;
        }
        false
    }

    /// Takes note of bytes that have come from the peer; the queue grows by one.
    pub fn downloaded_chunk(&mut self, length: u32)
        requires
            old(self).total_downloaded_from + length <= u32::MAX,
            old(self).queue_size < usize::MAX,
        ensures
            *final(self) == (PeerInfo {
                total_downloaded_from: (old(self).total_downloaded_from + length) as u32,
                queue_size: (old(self).queue_size + 1) as usize,
                ..*old(self)
            }),
            old(self).wf() ==> final(self).wf(),
    {
        self.total_downloaded_from = self.total_downloaded_from + length;
        self.queue_size = self.queue_size + 1;
    }

    /// Takes note of bytes that have gone to the peer.
    pub fn uploaded_chunk(&mut self, length: u32)
        requires
            old(self).total_uploaded_to + length <= u32::MAX,
        ensures
            *final(self) == (PeerInfo {
                total_uploaded_to: (old(self).total_uploaded_to + length) as u32,
                ..*old(self)
            }),
            old(self).wf() ==> final(self).wf(),
    {
        self.total_uploaded_to = self.total_uploaded_to + length;
    }

    /// Outside of slow start, fits the queue size to the download rate.
    pub fn update_queue_size(&mut self)
        requires
            old(self).wf(),
        ensures
            *final(self) == queue_size_updated(*old(self)),
            final(self).wf(),
    {
        if !self.in_slow_start {
            let blocks: u32 = self.download_rate() / BLOCK_SIZE;
            self.queue_size = if blocks > 1 {
                blocks as usize
            } else {
                1
            };
        }
    }

    /// Leaves slow start where the latest second was clearly worse than the average.
    pub fn try_exit_slow_start(&mut self)
        requires
            old(self).wf(),
            old(self).in_slow_start ==> old(self).rolling_download@[0] + 10000 <= u32::MAX,
        ensures
            *final(self) == slow_start_checked(*old(self)),
            final(self).wf(),
    {
        if self.in_slow_start {
            if self.rolling_download[0] + 10000 < self.download_rate() {
                self.in_slow_start = false;
            }
        }
    }

    /// Records what was transferred in this second.
    pub fn update_speed_averages(&mut self)
        requires
            old(self).wf(),
        ensures
            averages_updated(*old(self), *final(self)),
            final(self).wf(),
    {
        let download_delta: u32 = self.total_downloaded_from - self.prev_total_downloaded_from;
        let upload_delta: u32 = self.total_uploaded_to - self.prev_total_uploaded_to;
        proof {
            law_recorded_is_window(
                self.rolling_download@,
                self.prev_total_downloaded_from as int,
                download_delta,
            );
            law_recorded_is_window(
                self.rolling_upload@,
                self.prev_total_uploaded_to as int,
                upload_delta,
            );
        }
        record(&mut self.rolling_download, download_delta);
        record(&mut self.rolling_upload, upload_delta);
        self.prev_total_downloaded_from = self.total_downloaded_from;
        self.prev_total_uploaded_to = self.total_uploaded_to;
    }

    /// Number of bytes per second that come from the peer, on average.
    pub fn download_rate(&self) -> (rate: u32)
        requires
            self.wf(),
        ensures
            rate == average(self.rolling_download@),
    {
        rolling_average(&self.rolling_download)
    }

    /// Number of bytes per second that go to the peer, on average.
    pub fn upload_rate(&self) -> (rate: u32)
        requires
            self.wf(),
        ensures
            rate == average(self.rolling_upload@),
    {
        rolling_average(&self.rolling_upload)
    }
}

/// The rates never exceed what has been transferred in all.
pub proof fn law_rates_are_bounded(info: PeerInfo)
    requires
        info.wf(),
    ensures
        0 <= average(info.rolling_download@) <= info.total_downloaded_from,
        0 <= average(info.rolling_upload@) <= info.total_uploaded_to,
{
    law_average_is_bounded(info.rolling_download@, info.prev_total_downloaded_from as int);
    law_average_is_bounded(info.rolling_upload@, info.prev_total_uploaded_to as int);
}

} // verus!
