//! Pieces and the blocks in which they are downloaded.
use crate::constants::BLOCK_SIZE;
use crate::peer_message::BlockInfo;
use vstd::prelude::*;

verus! {

/// Number of blocks of a piece of `size` bytes.
pub open spec fn block_count(size: int) -> int {
    (size - 1) / (BLOCK_SIZE as int) + 1
}

/// The block number `i` of piece `index`, which has `size` bytes.
pub open spec fn nth_block(index: u32, size: int, i: int) -> BlockInfo {
    let begin = i * BLOCK_SIZE;
    let end = if begin + BLOCK_SIZE < size {
        begin + BLOCK_SIZE
    } else {
        size
    };
    BlockInfo { index, begin: begin as u32, length: (end - begin) as u32 }
}

/// The blocks of piece `index`, which has `size` bytes: all of full size but perhaps the last.
pub open spec fn piece_blocks(index: u32, size: int) -> Seq<BlockInfo> {
    Seq::new(block_count(size) as nat, |i: int| nth_block(index, size, i))
}

/// Whether the ends of the blocks of a piece of `size` bytes, all counted as full, fit a `u32`.
pub open spec fn blocks_fit(size: int) -> bool {
    size >= 1 && block_count(size) * BLOCK_SIZE <= u32::MAX
}

/// Number of bytes in some blocks together.
pub open spec fn bytes_in(blocks: Seq<BlockInfo>) -> int
    decreases blocks.len(),
{
    if blocks.len() == 0 {
        0
    } else {
        bytes_in(blocks.drop_last()) + blocks.last().length
    }
}

/// The first piece that is not there yet.
pub open spec fn first_missing(downloaded: Seq<bool>) -> Option<int>
    decreases downloaded.len(),
{
    if downloaded.len() == 0 {
        None
    } else {
        match first_missing(downloaded.drop_last()) {
            Some(i) => Some(i),
            None => if downloaded.last() {
                None
            } else {
                Some(downloaded.len() - 1)
            },
        }
    }
}

/// The first missing piece is missing and every piece before it is there; without one, all are
/// there.
pub proof fn law_first_missing(downloaded: Seq<bool>)
    ensures
        match first_missing(downloaded) {
            Some(i) => 0 <= i < downloaded.len() && !downloaded[i] && (forall|j: int|
                0 <= j < i ==> downloaded[j]),
            None => forall|j: int| 0 <= j < downloaded.len() ==> downloaded[j],
        },
    decreases downloaded.len(),
{
    if downloaded.len() > 0 {
        let shorter = downloaded.drop_last();
        law_first_missing(shorter);
        assert forall|j: int| 0 <= j < shorter.len() implies shorter[j] == downloaded[j] by {}
    }
}

/// The first piece that is not there yet.
pub fn find_first_missing(downloaded: &Vec<bool>) -> (r: Option<usize>)
    ensures
        match r {
            Some(i) => first_missing(downloaded@) == Some(i as int),
            None => first_missing(downloaded@) is None,
        },
{
    let n: usize = downloaded.len();
    let mut i: usize = 0;
    while i < n
        invariant
            i <= n == downloaded@.len(),
            forall|j: int| 0 <= j < i ==> downloaded@[j],
        decreases n - i,
    {
        if !downloaded[i] {
            proof {
                law_first_missing(downloaded@);
            }
            return Some(i);
        }
        i = i + 1;
    }
    proof {
        law_first_missing(downloaded@);
    }
    None
}

/// Number of pieces that are not there yet.
pub open spec fn missing_count(downloaded: Seq<bool>) -> nat
    decreases downloaded.len(),
{
    if downloaded.len() == 0 {
        0
    } else {
        missing_count(downloaded.drop_last()) + (if downloaded.last() {
            0nat
        } else {
            1nat
        })
    }
}

/// Number of pieces that are not there yet.
pub fn count_missing(downloaded: &Vec<bool>) -> (count: usize)
    ensures
        count == missing_count(downloaded@),
{
    let n: usize = downloaded.len();
    let mut count: usize = 0;
    let mut i: usize = 0;
    while i < n
        invariant
            count <= i <= n == downloaded@.len(),
            count == missing_count(downloaded@.take(i as int)),
        decreases n - i,
    {
        assert(downloaded@.take(i + 1).drop_last() =~= downloaded@.take(i as int));
        if !downloaded[i] {
            count = count + 1;
        }
        i = i + 1;
    }
    assert(downloaded@.take(n as int) =~= downloaded@);
    count
}

/// No piece is missing exactly when none is counted.
pub proof fn law_nothing_missing(downloaded: Seq<bool>)
    ensures
        missing_count(downloaded) == 0 <==> first_missing(downloaded) is None,
    decreases downloaded.len(),
{
    if downloaded.len() > 0 {
        law_nothing_missing(downloaded.drop_last());
    }
}

/// Appends the blocks of piece `index`, which has `size` bytes.
pub fn push_piece_blocks(blocks: &mut Vec<BlockInfo>, index: u32, size: u32) -> (count: usize)
    requires
        blocks_fit(size as int),
    ensures
        final(blocks)@ == old(blocks)@ + piece_blocks(index, size as int),
        count == block_count(size as int),
{
    let count: u32 = (size - 1) / BLOCK_SIZE + 1;
    let ghost all = piece_blocks(index, size as int);
    let mut i: u32 = 0;
    assert(blocks@ =~= old(blocks)@ + all.take(0));
    while i < count
        invariant
            i <= count == block_count(size as int) == all.len(),
            all == piece_blocks(index, size as int),
            blocks_fit(size as int),
            blocks@ == old(blocks)@ + all.take(i as int),
        decreases count - i,
    {
        assert((i + 1) * BLOCK_SIZE <= count * BLOCK_SIZE) by (nonlinear_arith)
            requires
                i + 1 <= count,
        ;
        let start: u32 = BLOCK_SIZE * i;
        let stop: u32 = if start + BLOCK_SIZE < size {
            start + BLOCK_SIZE
        } else {
            size
        };
        blocks.push(BlockInfo { index, begin: start, length: stop - start });
        i = i + 1;
        assert(all.take(i as int) =~= all.take(i - 1).push(all[i - 1]));
        assert(blocks@ =~= old(blocks)@ + all.take(i as int));
    }
    assert(all.take(count as int) =~= all);
    count as usize
}

proof fn lemma_bytes_in_blocks(index: u32, size: int, k: int)
    requires
        blocks_fit(size),
        0 <= k <= block_count(size),
    ensures
        bytes_in(piece_blocks(index, size).take(k)) == if k < block_count(size) {
            k * BLOCK_SIZE
        } else {
            size
        },
    decreases k,
{
    let blocks = piece_blocks(index, size);
    if k > 0 {
        assert(blocks.take(k).drop_last() =~= blocks.take(k - 1));
        lemma_bytes_in_blocks(index, size, k - 1);
        assert(blocks.take(k).last() == nth_block(index, size, k - 1));
    }
}

/// The blocks of a piece follow each other without a gap, none is empty, none is larger than a
/// request may be, their places are told apart by their offsets, and together they are the piece.
pub proof fn law_blocks_make_up_piece(index: u32, size: int)
    requires
        blocks_fit(size),
    ensures
        ({
            let blocks = piece_blocks(index, size);
            &&& blocks.len() >= 1
            &&& bytes_in(blocks) == size
            &&& forall|i: int|
                0 <= i < blocks.len() ==> {
                    &&& (#[trigger] blocks[i]).index == index
                    &&& blocks[i].begin == bytes_in(blocks.take(i))
                    &&& 1 <= blocks[i].length <= BLOCK_SIZE
                    &&& blocks[i].begin + blocks[i].length <= size
                    &&& blocks[i].begin / BLOCK_SIZE == i
                }
        }),
{
    let blocks = piece_blocks(index, size);
    lemma_bytes_in_blocks(index, size, block_count(size));
    assert(blocks.take(block_count(size)) =~= blocks);
    assert forall|i: int| 0 <= i < blocks.len() implies {
        &&& (#[trigger] blocks[i]).index == index
        &&& blocks[i].begin == bytes_in(blocks.take(i))
        &&& 1 <= blocks[i].length <= BLOCK_SIZE
        &&& blocks[i].begin + blocks[i].length <= size
        &&& blocks[i].begin / BLOCK_SIZE == i
    } by {
        lemma_bytes_in_blocks(index, size, i);
        assert(blocks[i] == nth_block(index, size, i));
    }
}

} // verus!
