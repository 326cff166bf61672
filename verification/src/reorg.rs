//! Chain-reorganization detection and recovery.
//!
//! The retained block history is a gapless height-ascending sequence.
//! Each newly reported block is classified as a simple extension, a
//! duplicate, a recoverable reorganization, or an unrecoverable
//! divergence; recovery demotes the confirmations of the superseded
//! blocks without rolling any pool back, since the transactions may
//! still confirm under the new chain.

use vstd::prelude::*;
use vstd::pervasive::unreached;

use crate::exchange::{demote_txid, spec_record_slot, spec_records_wf};
use crate::types::{NewBlockInfo, TxRecord, Txid};

verus! {

/// The Bitcoin network a deployment settles on; it bounds how deep a
/// reorganization can be recovered from.
#[derive(Clone, Copy, Debug, PartialEq, Eq, Structural)]
pub enum BitcoinNetwork {
    Regtest,
    Testnet,
    Mainnet,
}

/// Classification of a reported block that does not simply extend the
/// retained chain.
#[derive(Clone, Copy, Debug, PartialEq, Eq, Structural)]
pub enum Error {
    /// A reorganization of `depth` blocks ending at retained height
    /// `height` that recovery can undo.
    Recoverable { height: u32, depth: u32 },
    /// The block is already retained with the same hash; the report is
    /// a no-op.
    DuplicateBlock { height: u32, hash: u64 },
    /// A gap ahead of the retained chain, or a reorganization deeper
    /// than the network bound: automatic settlement must halt.
    Unrecoverable,
}

/// Reorganizations deeper than this cannot be recovered locally.
pub open spec fn spec_max_recoverable_reorg_depth(network: BitcoinNetwork) -> u32 {
    match network {
        BitcoinNetwork::Regtest => 6,
        BitcoinNetwork::Testnet => 64,
        BitcoinNetwork::Mainnet => 6,
    }
}

/// Reorganizations deeper than this cannot be recovered locally.
pub fn get_max_recoverable_reorg_depth(network: BitcoinNetwork) -> (r: u32)
    ensures
        r == spec_max_recoverable_reorg_depth(network),
{
    match network {
        BitcoinNetwork::Regtest => 6,
        BitcoinNetwork::Testnet => 64,
        BitcoinNetwork::Mainnet => 6,
    }
}

/// The retained block history is gapless and height-ascending: the
/// block at position `i` sits `i` heights above the first retained
/// block.
pub open spec fn spec_blocks_wf(s: Seq<NewBlockInfo>) -> bool {
    forall|i: int|
        0 <= i < s.len() ==> (#[trigger] s[i]).block_height == s[0].block_height + i
}

/// Decision table for a newly reported block, given the retained
/// history: an empty history or a height one above the retained tip
/// is accepted; a gap or an over-deep reorganization is unrecoverable;
/// a block already retained with the same hash (or below the retained
/// range) is a duplicate; anything else is a recoverable
/// reorganization whose depth counts from the retained tip down to
/// the reported height.
pub open spec fn spec_detect_reorg(
    network: BitcoinNetwork,
    blocks: Seq<NewBlockInfo>,
    new_block: NewBlockInfo,
) -> Result<(), Error>
    recommends
        spec_blocks_wf(blocks),
{
    if blocks.len() == 0 {
        Ok(())
    } else {
        let current = blocks.last();
        if new_block.block_height == current.block_height + 1 {
            Ok(())
        } else if new_block.block_height > current.block_height + 1 {
            Err(Error::Unrecoverable)
        } else {
            let depth = current.block_height - new_block.block_height + 1;
            if depth > spec_max_recoverable_reorg_depth(network) {
                Err(Error::Unrecoverable)
            } else if new_block.block_height < blocks[0].block_height {
                Err(
                    Error::DuplicateBlock {
                        height: new_block.block_height,
                        hash: new_block.block_hash,
                    },
                )
            } else {
                let target = blocks[new_block.block_height - blocks[0].block_height];
                if target.block_hash == new_block.block_hash {
                    Err(
                        Error::DuplicateBlock {
                            height: new_block.block_height,
                            hash: new_block.block_hash,
                        },
                    )
                } else {
                    Err(
                        Error::Recoverable {
                            height: current.block_height,
                            depth: depth as u32,
                        },
                    )
                }
            }
        }
    }
}

/// Classifies a newly reported block against the retained history.
pub fn detect_reorg(
    network: BitcoinNetwork,
    blocks: &Vec<NewBlockInfo>,
    new_block: &NewBlockInfo,
) -> (r: Result<(), Error>)
    requires
        spec_blocks_wf(blocks@),
    ensures
        r == spec_detect_reorg(network, blocks@, *new_block),
{
    let n = blocks.len();
    if n == 0 {
        return Ok(());
    }
    let current_height = blocks[n - 1].block_height;
    let new_height = new_block.block_height;
    if new_height > current_height {
        if new_height - current_height == 1 {
            return Ok(());
        }
        return Err(Error::Unrecoverable);
    }
    let depth: u64 = (current_height - new_height) as u64 + 1;
    let max_depth = get_max_recoverable_reorg_depth(network);
    if depth > max_depth as u64 {
        return Err(Error::Unrecoverable);
    }
    let first_height = blocks[0].block_height;
    if new_height < first_height {
        return Err(Error::DuplicateBlock { height: new_height, hash: new_block.block_hash });
    }
    proof {
        assert(blocks@[n - 1].block_height == blocks@[0].block_height + n - 1);
    }
    let idx = (new_height - first_height) as usize;
    if blocks[idx].block_hash == new_block.block_hash {
        return Err(Error::DuplicateBlock { height: new_height, hash: new_block.block_hash });
    }
    Err(Error::Recoverable { height: current_height, depth: depth as u32 })
}

/// One transaction confirmed by one of the given blocks.
pub open spec fn spec_txid_in_blocks(bs: Seq<NewBlockInfo>, t: Txid) -> bool {
    exists|i: int| 0 <= i < bs.len() && (#[trigger] bs[i]).confirmed_txids@.contains(t)
}

/// A transaction's slots after its confirmation was demoted: the
/// confirmed slot is gone, and the unconfirmed slot holds what the
/// confirmed slot held (or what the unconfirmed slot already held, if
/// there was no confirmed slot).
pub open spec fn spec_demoted(orig: Seq<TxRecord>, now: Seq<TxRecord>, t: Txid) -> bool {
    &&& spec_record_slot(now, t, true) is None
    &&& spec_record_slot(now, t, false) == (match spec_record_slot(orig, t, true) {
        Some(p) => Some(p),
        None => spec_record_slot(orig, t, false),
    })
}

/// Undoes a recoverable reorganization of `depth` blocks ending at
/// the retained tip `height`: the superseded blocks are dropped,
/// newest first, and every transaction they confirmed is demoted back
/// to unconfirmed.  No pool is rolled back here — the transactions
/// may still confirm under the new chain.  Blocks below the
/// reorganization and transactions not confirmed by a superseded
/// block are untouched.
pub fn handle_reorg(
    blocks: &mut Vec<NewBlockInfo>,
    records: &mut Vec<TxRecord>,
    height: u32,
    depth: u32,
)
    requires
        spec_blocks_wf(old(blocks)@),
        spec_records_wf(old(records)@),
        old(blocks)@.len() > 0,
        height == old(blocks)@.last().block_height,
        1 <= depth <= old(blocks)@.len(),
    ensures
        spec_blocks_wf(final(blocks)@),
        spec_records_wf(final(records)@),
        final(blocks)@ == old(blocks)@.subrange(0, old(blocks)@.len() - depth),
        forall|t: Txid|
            spec_txid_in_blocks(
                old(blocks)@.subrange(
                    old(blocks)@.len() - depth,
                    old(blocks)@.len() as int,
                ),
                t,
            ) ==> #[trigger] spec_demoted(old(records)@, final(records)@, t),
        forall|t: Txid, c: bool|
            !spec_txid_in_blocks(
                old(blocks)@.subrange(
                    old(blocks)@.len() - depth,
                    old(blocks)@.len() as int,
                ),
                t,
            ) ==> #[trigger] spec_record_slot(final(records)@, t, c) == spec_record_slot(
                old(records)@,
                t,
                c,
            ),
{
    let ghost orig_blocks = old(blocks)@;
    let ghost orig_records = old(records)@;
    let ghost orig_len = old(blocks)@.len() as int;
    let mut d: u32 = 0;
    while d < depth
        invariant
            spec_records_wf(records@),
            0 <= d <= depth,
            depth <= orig_len,
            orig_len == orig_blocks.len(),
            spec_blocks_wf(orig_blocks),
            spec_records_wf(orig_records),
            blocks@ == orig_blocks.subrange(0, orig_len - d),
            forall|t: Txid|
                spec_txid_in_blocks(orig_blocks.subrange(orig_len - d, orig_len), t)
                    ==> #[trigger] spec_demoted(orig_records, records@, t),
            forall|t: Txid, c: bool|
                !spec_txid_in_blocks(orig_blocks.subrange(orig_len - d, orig_len), t)
                    ==> #[trigger] spec_record_slot(records@, t, c) == spec_record_slot(
                    orig_records,
                    t,
                    c,
                ),
        decreases depth - d,
    {
        let popped = blocks.pop();
        let block = match popped {
            Some(b) => b,
            None => unreached(),
        };
        proof {
            assert(block == orig_blocks[orig_len - d - 1]);
            assert(blocks@ =~= orig_blocks.subrange(0, orig_len - d - 1));
        }
        let m = block.confirmed_txids.len();
        let mut k: usize = 0;
        while k < m
            invariant
                spec_records_wf(records@),
                m == block.confirmed_txids@.len(),
                0 <= k <= m,
                0 <= d < depth,
                depth <= orig_len,
                orig_len == orig_blocks.len(),
                spec_records_wf(orig_records),
                block == orig_blocks[orig_len - d - 1],
                forall|t: Txid|
                    spec_txid_in_blocks(orig_blocks.subrange(orig_len - d, orig_len), t)
                        || block.confirmed_txids@.subrange(0, k as int).contains(t)
                        ==> #[trigger] spec_demoted(orig_records, records@, t),
                forall|t: Txid, c: bool|
                    !(spec_txid_in_blocks(orig_blocks.subrange(orig_len - d, orig_len), t)
                        || block.confirmed_txids@.subrange(0, k as int).contains(t))
                        ==> #[trigger] spec_record_slot(records@, t, c) == spec_record_slot(
                        orig_records,
                        t,
                        c,
                    ),
            decreases m - k,
        {
            let ghost pre = records@;
            let t = block.confirmed_txids[k];
            demote_txid(records, t);
            proof {
                let removed_before = orig_blocks.subrange(orig_len - d, orig_len);
                let done = block.confirmed_txids@.subrange(0, k as int);
                let done2 = block.confirmed_txids@.subrange(0, k + 1);
                assert(done2.contains(t)) by {
                    assert(done2[k as int] == t);
                }
                assert forall|t2: Txid| done2.contains(t2) && t2 != t implies done.contains(
                    t2,
                ) by {
                    let w = choose|w: int| 0 <= w < done2.len() && #[trigger] done2[w] == t2;
                    assert(done[w] == t2);
                }
                assert forall|t2: Txid|
                    spec_txid_in_blocks(removed_before, t2) || done2.contains(t2)
                        implies #[trigger] spec_demoted(orig_records, records@, t2) by {
                    if t2 == t {
                        if spec_txid_in_blocks(removed_before, t2) || done.contains(t2) {
                            assert(spec_demoted(orig_records, pre, t2));
                        } else {
                            assert(spec_record_slot(pre, t2, true) == spec_record_slot(
                                orig_records,
                                t2,
                                true,
                            ));
                            assert(spec_record_slot(pre, t2, false) == spec_record_slot(
                                orig_records,
                                t2,
                                false,
                            ));
                        }
                    } else {
                        assert(spec_txid_in_blocks(removed_before, t2) || done.contains(t2));
                        assert(spec_demoted(orig_records, pre, t2));
                        assert(spec_record_slot(records@, t2, true) == spec_record_slot(
                            pre,
                            t2,
                            true,
                        ));
                        assert(spec_record_slot(records@, t2, false) == spec_record_slot(
                            pre,
                            t2,
                            false,
                        ));
                    }
                }
                assert forall|t2: Txid, c: bool|
                    !(spec_txid_in_blocks(removed_before, t2) || done2.contains(t2))
                        implies #[trigger] spec_record_slot(records@, t2, c) == spec_record_slot(
                        orig_records,
                        t2,
                        c,
                    ) by {
                    assert(t2 != t);
                    assert(!done.contains(t2));
                    assert(spec_record_slot(pre, t2, c) == spec_record_slot(orig_records, t2, c));
                    assert(spec_record_slot(records@, t2, c) == spec_record_slot(pre, t2, c));
                }
            }
            k += 1;
        }
        proof {
            let removed_now = orig_blocks.subrange(orig_len - d - 1, orig_len);
            let removed_before = orig_blocks.subrange(orig_len - d, orig_len);
            assert forall|t: Txid|
                spec_txid_in_blocks(removed_now, t) implies (spec_txid_in_blocks(
                removed_before,
                t,
            ) || block.confirmed_txids@.contains(t)) by {
                let w = choose|w: int|
                    0 <= w < removed_now.len() && (#[trigger] removed_now[w]).confirmed_txids@.contains(
                        t,
                    );
                if w == 0 {
                    assert(removed_now[0] == block);
                } else {
                    assert(removed_now[w] == removed_before[w - 1]);
                }
            }
            assert forall|t: Txid|
                spec_txid_in_blocks(removed_before, t) || block.confirmed_txids@.contains(t)
                    implies spec_txid_in_blocks(removed_now, t) by {
                if block.confirmed_txids@.contains(t) {
                    assert(removed_now[0] == block);
                    assert(spec_txid_in_blocks(removed_now, t));
                } else {
                    let w = choose|w: int|
                        0 <= w < removed_before.len() && (#[trigger] removed_before[w]).confirmed_txids@.contains(
                            t,
                        );
                    assert(removed_now[w + 1] == removed_before[w]);
                }
            }
            assert(block.confirmed_txids@.subrange(0, m as int) =~= block.confirmed_txids@);
        }
        d += 1;
    }
    proof {
        assert forall|i: int|
            0 <= i < blocks@.len() implies (#[trigger] blocks@[i]).block_height
            == blocks@[0].block_height + i by {
            assert(orig_blocks[i].block_height == orig_blocks[0].block_height + i);
        }
    }
}

} // verus!
