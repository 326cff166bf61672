use ree_lending_demo_backend::exchange::{Action, Intention, LendingPools};
use ree_lending_demo_backend::pool::{CoinMeta, Pool};
use ree_lending_demo_backend::reorg::{
    detect_reorg, get_max_recoverable_reorg_depth, handle_reorg, BitcoinNetwork, Error,
};
use ree_lending_demo_backend::types::{CoinBalance, CoinId, InputCoin, NewBlockInfo, TxRecord, Txid, Utxo};

fn block(height: u32, hash: u64, txids: Vec<u64>) -> NewBlockInfo {
    NewBlockInfo {
        block_height: height,
        block_hash: hash,
        block_timestamp: height as u64 * 600,
        confirmed_txids: txids.into_iter().map(Txid).collect(),
    }
}

fn rune_id() -> CoinId {
    CoinId::rune(72798, 1058)
}

fn pool_meta() -> CoinMeta {
    CoinMeta { id: rune_id(), symbol: "HOPE-YOU-GET-RICH".to_string(), min_amount: 1 }
}

fn utxo(txid: u64, vout: u32, sats: u64, rune: u128) -> Utxo {
    Utxo {
        txid: Txid(txid),
        vout,
        sats,
        maybe_rune: Some(CoinBalance { id: rune_id(), value: rune }),
    }
}

fn deposit_intention(pool_address: u64, nonce: u64, spent: Vec<Utxo>, received: Utxo, amount: u128) -> Intention {
    Intention {
        action: Action::Deposit,
        pool_address,
        nonce,
        pool_utxo_spent: spent.iter().map(|u| u.outpoint()).collect(),
        pool_utxo_received: vec![received],
        input_coins: vec![InputCoin { coin: CoinBalance { id: CoinId::btc(), value: amount } }],
        output_coins: vec![],
    }
}

/// The pools of the slot for `(txid, confirmed)`, if the tracker
/// holds one.
fn slot(lp: &LendingPools, txid: u64, confirmed: bool) -> Option<Vec<u64>> {
    lp.tx_records
        .iter()
        .find(|e| e.txid == Txid(txid) && e.confirmed == confirmed)
        .map(|e| e.pools.clone())
}

#[test]
fn max_recoverable_depth_by_network() {
    assert_eq!(get_max_recoverable_reorg_depth(BitcoinNetwork::Regtest), 6);
    assert_eq!(get_max_recoverable_reorg_depth(BitcoinNetwork::Testnet), 64);
    assert_eq!(get_max_recoverable_reorg_depth(BitcoinNetwork::Mainnet), 6);
    assert_eq!(LendingPools::finalize_threshold(), 64);
    assert_eq!(LendingPools::network(), BitcoinNetwork::Testnet);
}

#[test]
fn chain_start_extension_and_gap() {
    let mut lp = LendingPools::new();
    assert_eq!(lp.new_block(block(100, 1000, vec![])), Ok(()));
    assert_eq!(lp.new_block(block(101, 1001, vec![])), Ok(()));
    assert_eq!(lp.get_blocks(), vec![100, 101]);
    // a gap means missed blocks: unrecoverable, nothing changes
    assert_eq!(lp.new_block(block(103, 1003, vec![])), Err(Error::Unrecoverable));
    assert_eq!(lp.get_blocks(), vec![100, 101]);
}

#[test]
fn duplicate_block_is_a_rejected_no_op() {
    let mut lp = LendingPools::new();
    lp.new_block(block(100, 1000, vec![41])).unwrap();
    lp.new_block(block(101, 1001, vec![42])).unwrap();
    let blocks_before = lp.get_blocks();
    let records_before = lp.tx_records.len();
    // the same height with the same hash as retained
    let r = lp.new_block(block(101, 1001, vec![42]));
    assert_eq!(r, Err(Error::DuplicateBlock { height: 101, hash: 1001 }));
    assert_eq!(lp.get_blocks(), blocks_before);
    assert_eq!(lp.tx_records.len(), records_before);
    // a report below the whole retained range is treated as a duplicate
    let r = lp.new_block(block(99, 999, vec![]));
    assert_eq!(r, Err(Error::DuplicateBlock { height: 99, hash: 999 }));
}

#[test]
fn detect_classifies_the_reorg_scenario() {
    let mut lp = LendingPools::new();
    for h in 100..=105u32 {
        lp.new_block(block(h, 1000 + h as u64, vec![])).unwrap();
    }
    // a different hash at a retained height
    let r = detect_reorg(BitcoinNetwork::Testnet, &lp.blocks, &block(103, 9999, vec![]));
    assert_eq!(r, Err(Error::Recoverable { height: 105, depth: 3 }));
    // the retained hash at that height is a duplicate
    let r = detect_reorg(BitcoinNetwork::Testnet, &lp.blocks, &block(103, 1103, vec![]));
    assert_eq!(r, Err(Error::DuplicateBlock { height: 103, hash: 1103 }));
    // deeper than the network allows: regtest recovers at most 6 blocks
    let mut deep = LendingPools::new();
    for h in 100..=110u32 {
        deep.new_block(block(h, 1000 + h as u64, vec![])).unwrap();
    }
    let r = detect_reorg(BitcoinNetwork::Regtest, &deep.blocks, &block(102, 9999, vec![]));
    assert_eq!(r, Err(Error::Unrecoverable));
}

#[test]
fn recover_demotes_exactly_the_superseded_confirmations() {
    let mut blocks: Vec<NewBlockInfo> = (100..=105u32)
        .map(|h| block(h, 1000 + h as u64, vec![h as u64]))
        .collect();
    let mut records: Vec<TxRecord> = Vec::new();
    for h in 100..=105u64 {
        records.push(TxRecord { txid: Txid(h), confirmed: true, pools: vec![7] });
    }
    // an unconfirmed copy that a demotion must overwrite
    records.push(TxRecord { txid: Txid(104), confirmed: false, pools: vec![8] });
    handle_reorg(&mut blocks, &mut records, 105, 3);
    let heights: Vec<u32> = blocks.iter().map(|b| b.block_height).collect();
    assert_eq!(heights, vec![100, 101, 102]);
    let find = |txid: u64, confirmed: bool| {
        records.iter().find(|e| e.txid == Txid(txid) && e.confirmed == confirmed).cloned()
    };
    // heights 103..105 are demoted: confirmed slots gone, pools moved
    for t in 103..=105u64 {
        assert!(find(t, true).is_none());
        assert_eq!(find(t, false).unwrap().pools, vec![7]);
    }
    // heights 100..102 are untouched
    for t in 100..=102u64 {
        assert_eq!(find(t, true).unwrap().pools, vec![7]);
        assert!(find(t, false).is_none());
    }
}

#[test]
fn new_block_confirms_executed_transactions() {
    let mut lp = LendingPools::new();
    lp.insert(Pool::new(7, pool_meta()));
    lp.execute_tx(Txid(41), &deposit_intention(7, 0, vec![], utxo(41, 0, 20000, 0), 20000)).unwrap();
    assert_eq!(slot(&lp, 41, false), Some(vec![7]));
    assert_eq!(slot(&lp, 41, true), None);
    lp.new_block(block(100, 1000, vec![41])).unwrap();
    // both projections coexist until finalization
    assert_eq!(slot(&lp, 41, false), Some(vec![7]));
    assert_eq!(slot(&lp, 41, true), Some(vec![7]));
    // a txid never executed is not invented
    lp.new_block(block(101, 1001, vec![99])).unwrap();
    assert_eq!(slot(&lp, 99, false), None);
    assert_eq!(slot(&lp, 99, true), None);
}

#[test]
fn reorg_through_new_block_demotes_and_reports_recovered() {
    let mut lp = LendingPools::new();
    lp.insert(Pool::new(7, pool_meta()));
    lp.execute_tx(Txid(41), &deposit_intention(7, 0, vec![], utxo(41, 0, 20000, 0), 20000)).unwrap();
    for h in 100..=103u32 {
        lp.new_block(block(h, 1000 + h as u64, vec![])).unwrap();
    }
    lp.new_block(block(104, 1104, vec![41])).unwrap();
    lp.new_block(block(105, 1105, vec![])).unwrap();
    assert_eq!(slot(&lp, 41, true), Some(vec![7]));
    // a competing block at height 104: depth-2 recoverable reorg
    lp.new_block(block(104, 9104, vec![])).unwrap();
    assert_eq!(lp.get_blocks(), vec![100, 101, 102, 103, 104]);
    assert_eq!(lp.get_block(104).unwrap().block_hash, 9104);
    // the confirmation of height 104 was demoted, the pool untouched
    assert_eq!(slot(&lp, 41, true), None);
    assert_eq!(slot(&lp, 41, false), Some(vec![7]));
    assert_eq!(lp.get(7).unwrap().states().len(), 1);
}

#[test]
fn finalization_prunes_blocks_and_purges_records() {
    let mut lp = LendingPools::new();
    lp.insert(Pool::new(7, pool_meta()));
    // two committed states; the second becomes permanent
    lp.execute_tx(Txid(1), &deposit_intention(7, 0, vec![], utxo(1, 0, 20000, 0), 20000)).unwrap();
    let held = lp.get(7).unwrap().states()[0].utxo.unwrap();
    lp.execute_tx(Txid(2), &deposit_intention(7, 1, vec![held], utxo(2, 0, 35000, 0), 15000)).unwrap();
    lp.new_block(block(100, 1100, vec![2])).unwrap();
    assert_eq!(slot(&lp, 2, true), Some(vec![7]));
    // height 163 puts block 100 at the testnet finalization threshold
    for h in 101..=163u32 {
        lp.new_block(block(h, 1000 + h as u64, vec![])).unwrap();
    }
    assert_eq!(lp.get_block(100), None);
    assert_eq!(lp.get_blocks()[0], 101);
    // the record is purged under both projections
    assert_eq!(slot(&lp, 2, true), None);
    assert_eq!(slot(&lp, 2, false), None);
    // the pool pivoted to the finalized state; the current state stays
    let pool = lp.get(7).unwrap();
    assert_eq!(pool.states().len(), 1);
    assert_eq!(pool.states()[0].id, Txid(2));
    assert_eq!(pool.states()[0].btc_supply(), 35000);
}

#[test]
fn blocks_below_threshold_are_kept() {
    let mut lp = LendingPools::new();
    lp.new_block(block(100, 1100, vec![])).unwrap();
    lp.new_block(block(101, 1101, vec![])).unwrap();
    // far below any finalization threshold: everything is retained
    assert_eq!(lp.get_blocks(), vec![100, 101]);
    assert_eq!(lp.get_block(100).unwrap().block_hash, 1100);
    assert_eq!(lp.get_block(99), None);
}

#[test]
fn reset_blocks_clears_the_history() {
    let mut lp = LendingPools::new();
    lp.new_block(block(100, 1100, vec![])).unwrap();
    lp.new_block(block(101, 1101, vec![])).unwrap();
    lp.reset_blocks();
    assert!(lp.get_blocks().is_empty());
    // the chain may restart anywhere
    assert_eq!(lp.new_block(block(500, 1500, vec![])), Ok(()));
    assert_eq!(lp.get_blocks(), vec![500]);
}

#[test]
fn low_heights_never_finalize() {
    let mut lp = LendingPools::new();
    lp.insert(Pool::new(7, pool_meta()));
    lp.execute_tx(Txid(1), &deposit_intention(7, 0, vec![], utxo(1, 0, 20000, 0), 20000)).unwrap();
    lp.new_block(block(0, 1000, vec![1])).unwrap();
    for h in 1..=10u32 {
        lp.new_block(block(h, 1000 + h as u64, vec![])).unwrap();
    }
    // heights this low are all still reorg-able on testnet
    assert_eq!(lp.get_blocks().len(), 11);
    assert_eq!(slot(&lp, 1, true), Some(vec![7]));
}
