use ree_lending_demo_backend::exchange::{Action, Intention, LendingPools};
use ree_lending_demo_backend::pool::{CoinMeta, Pool};
use ree_lending_demo_backend::types::{CoinBalance, CoinId, InputCoin, OutputCoin, Txid, Utxo};
use ree_lending_demo_backend::ExchangeError;

fn rune_id() -> CoinId {
    CoinId::rune(72798, 1058)
}

fn pool_meta() -> CoinMeta {
    CoinMeta { id: rune_id(), symbol: "HOPE-YOU-GET-RICH".to_string(), min_amount: 1 }
}

fn btc_coin(value: u128) -> CoinBalance {
    CoinBalance { id: CoinId::btc(), value }
}

fn utxo(txid: u64, vout: u32, sats: u64, rune: u128) -> Utxo {
    Utxo {
        txid: Txid(txid),
        vout,
        sats,
        maybe_rune: Some(CoinBalance { id: rune_id(), value: rune }),
    }
}

fn deposit_intention(pool_address: u64, nonce: u64, spent: Vec<Utxo>, received: Utxo, amount: u128) -> Intention {
    Intention {
        action: Action::Deposit,
        pool_address,
        nonce,
        pool_utxo_spent: spent.iter().map(|u| u.outpoint()).collect(),
        pool_utxo_received: vec![received],
        input_coins: vec![InputCoin { coin: btc_coin(amount) }],
        output_coins: vec![],
    }
}

fn exchange_with_pool(addr: u64) -> LendingPools {
    let mut lp = LendingPools::new();
    lp.insert(Pool::new(addr, pool_meta()));
    lp
}

#[test]
fn execute_deposit_commits_and_records_unconfirmed() {
    let mut lp = exchange_with_pool(7);
    let state = lp
        .execute_tx(Txid(1), &deposit_intention(7, 0, vec![], utxo(1, 0, 20000, 0), 20000))
        .unwrap();
    assert_eq!(state.nonce, 1);
    assert_eq!(state.btc_supply(), 20000);
    let pool = lp.get(7).unwrap();
    assert_eq!(pool.states().len(), 1);
    assert_eq!(pool.states()[0], state);
    let unconfirmed = lp.get_unconfirmed_txs();
    assert_eq!(unconfirmed.len(), 1);
    assert_eq!(unconfirmed[0].txid, Txid(1));
    assert_eq!(unconfirmed[0].pools, vec![7]);
}

#[test]
fn execute_on_unknown_pool_is_rejected() {
    let mut lp = exchange_with_pool(7);
    let r = lp.execute_tx(Txid(1), &deposit_intention(9, 0, vec![], utxo(1, 0, 20000, 0), 20000));
    assert_eq!(r.unwrap_err(), ExchangeError::InvalidPool);
    assert!(lp.get_unconfirmed_txs().is_empty());
}

#[test]
fn execute_failure_changes_nothing() {
    let mut lp = exchange_with_pool(7);
    // below the minimum transfer value
    let r = lp.execute_tx(Txid(1), &deposit_intention(7, 0, vec![], utxo(1, 0, 500, 0), 500));
    assert_eq!(r.unwrap_err(), ExchangeError::TooSmallFunds);
    assert!(lp.get(7).unwrap().states().is_empty());
    assert!(lp.get_unconfirmed_txs().is_empty());
}

#[test]
fn one_transaction_may_touch_several_pools() {
    let mut lp = exchange_with_pool(7);
    lp.insert(Pool::new(8, pool_meta()));
    lp.execute_tx(Txid(1), &deposit_intention(7, 0, vec![], utxo(1, 0, 20000, 0), 20000)).unwrap();
    lp.execute_tx(Txid(1), &deposit_intention(8, 0, vec![], utxo(1, 1, 30000, 0), 30000)).unwrap();
    let unconfirmed = lp.get_unconfirmed_txs();
    assert_eq!(unconfirmed.len(), 1);
    assert_eq!(unconfirmed[0].pools, vec![7, 8]);
    // a replay against the first pool fails and leaves the record as it was
    let r = lp.execute_tx(Txid(1), &deposit_intention(7, 0, vec![], utxo(1, 0, 20000, 0), 20000));
    assert_eq!(r.unwrap_err(), ExchangeError::PoolStateExpired(1));
    assert_eq!(lp.get_unconfirmed_txs()[0].pools, vec![7, 8]);
}

#[test]
fn execute_borrow_through_the_exchange() {
    let mut lp = exchange_with_pool(7);
    lp.execute_tx(Txid(1), &deposit_intention(7, 0, vec![], utxo(1, 0, 100000, 0), 100000)).unwrap();
    let held = lp.get(7).unwrap().states()[0].utxo.unwrap();
    let intention = Intention {
        action: Action::Borrow,
        pool_address: 7,
        nonce: 1,
        pool_utxo_spent: vec![held.outpoint()],
        pool_utxo_received: vec![utxo(2, 0, 80000, 20000)],
        input_coins: vec![InputCoin { coin: CoinBalance { id: rune_id(), value: 20000 } }],
        output_coins: vec![OutputCoin { coin: btc_coin(20000) }],
    };
    let state = lp.execute_tx(Txid(2), &intention).unwrap();
    assert_eq!(state.nonce, 2);
    assert_eq!(state.btc_supply(), 80000);
    assert_eq!(state.rune_supply(), 20000);
    assert_eq!(lp.get(7).unwrap().states().len(), 2);
}

#[test]
fn rollback_tx_undoes_every_touched_pool_and_drops_the_record() {
    let mut lp = exchange_with_pool(7);
    lp.insert(Pool::new(8, pool_meta()));
    lp.execute_tx(Txid(1), &deposit_intention(7, 0, vec![], utxo(1, 0, 20000, 0), 20000)).unwrap();
    lp.execute_tx(Txid(1), &deposit_intention(8, 0, vec![], utxo(1, 1, 30000, 0), 30000)).unwrap();
    lp.rollback_tx(Txid(1)).unwrap();
    assert!(lp.get(7).unwrap().states().is_empty());
    assert!(lp.get(8).unwrap().states().is_empty());
    assert!(lp.get_unconfirmed_txs().is_empty());
    // the record is gone, so a second signal is rejected
    assert_eq!(lp.rollback_tx(Txid(1)).unwrap_err(), ExchangeError::InvalidTxid);
}

#[test]
fn rollback_tx_keeps_unrelated_history() {
    let mut lp = exchange_with_pool(7);
    lp.execute_tx(Txid(1), &deposit_intention(7, 0, vec![], utxo(1, 0, 20000, 0), 20000)).unwrap();
    let held = lp.get(7).unwrap().states()[0].utxo.unwrap();
    lp.execute_tx(Txid(2), &deposit_intention(7, 1, vec![held], utxo(2, 0, 35000, 0), 15000)).unwrap();
    lp.rollback_tx(Txid(2)).unwrap();
    let pool = lp.get(7).unwrap();
    assert_eq!(pool.states().len(), 1);
    assert_eq!(pool.states()[0].id, Txid(1));
    let unconfirmed = lp.get_unconfirmed_txs();
    assert_eq!(unconfirmed.len(), 1);
    assert_eq!(unconfirmed[0].txid, Txid(1));
}

#[test]
fn pre_deposit_quotes_the_current_state() {
    let mut lp = exchange_with_pool(7);
    // below the minimum transfer amount of the settlement asset
    assert_eq!(lp.pre_deposit(7, btc_coin(100)).unwrap_err(), ExchangeError::TooSmallFunds);
    assert_eq!(lp.pre_deposit(9, btc_coin(20000)).unwrap_err(), ExchangeError::InvalidPool);
    let offer = lp.pre_deposit(7, btc_coin(20000)).unwrap();
    assert_eq!(offer.nonce, 0);
    assert!(offer.pool_utxo.is_none());
    lp.execute_tx(Txid(1), &deposit_intention(7, 0, vec![], utxo(1, 0, 20000, 0), 20000)).unwrap();
    let offer = lp.pre_deposit(7, btc_coin(20000)).unwrap();
    assert_eq!(offer.nonce, 1);
    assert_eq!(offer.pool_utxo, Some(utxo(1, 0, 20000, 0)));
}

#[test]
fn pre_borrow_quotes_collateral_and_clamped_output() {
    let mut lp = exchange_with_pool(7);
    assert_eq!(lp.pre_borrow(9, btc_coin(20000)).unwrap_err(), ExchangeError::InvalidPool);
    assert_eq!(lp.pre_borrow(7, btc_coin(20000)).unwrap_err(), ExchangeError::EmptyPool);
    lp.execute_tx(Txid(1), &deposit_intention(7, 0, vec![], utxo(1, 0, 100000, 0), 100000)).unwrap();
    let offer = lp.pre_borrow(7, btc_coin(200000)).unwrap();
    assert_eq!(offer.nonce, 1);
    assert_eq!(offer.pool_utxo, utxo(1, 0, 100000, 0));
    assert_eq!(offer.input_runes, CoinBalance { id: rune_id(), value: 99454 });
    assert_eq!(offer.output_btc, CoinBalance { id: CoinId::btc(), value: 99454 });
}

#[test]
fn pool_listings_report_every_pool() {
    let mut lp = exchange_with_pool(7);
    lp.insert(Pool::new(8, pool_meta()));
    let list = lp.get_pool_list();
    assert_eq!(list.len(), 2);
    assert_eq!(list[0].address, 7);
    assert_eq!(list[0].name, "HOPE-YOU-GET-RICH");
    assert_eq!(list[1].address, 8);
    assert!(lp.get_pool_info(9).is_none());
    lp.execute_tx(Txid(1), &deposit_intention(7, 0, vec![], utxo(1, 0, 20000, 0), 20000)).unwrap();
    let info = lp.get_pool_info(7).unwrap();
    assert_eq!(info.address, 7);
    assert_eq!(info.nonce, 1);
    assert_eq!(info.btc_reserved, 20000);
    assert_eq!(info.coin_reserved, CoinBalance { id: rune_id(), value: 0 });
    assert_eq!(info.utxos.len(), 1);
    assert_eq!(LendingPools::get_minimal_tx_value(), 10000);
}

#[test]
fn inserting_under_the_same_address_replaces_the_pool() {
    let mut lp = exchange_with_pool(7);
    lp.execute_tx(Txid(1), &deposit_intention(7, 0, vec![], utxo(1, 0, 20000, 0), 20000)).unwrap();
    lp.insert(Pool::new(7, pool_meta()));
    assert!(lp.get(7).unwrap().states().is_empty());
    assert_eq!(lp.get_pool_list().len(), 1);
}

#[test]
fn deposit_action_validates_without_committing() {
    let lp = exchange_with_pool(7);
    let state = lp.deposit(Txid(1), &deposit_intention(7, 0, vec![], utxo(1, 0, 20000, 0), 20000)).unwrap();
    assert_eq!(state.nonce, 1);
    assert_eq!(state.btc_supply(), 20000);
    // validation alone never mutates the ledger
    assert!(lp.get(7).unwrap().states().is_empty());
    assert!(lp.get_unconfirmed_txs().is_empty());
    let r = lp.deposit(Txid(1), &deposit_intention(9, 0, vec![], utxo(1, 0, 20000, 0), 20000));
    assert_eq!(r.unwrap_err(), ExchangeError::InvalidPool);
}

#[test]
fn borrow_action_validates_without_committing() {
    let mut lp = exchange_with_pool(7);
    lp.execute_tx(Txid(1), &deposit_intention(7, 0, vec![], utxo(1, 0, 100000, 0), 100000)).unwrap();
    let held = lp.get(7).unwrap().states()[0].utxo.unwrap();
    let intention = Intention {
        action: Action::Borrow,
        pool_address: 7,
        nonce: 1,
        pool_utxo_spent: vec![held.outpoint()],
        pool_utxo_received: vec![utxo(2, 0, 80000, 20000)],
        input_coins: vec![InputCoin { coin: CoinBalance { id: rune_id(), value: 20000 } }],
        output_coins: vec![OutputCoin { coin: btc_coin(20000) }],
    };
    let state = lp.borrow(Txid(2), &intention).unwrap();
    assert_eq!(state.nonce, 2);
    assert_eq!(state.btc_supply(), 80000);
    assert_eq!(lp.get(7).unwrap().states().len(), 1);
}

#[test]
fn validate_then_commit_is_the_staged_settlement_path() {
    // the asynchronous signing step sits between validation and
    // commit, so the two are also usable separately
    let mut lp = exchange_with_pool(7);
    let intention = deposit_intention(7, 0, vec![], utxo(1, 0, 20000, 0), 20000);
    let (state, consumed) = lp
        .get(7)
        .unwrap()
        .validate_deposit(
            Txid(1),
            intention.nonce,
            &intention.pool_utxo_spent,
            &intention.pool_utxo_received,
            &intention.input_coins,
            &intention.output_coins,
        )
        .unwrap();
    assert!(consumed.is_none());
    let mut pool = Pool::new(7, pool_meta());
    pool.commit(state);
    lp.insert(pool);
    assert_eq!(lp.get(7).unwrap().states().len(), 1);
}
