use ree_lending_demo_backend::pool::{CoinMeta, Pool, PoolState, MIN_BTC_VALUE};
use ree_lending_demo_backend::types::{CoinBalance, CoinId, InputCoin, OutPoint, OutputCoin, Txid, Utxo};
use ree_lending_demo_backend::ExchangeError;

fn rune_id() -> CoinId {
    CoinId::rune(72798, 1058)
}

fn pool_meta() -> CoinMeta {
    CoinMeta { id: rune_id(), symbol: "HOPE-YOU-GET-RICH".to_string(), min_amount: 1 }
}

fn btc_coin(value: u128) -> CoinBalance {
    CoinBalance { id: CoinId::btc(), value }
}

fn rune_coin(value: u128) -> CoinBalance {
    CoinBalance { id: rune_id(), value }
}

fn utxo(txid: u64, vout: u32, sats: u64, rune: u128) -> Utxo {
    Utxo {
        txid: Txid(txid),
        vout,
        sats,
        maybe_rune: Some(CoinBalance { id: rune_id(), value: rune }),
    }
}

fn deposit(
    pool: &Pool,
    txid: u64,
    nonce: u64,
    spent: Vec<OutPoint>,
    received: Vec<Utxo>,
    amount: u128,
) -> Result<(PoolState, Option<Utxo>), ExchangeError> {
    pool.validate_deposit(
        Txid(txid),
        nonce,
        &spent,
        &received,
        &vec![InputCoin { coin: btc_coin(amount) }],
        &vec![],
    )
}

#[test]
fn first_deposit_mints_nonce_one() {
    let mut pool = Pool::new(7, pool_meta());
    let received = utxo(1, 0, 20000, 0);
    let (state, consumed) = deposit(&pool, 1, 0, vec![], vec![received], 20000).unwrap();
    assert_eq!(state.nonce, 1);
    assert_eq!(state.id, Txid(1));
    assert_eq!(state.btc_supply(), 20000);
    assert_eq!(state.rune_supply(), 0);
    assert!(consumed.is_none());
    pool.commit(state);
    assert_eq!(pool.states().len(), 1);
}

#[test]
fn deposits_grow_reserve_and_nonce() {
    let mut pool = Pool::new(7, pool_meta());
    let (s1, _) = deposit(&pool, 1, 0, vec![], vec![utxo(1, 0, 20000, 0)], 20000).unwrap();
    pool.commit(s1);
    let basis = s1.utxo.unwrap().outpoint();
    let (s2, consumed) =
        deposit(&pool, 2, 1, vec![basis], vec![utxo(2, 0, 35000, 0)], 15000).unwrap();
    assert_eq!(s2.nonce, 2);
    assert_eq!(s2.btc_supply(), 35000);
    assert!(s2.btc_supply() >= s1.btc_supply());
    assert_eq!(consumed, s1.utxo);
    pool.commit(s2);
    assert_eq!(pool.states().len(), 2);
    assert_eq!(pool.states()[0].nonce, 1);
    assert_eq!(pool.states()[1].nonce, 2);
}

#[test]
fn replayed_nonce_is_rejected() {
    let mut pool = Pool::new(7, pool_meta());
    let (s1, _) = deposit(&pool, 1, 0, vec![], vec![utxo(1, 0, 20000, 0)], 20000).unwrap();
    pool.commit(s1);
    // the same request again, quoting the stale nonce 0
    let r = deposit(&pool, 2, 0, vec![], vec![utxo(2, 0, 20000, 0)], 20000);
    assert_eq!(r.unwrap_err(), ExchangeError::PoolStateExpired(1));
}

#[test]
fn replayed_nonce_is_rejected_for_borrow() {
    let pool = Pool {
        meta: pool_meta(),
        addr: 7,
        states: vec![PoolState {
            id: Txid(1),
            nonce: 1,
            utxo: Some(utxo(1, 0, 100000, 0)),
            rune_id: rune_id(),
        }],
    };
    let r = pool.validate_borrow(
        Txid(2),
        0,
        &vec![utxo(1, 0, 100000, 0).outpoint()],
        &vec![utxo(2, 0, 80000, 20000)],
        &vec![InputCoin { coin: rune_coin(20000) }],
        &vec![OutputCoin { coin: btc_coin(20000) }],
    );
    assert_eq!(r.unwrap_err(), ExchangeError::PoolStateExpired(1));
}

#[test]
fn deposit_below_minimum_is_rejected() {
    let pool = Pool::new(7, pool_meta());
    let r = deposit(&pool, 1, 0, vec![], vec![utxo(1, 0, 5000, 0)], 5000);
    assert_eq!(r.unwrap_err(), ExchangeError::TooSmallFunds);
    assert_eq!(MIN_BTC_VALUE, 10000);
}

#[test]
fn deposit_with_wrong_coin_is_rejected() {
    let pool = Pool::new(7, pool_meta());
    let r = pool.validate_deposit(
        Txid(1),
        0,
        &vec![],
        &vec![utxo(1, 0, 20000, 0)],
        &vec![InputCoin { coin: rune_coin(20000) }],
        &vec![],
    );
    assert_eq!(r.unwrap_err(), ExchangeError::InvalidSignPsbtArgs);
}

#[test]
fn deposit_with_wrong_structure_is_rejected() {
    let pool = Pool::new(7, pool_meta());
    let r = pool.validate_deposit(
        Txid(1),
        0,
        &vec![],
        &vec![utxo(1, 0, 20000, 0)],
        &vec![InputCoin { coin: btc_coin(20000) }, InputCoin { coin: btc_coin(1) }],
        &vec![],
    );
    assert_eq!(r.unwrap_err(), ExchangeError::InvalidSignPsbtArgs);
}

#[test]
fn deposit_on_stale_basis_is_rejected() {
    let mut pool = Pool::new(7, pool_meta());
    let (s1, _) = deposit(&pool, 1, 0, vec![], vec![utxo(1, 0, 20000, 0)], 20000).unwrap();
    pool.commit(s1);
    // claims to spend an outpoint that is not the pool's current UTXO
    let wrong_basis = OutPoint { txid: Txid(99), vout: 0 };
    let r = deposit(&pool, 2, 1, vec![wrong_basis], vec![utxo(2, 0, 35000, 0)], 15000);
    assert_eq!(r.unwrap_err(), ExchangeError::InvalidSignPsbtArgs);
}

#[test]
fn deposit_without_pool_output_is_rejected() {
    let pool = Pool::new(7, pool_meta());
    let r = deposit(&pool, 1, 0, vec![], vec![], 20000);
    assert_eq!(r.unwrap_err(), ExchangeError::InvalidSignPsbtArgs);
}

#[test]
fn deposit_overflow_is_rejected() {
    let pool = Pool {
        meta: pool_meta(),
        addr: 7,
        states: vec![PoolState {
            id: Txid(1),
            nonce: 1,
            utxo: Some(utxo(1, 0, u64::MAX - 5, 0)),
            rune_id: rune_id(),
        }],
    };
    let basis = utxo(1, 0, u64::MAX - 5, 0).outpoint();
    let r = deposit(&pool, 2, 1, vec![basis], vec![utxo(2, 0, 1, 0)], 20000);
    assert_eq!(r.unwrap_err(), ExchangeError::Overflow);
    // an amount that no u64 can hold
    let r = deposit(&pool, 2, 1, vec![basis], vec![utxo(2, 0, 1, 0)], u128::from(u64::MAX) + 1);
    assert_eq!(r.unwrap_err(), ExchangeError::Overflow);
}

fn pool_with_reserve(sats: u64, rune: u128) -> Pool {
    Pool {
        meta: pool_meta(),
        addr: 7,
        states: vec![PoolState {
            id: Txid(1),
            nonce: 1,
            utxo: Some(utxo(1, 0, sats, rune)),
            rune_id: rune_id(),
        }],
    }
}

#[test]
fn borrow_quote_is_clamped_to_reserve_minus_minimum() {
    let pool = pool_with_reserve(100000, 0);
    // requesting more than the reserve can spare yields a partial fill
    let (runes, btc) = pool.available_to_borrow(btc_coin(200000)).unwrap();
    assert_eq!(btc.value, 99454);
    assert_eq!(runes.value, 99454);
    assert_eq!(runes.id, rune_id());
    assert_eq!(btc.id, CoinId::btc());
    // a request the reserve can spare is returned unchanged
    let (runes, btc) = pool.available_to_borrow(btc_coin(50000)).unwrap();
    assert_eq!(btc.value, 50000);
    assert_eq!(runes.value, 50000);
    // the boundary itself
    let (_, btc) = pool.available_to_borrow(btc_coin(99454)).unwrap();
    assert_eq!(btc.value, 99454);
}

#[test]
fn borrow_quote_errors() {
    // no state at all
    let empty = Pool::new(7, pool_meta());
    assert_eq!(empty.available_to_borrow(btc_coin(1000)).unwrap_err(), ExchangeError::EmptyPool);
    // a reserve of zero
    let drained = pool_with_reserve(0, 0);
    assert_eq!(drained.available_to_borrow(btc_coin(1000)).unwrap_err(), ExchangeError::EmptyPool);
    // a reserve below the minimum cannot spare anything
    let thin = pool_with_reserve(500, 0);
    assert_eq!(thin.available_to_borrow(btc_coin(1000)).unwrap_err(), ExchangeError::Overflow);
    // exactly the minimum: the quote clamps to zero
    let atmin = pool_with_reserve(546, 0);
    let (runes, btc) = atmin.available_to_borrow(btc_coin(1000)).unwrap();
    assert_eq!(btc.value, 0);
    assert_eq!(runes.value, 0);
    // asking for a coin the pool does not lend
    let pool = pool_with_reserve(100000, 0);
    assert_eq!(pool.available_to_borrow(rune_coin(1000)).unwrap_err(), ExchangeError::InvalidPool);
}

#[test]
fn borrow_moves_reserve_into_collateral() {
    let pool = pool_with_reserve(100000, 500);
    let basis = utxo(1, 0, 100000, 500).outpoint();
    let (state, consumed) = pool
        .validate_borrow(
            Txid(2),
            1,
            &vec![basis],
            &vec![utxo(2, 0, 80000, 20500)],
            &vec![InputCoin { coin: rune_coin(20000) }],
            &vec![OutputCoin { coin: btc_coin(20000) }],
        )
        .unwrap();
    assert_eq!(state.nonce, 2);
    assert_eq!(state.id, Txid(2));
    assert_eq!(state.btc_supply(), 80000);
    assert_eq!(state.rune_supply(), 20500);
    assert_eq!(consumed, utxo(1, 0, 100000, 500));
}

#[test]
fn borrow_that_deviates_from_quote_is_rejected() {
    // the reserve can spare only 19454, so a 20000 output deviates
    let pool = pool_with_reserve(20000, 0);
    let basis = utxo(1, 0, 20000, 0).outpoint();
    let r = pool.validate_borrow(
        Txid(2),
        1,
        &vec![basis],
        &vec![utxo(2, 0, 546, 20000)],
        &vec![InputCoin { coin: rune_coin(20000) }],
        &vec![OutputCoin { coin: btc_coin(20000) }],
    );
    assert_eq!(r.unwrap_err(), ExchangeError::InvalidSignPsbtArgs);
    // collateral that does not match the quote
    let pool = pool_with_reserve(100000, 0);
    let basis = utxo(1, 0, 100000, 0).outpoint();
    let r = pool.validate_borrow(
        Txid(2),
        1,
        &vec![basis],
        &vec![utxo(2, 0, 80000, 20000)],
        &vec![InputCoin { coin: rune_coin(999) }],
        &vec![OutputCoin { coin: btc_coin(20000) }],
    );
    assert_eq!(r.unwrap_err(), ExchangeError::InvalidSignPsbtArgs);
}

#[test]
fn borrow_below_minimum_is_rejected() {
    let pool = pool_with_reserve(100000, 0);
    let basis = utxo(1, 0, 100000, 0).outpoint();
    let r = pool.validate_borrow(
        Txid(2),
        1,
        &vec![basis],
        &vec![utxo(2, 0, 91000, 9000)],
        &vec![InputCoin { coin: rune_coin(9000) }],
        &vec![OutputCoin { coin: btc_coin(9000) }],
    );
    assert_eq!(r.unwrap_err(), ExchangeError::TooSmallFunds);
}

#[test]
fn borrow_on_empty_pool_is_rejected() {
    let pool = Pool::new(7, pool_meta());
    let r = pool.validate_borrow(
        Txid(2),
        0,
        &vec![OutPoint { txid: Txid(1), vout: 0 }],
        &vec![utxo(2, 0, 1000, 0)],
        &vec![InputCoin { coin: rune_coin(1000) }],
        &vec![OutputCoin { coin: btc_coin(1000) }],
    );
    assert_eq!(r.unwrap_err(), ExchangeError::EmptyPool);
}

fn three_state_pool() -> Pool {
    Pool {
        meta: pool_meta(),
        addr: 7,
        states: vec![
            PoolState { id: Txid(1), nonce: 1, utxo: Some(utxo(1, 0, 20000, 0)), rune_id: rune_id() },
            PoolState { id: Txid(2), nonce: 2, utxo: Some(utxo(2, 0, 35000, 0)), rune_id: rune_id() },
            PoolState { id: Txid(3), nonce: 3, utxo: Some(utxo(3, 0, 50000, 0)), rune_id: rune_id() },
        ],
    }
}

#[test]
fn rollback_truncates_from_the_matched_state() {
    let mut pool = three_state_pool();
    pool.rollback(Txid(2)).unwrap();
    assert_eq!(pool.states().len(), 1);
    assert_eq!(pool.states()[0].id, Txid(1));
}

#[test]
fn rollback_of_first_state_clears_the_chain() {
    let mut pool = three_state_pool();
    pool.rollback(Txid(1)).unwrap();
    assert!(pool.states().is_empty());
}

#[test]
fn rollback_of_unknown_txid_is_rejected() {
    let mut pool = three_state_pool();
    assert_eq!(pool.rollback(Txid(9)).unwrap_err(), ExchangeError::InvalidTxid);
    assert_eq!(pool.states().len(), 3);
}

#[test]
fn rollback_then_recommit_reproduces_the_ledger() {
    let mut pool = three_state_pool();
    let last = pool.states()[2];
    pool.rollback(Txid(3)).unwrap();
    assert_eq!(pool.states().len(), 2);
    // an equivalent state settles again
    pool.commit(last);
    assert_eq!(pool.states().clone(), three_state_pool().states().clone());
}

#[test]
fn finalize_pivots_and_keeps_the_current_state() {
    let mut pool = three_state_pool();
    let last_before = pool.states()[2];
    pool.finalize(Txid(2)).unwrap();
    assert_eq!(pool.states().len(), 2);
    assert_eq!(pool.states()[0].id, Txid(2));
    assert_eq!(pool.states()[1], last_before);
    // finalizing the first retained state is a no-op
    pool.finalize(Txid(2)).unwrap();
    assert_eq!(pool.states().len(), 2);
    assert_eq!(pool.states()[1], last_before);
}

#[test]
fn finalize_of_unknown_txid_is_rejected() {
    let mut pool = three_state_pool();
    assert_eq!(pool.finalize(Txid(9)).unwrap_err(), ExchangeError::InvalidTxid);
    assert_eq!(pool.states().len(), 3);
}

#[test]
fn state_accessors_report_reserves() {
    let state = PoolState { id: Txid(3), nonce: 3, utxo: Some(utxo(3, 1, 50000, 750)), rune_id: rune_id() };
    assert_eq!(state.btc_supply(), 50000);
    assert_eq!(state.rune_supply(), 750);
    let info = state.inspect_state();
    assert_eq!(info.txid, Txid(3));
    assert_eq!(info.nonce, 3);
    assert_eq!(info.btc_reserved, 50000);
    assert_eq!(info.coin_reserved, CoinBalance { id: rune_id(), value: 750 });
    assert_eq!(info.utxos.len(), 1);
    assert_eq!(info.utxos[0].vout, 1);
    let initial = PoolState::default();
    assert_eq!(initial.nonce, 0);
    assert_eq!(initial.id, Txid::zero());
    assert_eq!(initial.btc_supply(), 0);
    assert_eq!(initial.rune_supply(), 0);
}

#[test]
fn error_messages_name_the_failure() {
    assert_eq!(ExchangeError::Overflow.message(), "overflow");
    assert_eq!(ExchangeError::InvalidPool.message(), "invalid pool");
    assert_eq!(ExchangeError::TooSmallFunds.message(), "too small funds");
    assert_eq!(ExchangeError::InvalidTxid.message(), "invalid txid");
    assert_eq!(
        ExchangeError::EmptyPool.message(),
        "the pool has not been initialized or has been removed"
    );
    assert_eq!(ExchangeError::PoolStateExpired(4).message(), "pool state expired");
}

#[test]
fn coin_meta_btc_is_the_settlement_asset() {
    let meta = CoinMeta::btc();
    assert_eq!(meta.id, CoinId::btc());
    assert_eq!(meta.symbol, "BTC");
    assert_eq!(meta.min_amount, 546);
}
