//! Pool ledger: the append-only state chain of one lending market.
//!
//! A pool pairs the Bitcoin settlement asset with one collateral coin
//! at a fixed 1:1 ratio.  Every committed balance transition appends a
//! [`PoolState`] to the chain; rollback truncates the chain from the
//! tail, finalize discards the prefix before an irreversible state.

use vstd::prelude::*;

use crate::ExchangeError;
use crate::types::{CoinBalance, CoinId, InputCoin, OutPoint, OutputCoin, Txid, Utxo};

verus! {

/// Every settlement transaction must move at least this many satoshis.
pub const MIN_BTC_VALUE: u64 = 10000;

/// The satoshi reserve a pool must retain at all times: the minimum
/// transfer amount of the settlement asset.
pub const BTC_MIN_AMOUNT: u128 = 546;

/// Immutable description of one coin accepted by a pool.
#[derive(Clone, Debug)]
pub struct CoinMeta {
    pub id: CoinId,
    pub symbol: String,
    pub min_amount: u128,
}

impl CoinMeta {
    /// The settlement asset: Bitcoin itself.
    pub fn btc() -> (r: CoinMeta)
        ensures
            r.id == CoinId::spec_btc(),
            r.symbol@ == "BTC"@,
            r.min_amount == BTC_MIN_AMOUNT,
    {
        CoinMeta { id: CoinId::btc(), symbol: "BTC".to_string(), min_amount: 546 }
    }
}

/// One committed state of a pool: the transaction that produced it,
/// the replay-protection nonce, and the single UTXO holding the
/// pool's combined balance (absent only before the first deposit).
#[derive(Clone, Copy, Debug, PartialEq, Eq, Structural)]
pub struct PoolState {
    pub id: Txid,
    pub nonce: u64,
    pub utxo: Option<Utxo>,
    pub rune_id: CoinId,
}

impl PoolState {
    /// The synthetic initial state a pool is measured against before
    /// any deposit has been committed.
    pub open spec fn spec_default() -> PoolState {
        PoolState {
            id: Txid(0),
            nonce: 0,
            utxo: None,
            rune_id: CoinId { block: 72798, tx: 1058 },
        }
    }

    /// Satoshis held by this state.
    pub open spec fn spec_btc_supply(self) -> u64 {
        match self.utxo {
            Some(u) => u.sats,
            None => 0,
        }
    }

    /// Satoshis held by this state.
    pub fn btc_supply(&self) -> (r: u64)
        ensures
            r == self.spec_btc_supply(),
    {
        match self.utxo {
            Some(u) => u.sats,
            None => 0,
        }
    }

    /// Collateral-coin amount held by this state.
    pub open spec fn spec_rune_supply(self) -> u128 {
        match self.utxo {
            Some(u) => u.spec_value_of(self.rune_id),
            None => 0,
        }
    }

    /// Collateral-coin amount held by this state.
    pub fn rune_supply(&self) -> (r: u128)
        ensures
            r == self.spec_rune_supply(),
    {
        match self.utxo {
            Some(u) => u.value_of(&self.rune_id),
            None => 0,
        }
    }

    /// Reserve summary of this state, for callers that display a pool.
    pub fn inspect_state(&self) -> (r: StateInfo)
        ensures
            r.txid == self.id,
            r.nonce == self.nonce,
            r.btc_reserved == self.spec_btc_supply(),
            r.coin_reserved == (CoinBalance { id: self.rune_id, value: self.spec_rune_supply() }),
            r.utxos@ == match self.utxo {
                Some(u) => seq![u],
                None => Seq::<Utxo>::empty(),
            },
    {
        let mut utxos: Vec<Utxo> = Vec::new();
        match self.utxo {
            Some(u) => utxos.push(u),
            None => (),
        }
        StateInfo {
            txid: self.id,
            nonce: self.nonce,
            btc_reserved: self.btc_supply(),
            coin_reserved: CoinBalance { id: self.rune_id, value: self.rune_supply() },
            utxos,
        }
    }
}

impl Default for PoolState {
    fn default() -> (r: Self)
        ensures
            r == PoolState::spec_default(),
    {
        PoolState { id: Txid::zero(), nonce: 0, utxo: None, rune_id: CoinId::rune(72798, 1058) }
    }
}

/// Reserve summary of one pool state.
#[derive(Clone, Debug)]
pub struct StateInfo {
    pub txid: Txid,
    pub nonce: u64,
    pub btc_reserved: u64,
    pub coin_reserved: CoinBalance,
    pub utxos: Vec<Utxo>,
}

/// One lending market: its coin metadata, its address, and its ordered
/// chain of committed states.
#[derive(Clone, Debug)]
pub struct Pool {
    pub meta: CoinMeta,
    pub addr: u64,
    pub states: Vec<PoolState>,
}

impl Pool {
    /// The state chain is gapless: the nonce of the state at position
    /// `i` exceeds the nonce of the first retained state by exactly
    /// `i`, so nonces are strictly increasing by one per transition.
    pub open spec fn wf(self) -> bool {
        forall|i: int|
            0 <= i < self.states@.len() ==> #[trigger] self.states@[i].nonce == self.states@[0].nonce
                + i
    }

    /// The state the next transition builds on: the last committed
    /// state, or the synthetic initial state of an empty chain.
    pub open spec fn spec_current_state(self) -> PoolState {
        if self.states@.len() == 0 {
            PoolState::spec_default()
        } else {
            self.states@.last()
        }
    }

    /// The nonce the next transition must quote.
    pub open spec fn spec_current_nonce(self) -> u64 {
        self.spec_current_state().nonce
    }

    /// A fresh pool with no committed state.
    pub fn new(addr: u64, meta: CoinMeta) -> (r: Pool)
        ensures
            r.addr == addr,
            r.meta == meta,
            r.states@ == Seq::<PoolState>::empty(),
            r.wf(),
    {
        Pool { meta, addr, states: Vec::new() }
    }

    /// The committed state chain, oldest first.
    pub fn states(&self) -> (r: &Vec<PoolState>)
        ensures
            r@ == self.states@,
    {
        &self.states
    }

    /// The state the next transition builds on.
    pub fn current_state(&self) -> (r: PoolState)
        ensures
            r == self.spec_current_state(),
    {
        if self.states.len() == 0 {
            PoolState::default()
        } else {
            self.states[self.states.len() - 1]
        }
    }
}

/// The outpoint of the UTXO held by a state, if the state holds one.
pub open spec fn spec_held_outpoint(utxo: Option<Utxo>) -> Option<OutPoint> {
    match utxo {
        Some(u) => Some(u.spec_outpoint()),
        None => None,
    }
}

/// The last element of a list of outpoints, if the list is non-empty.
pub open spec fn spec_last_outpoint(spent: Seq<OutPoint>) -> Option<OutPoint> {
    if spent.len() == 0 {
        None
    } else {
        Some(spent.last())
    }
}

impl Pool {
    /// Outcome of validating a deposit against this pool, in the order
    /// the checks are made: transaction structure, settlement coin,
    /// replay nonce, spent-basis outpoint, presence of the pool
    /// output, economic minimum, and checked arithmetic.
    pub open spec fn spec_validate_deposit(
        self,
        txid: Txid,
        nonce: u64,
        pool_utxo_spent: Seq<OutPoint>,
        pool_utxo_received: Seq<Utxo>,
        input_coins: Seq<InputCoin>,
        output_coins: Seq<OutputCoin>,
    ) -> Result<(PoolState, Option<Utxo>), ExchangeError> {
        if !(input_coins.len() == 1 && output_coins.len() == 0) {
            Err(ExchangeError::InvalidSignPsbtArgs)
        } else if input_coins[0].coin.id != CoinId::spec_btc() {
            Err(ExchangeError::InvalidSignPsbtArgs)
        } else {
            let state = self.spec_current_state();
            if state.nonce != nonce {
                Err(ExchangeError::PoolStateExpired(state.nonce))
            } else if spec_held_outpoint(state.utxo) != spec_last_outpoint(pool_utxo_spent) {
                Err(ExchangeError::InvalidSignPsbtArgs)
            } else if pool_utxo_received.len() == 0 {
                Err(ExchangeError::InvalidSignPsbtArgs)
            } else if input_coins[0].coin.value < MIN_BTC_VALUE as u128 {
                Err(ExchangeError::TooSmallFunds)
            } else if input_coins[0].coin.value > u64::MAX as u128 {
                Err(ExchangeError::Overflow)
            } else {
                let sats_input = input_coins[0].coin.value as u64;
                let btc_pool = state.spec_btc_supply();
                let rune_pool = state.spec_rune_supply();
                if btc_pool + sats_input > u64::MAX {
                    Err(ExchangeError::Overflow)
                } else if state.nonce == u64::MAX {
                    Err(ExchangeError::Overflow)
                } else {
                    let received = pool_utxo_received.last();
                    let pool_output = Utxo {
                        txid: received.txid,
                        vout: received.vout,
                        sats: (btc_pool + sats_input) as u64,
                        maybe_rune: Some(CoinBalance { id: state.rune_id, value: rune_pool }),
                    };
                    Ok(
                        (
                            PoolState {
                                id: txid,
                                nonce: (state.nonce + 1) as u64,
                                utxo: Some(pool_output),
                                rune_id: state.rune_id,
                            },
                            state.utxo,
                        ),
                    )
                }
            }
        }
    }

    /// Validates a deposit: one settlement-asset input, no output, the
    /// current nonce, and a basis matching the held UTXO.  On success
    /// returns the state the deposit would commit (reserve grown by
    /// the deposited amount, nonce advanced by one) together with the
    /// previously held UTXO the caller must arrange to spend.
    pub fn validate_deposit(
        &self,
        txid: Txid,
        nonce: u64,
        pool_utxo_spent: &Vec<OutPoint>,
        pool_utxo_received: &Vec<Utxo>,
        input_coins: &Vec<InputCoin>,
        output_coins: &Vec<OutputCoin>,
    ) -> (r: Result<(PoolState, Option<Utxo>), ExchangeError>)
        ensures
            r == self.spec_validate_deposit(
                txid,
                nonce,
                pool_utxo_spent@,
                pool_utxo_received@,
                input_coins@,
                output_coins@,
            ),
    {
        if !(input_coins.len() == 1 && output_coins.len() == 0) {
            return Err(ExchangeError::InvalidSignPsbtArgs);
        }
        let btc_input = input_coins[0].coin;
        if !(btc_input.id == CoinId::btc()) {
            return Err(ExchangeError::InvalidSignPsbtArgs);
        }
        let state = self.current_state();
        if state.nonce != nonce {
            return Err(ExchangeError::PoolStateExpired(state.nonce));
        }
        let held: Option<OutPoint> = match state.utxo {
            Some(u) => Some(u.outpoint()),
            None => None,
        };
        let spent_last: Option<OutPoint> = if pool_utxo_spent.len() == 0 {
            None
        } else {
            Some(pool_utxo_spent[pool_utxo_spent.len() - 1])
        };
        let basis_matches = match (held, spent_last) {
            (None, None) => true,
            (Some(a), Some(b)) => a == b,
            _ => false,
        };
        if !basis_matches {
            return Err(ExchangeError::InvalidSignPsbtArgs);
        }
        if pool_utxo_received.len() == 0 {
            return Err(ExchangeError::InvalidSignPsbtArgs);
        }
        let received = pool_utxo_received[pool_utxo_received.len() - 1];
        if btc_input.value < MIN_BTC_VALUE as u128 {
            return Err(ExchangeError::TooSmallFunds);
        }
        if btc_input.value > u64::MAX as u128 {
            return Err(ExchangeError::Overflow);
        }
        let sats_input = btc_input.value as u64;
        let btc_pool = state.btc_supply();
        let rune_pool = state.rune_supply();
        let btc_output = match btc_pool.checked_add(sats_input) {
            Some(v) => v,
            None => {
                return Err(ExchangeError::Overflow);
            },
        };
        let new_nonce = match state.nonce.checked_add(1) {
            Some(v) => v,
            None => {
                return Err(ExchangeError::Overflow);
            },
        };
        let pool_output = Utxo {
            txid: received.txid,
            vout: received.vout,
            sats: btc_output,
            maybe_rune: Some(CoinBalance { id: state.rune_id, value: rune_pool }),
        };
        Ok(
            (
                PoolState { id: txid, nonce: new_nonce, utxo: Some(pool_output), rune_id: state.rune_id },
                state.utxo,
            ),
        )
    }

    /// Outcome of quoting a borrow against this pool: the settlement
    /// coin must be requested, the pool must hold liquidity, the
    /// minimum reserve must stay behind, and the offer is the request
    /// clamped to what the reserve can spare.
    pub open spec fn spec_available_to_borrow(self, output_btc: CoinBalance) -> Result<
        (CoinBalance, CoinBalance),
        ExchangeError,
    > {
        if output_btc.id != CoinId::spec_btc() {
            Err(ExchangeError::InvalidPool)
        } else if self.states@.len() == 0 {
            Err(ExchangeError::EmptyPool)
        } else {
            let state = self.states@.last();
            let supply = state.spec_btc_supply();
            if supply == 0 {
                Err(ExchangeError::EmptyPool)
            } else if (supply as u128) < BTC_MIN_AMOUNT {
                Err(ExchangeError::Overflow)
            } else {
                let max_borrow = (supply - BTC_MIN_AMOUNT as u64) as u64;
                let offer: u64 = if output_btc.value > max_borrow as u128 {
                    max_borrow
                } else {
                    output_btc.value as u64
                };
                Ok(
                    (
                        CoinBalance { id: state.rune_id, value: offer as u128 },
                        CoinBalance { id: CoinId::spec_btc(), value: offer as u128 },
                    ),
                )
            }
        }
    }

    /// Outcome of validating a borrow against this pool, in the order
    /// the checks are made: transaction structure, pool liquidity,
    /// replay nonce, spent-basis outpoint, the borrow quote, exact
    /// agreement with the quoted offer, and checked arithmetic.
    pub open spec fn spec_validate_borrow(
        self,
        txid: Txid,
        nonce: u64,
        pool_utxo_spent: Seq<OutPoint>,
        pool_utxo_received: Seq<Utxo>,
        input_coins: Seq<InputCoin>,
        output_coins: Seq<OutputCoin>,
    ) -> Result<(PoolState, Utxo), ExchangeError> {
        if !(input_coins.len() == 1 && output_coins.len() == 1) {
            Err(ExchangeError::InvalidSignPsbtArgs)
        } else if self.states@.len() == 0 {
            Err(ExchangeError::EmptyPool)
        } else {
            let state = self.states@.last();
            if state.nonce != nonce {
                Err(ExchangeError::PoolStateExpired(state.nonce))
            } else if pool_utxo_spent.len() == 0 {
                Err(ExchangeError::InvalidSignPsbtArgs)
            } else {
                match state.utxo {
                    None => Err(ExchangeError::EmptyPool),
                    Some(prev_utxo) => if pool_utxo_spent.last() != prev_utxo.spec_outpoint() {
                        Err(ExchangeError::InvalidSignPsbtArgs)
                    } else {
                        match self.spec_available_to_borrow(output_coins[0].coin) {
                            Err(e) => Err(e),
                            Ok(quote) => {
                                let runes = quote.0;
                                let btc = quote.1;
                                let output_btc = btc.value as u64;
                                if output_btc < MIN_BTC_VALUE {
                                    Err(ExchangeError::TooSmallFunds)
                                } else if output_coins[0].coin != btc {
                                    Err(ExchangeError::InvalidSignPsbtArgs)
                                } else if input_coins[0].coin != runes {
                                    Err(ExchangeError::InvalidSignPsbtArgs)
                                } else if prev_utxo.spec_value_of(state.rune_id) + runes.value
                                    > u128::MAX {
                                    Err(ExchangeError::Overflow)
                                } else if pool_utxo_received.len() == 0 {
                                    Err(ExchangeError::InvalidSignPsbtArgs)
                                } else if state.nonce == u64::MAX {
                                    Err(ExchangeError::Overflow)
                                } else {
                                    let received = pool_utxo_received.last();
                                    let pool_output = Utxo {
                                        txid: received.txid,
                                        vout: received.vout,
                                        sats: (prev_utxo.sats - output_btc) as u64,
                                        maybe_rune: Some(
                                            CoinBalance {
                                                id: state.rune_id,
                                                value: (prev_utxo.spec_value_of(state.rune_id)
                                                    + runes.value) as u128,
                                            },
                                        ),
                                    };
                                    Ok(
                                        (
                                            PoolState {
                                                id: txid,
                                                nonce: (state.nonce + 1) as u64,
                                                utxo: Some(pool_output),
                                                rune_id: state.rune_id,
                                            },
                                            prev_utxo,
                                        ),
                                    )
                                }
                            },
                        }
                    },
                }
            }
        }
    }

    /// Validates a borrow: one collateral input, one settlement
    /// output, the current nonce, a basis matching the held UTXO, and
    /// amounts exactly equal to the quoted offer.  On success returns
    /// the state the borrow would commit (reserve shrunk by the
    /// borrowed amount, collateral grown by the pledge, nonce advanced
    /// by one) together with the consumed UTXO the caller must arrange
    /// to have spent.
    pub fn validate_borrow(
        &self,
        txid: Txid,
        nonce: u64,
        pool_utxo_spent: &Vec<OutPoint>,
        pool_utxo_received: &Vec<Utxo>,
        input_coins: &Vec<InputCoin>,
        output_coins: &Vec<OutputCoin>,
    ) -> (r: Result<(PoolState, Utxo), ExchangeError>)
        ensures
            r == self.spec_validate_borrow(
                txid,
                nonce,
                pool_utxo_spent@,
                pool_utxo_received@,
                input_coins@,
                output_coins@,
            ),
    {
        if !(input_coins.len() == 1 && output_coins.len() == 1) {
            return Err(ExchangeError::InvalidSignPsbtArgs);
        }
        let input = input_coins[0];
        let output = output_coins[0];
        if self.states.len() == 0 {
            return Err(ExchangeError::EmptyPool);
        }
        let state = self.states[self.states.len() - 1];
        if state.nonce != nonce {
            return Err(ExchangeError::PoolStateExpired(state.nonce));
        }
        if pool_utxo_spent.len() == 0 {
            return Err(ExchangeError::InvalidSignPsbtArgs);
        }
        let prev_outpoint = pool_utxo_spent[pool_utxo_spent.len() - 1];
        let prev_utxo = match state.utxo {
            Some(u) => u,
            None => {
                return Err(ExchangeError::EmptyPool);
            },
        };
        if !(prev_outpoint == prev_utxo.outpoint()) {
            return Err(ExchangeError::InvalidSignPsbtArgs);
        }
        let quote = match self.available_to_borrow(output.coin) {
            Ok(q) => q,
            Err(e) => {
                return Err(e);
            },
        };
        let runes = quote.0;
        let btc = quote.1;
        let output_btc = btc.value as u64;
        if output_btc < MIN_BTC_VALUE {
            return Err(ExchangeError::TooSmallFunds);
        }
        if !(output.coin == btc) {
            return Err(ExchangeError::InvalidSignPsbtArgs);
        }
        if !(input.coin == runes) {
            return Err(ExchangeError::InvalidSignPsbtArgs);
        }
        assert(prev_utxo.sats >= output_btc);
        let btc_output = prev_utxo.sats - output_btc;
        let rune_output = match prev_utxo.value_of(&state.rune_id).checked_add(runes.value) {
            Some(v) => v,
            None => {
                return Err(ExchangeError::Overflow);
            },
        };
        if pool_utxo_received.len() == 0 {
            return Err(ExchangeError::InvalidSignPsbtArgs);
        }
        let received = pool_utxo_received[pool_utxo_received.len() - 1];
        let new_nonce = match state.nonce.checked_add(1) {
            Some(v) => v,
            None => {
                return Err(ExchangeError::Overflow);
            },
        };
        let pool_output = Utxo {
            txid: received.txid,
            vout: received.vout,
            sats: btc_output,
            maybe_rune: Some(CoinBalance { id: state.rune_id, value: rune_output }),
        };
        Ok(
            (
                PoolState { id: txid, nonce: new_nonce, utxo: Some(pool_output), rune_id: state.rune_id },
                prev_utxo,
            ),
        )
    }

    /// Quotes a borrow: returns the collateral the caller must pledge
    /// and the settlement amount the pool will pay out, both equal to
    /// the requested amount clamped to `reserve - minimum` (the pool
    /// retains the minimum transfer amount at all times).
    pub fn available_to_borrow(&self, output_btc: CoinBalance) -> (r: Result<
        (CoinBalance, CoinBalance),
        ExchangeError,
    >)
        ensures
            r == self.spec_available_to_borrow(output_btc),
    {
        let btc_meta = CoinMeta::btc();
        if !(output_btc.id == btc_meta.id) {
            return Err(ExchangeError::InvalidPool);
        }
        if self.states.len() == 0 {
            return Err(ExchangeError::EmptyPool);
        }
        let recent_state = self.states[self.states.len() - 1];
        let btc_supply = recent_state.btc_supply();
        if btc_supply == 0 {
            return Err(ExchangeError::EmptyPool);
        }
        let min_hold: u64 = btc_meta.min_amount as u64;
        let max_borrow = match btc_supply.checked_sub(min_hold) {
            Some(v) => v,
            None => {
                return Err(ExchangeError::Overflow);
            },
        };
        let offer: u64 = if output_btc.value > max_borrow as u128 {
            max_borrow
        } else {
            output_btc.value as u64
        };
        Ok(
            (
                CoinBalance { id: recent_state.rune_id, value: offer as u128 },
                CoinBalance { id: btc_meta.id, value: offer as u128 },
            ),
        )
    }
}

/// Position of the first state produced by `txid`, or `-1` if no
/// retained state was produced by it.
pub open spec fn spec_first_idx(s: Seq<PoolState>, txid: Txid) -> int
    decreases s.len(),
{
    if s.len() == 0 {
        -1
    } else if s[0].id == txid {
        0
    } else {
        let r = spec_first_idx(s.drop_first(), txid);
        if r < 0 {
            -1
        } else {
            r + 1
        }
    }
}

/// `spec_first_idx` returns `-1` exactly when no state matches, and
/// otherwise the position of the first matching state.
pub proof fn lemma_first_idx_props(s: Seq<PoolState>, txid: Txid)
    ensures
        spec_first_idx(s, txid) < 0 ==> forall|j: int|
            0 <= j < s.len() ==> (#[trigger] s[j]).id != txid,
        spec_first_idx(s, txid) >= 0 ==> {
            let i = spec_first_idx(s, txid);
            &&& i < s.len()
            &&& s[i].id == txid
            &&& forall|j: int| 0 <= j < i ==> (#[trigger] s[j]).id != txid
        },
    decreases s.len(),
{
    if s.len() > 0 && s[0].id != txid {
        lemma_first_idx_props(s.drop_first(), txid);
        assert forall|j: int| 1 <= j < s.len() implies (#[trigger] s[j]) == s.drop_first()[j - 1] by {}
    }
}

/// The state chain after a rollback of `txid`: unchanged if no
/// retained state was produced by `txid`, else cut before the first
/// state that was.
pub open spec fn spec_states_after_rollback(s: Seq<PoolState>, txid: Txid) -> Seq<PoolState> {
    let i = spec_first_idx(s, txid);
    if i < 0 {
        s
    } else {
        s.subrange(0, i)
    }
}

/// Rolling a transaction back twice is the same as rolling it back
/// once: the cut removes every state from the first one the
/// transaction produced, so none remains to match again.
pub proof fn lemma_rollback_idempotent(s: Seq<PoolState>, txid: Txid)
    ensures
        spec_states_after_rollback(spec_states_after_rollback(s, txid), txid)
            == spec_states_after_rollback(s, txid),
{
    lemma_first_idx_props(s, txid);
    let i = spec_first_idx(s, txid);
    if i >= 0 {
        let s2 = s.subrange(0, i);
        lemma_first_idx_props(s2, txid);
        if spec_first_idx(s2, txid) >= 0 {
            let w = spec_first_idx(s2, txid);
            assert(s2[w] == s[w]);
            assert(false);
        }
    }
}

impl Pool {
    /// Appends a state already validated against the current chain
    /// head; no further validation happens here.
    pub fn commit(&mut self, state: PoolState)
        requires
            old(self).wf(),
            state.nonce == old(self).spec_current_nonce() + 1,
        ensures
            final(self).wf(),
            final(self).states@ == old(self).states@.push(state),
            final(self).meta == old(self).meta,
            final(self).addr == old(self).addr,
    {
        self.states.push(state);
        proof {
            assert forall|i: int|
                0 <= i < self.states@.len() implies #[trigger] self.states@[i].nonce
                == self.states@[0].nonce + i by {
                if i < self.states@.len() - 1 {
                    assert(old(self).states@[i].nonce == old(self).states@[0].nonce + i);
                }
            }
        }
    }

    /// Drops the state produced by `txid` and everything after it; a
    /// rollback of the first retained state clears the whole chain.
    pub fn rollback(&mut self, txid: Txid) -> (r: Result<(), ExchangeError>)
        requires
            old(self).wf(),
        ensures
            final(self).wf(),
            final(self).meta == old(self).meta,
            final(self).addr == old(self).addr,
            ({
                let i = spec_first_idx(old(self).states@, txid);
                if i < 0 {
                    r == Err::<(), ExchangeError>(ExchangeError::InvalidTxid)
                        && final(self).states@ == old(self).states@
                } else {
                    r == Ok::<(), ExchangeError>(())
                        && final(self).states@ == old(self).states@.subrange(0, i)
                }
            }),
    {
        let n = self.states.len();
        let mut i: usize = 0;
        while i < n
            invariant
                *self == *old(self),
                n == self.states@.len(),
                i <= n,
                old(self).wf(),
                forall|j: int| 0 <= j < i ==> (#[trigger] self.states@[j]).id != txid,
            decreases n - i,
        {
            if self.states[i].id == txid {
                proof {
                    lemma_first_idx_props(self.states@, txid);
                }
                self.states.truncate(i);
                proof {
                    assert forall|k: int|
                        0 <= k < self.states@.len() implies #[trigger] self.states@[k].nonce
                        == self.states@[0].nonce + k by {
                        assert(old(self).states@[k].nonce == old(self).states@[0].nonce + k);
                    }
                }
                return Ok(());
            }
            i += 1;
        }
        proof {
            lemma_first_idx_props(self.states@, txid);
        }
        Err(ExchangeError::InvalidTxid)
    }

    /// Pivots the chain so the state produced by `txid` becomes the
    /// first retained state, discarding everything strictly before it;
    /// the current (last) state is never changed by this.
    pub fn finalize(&mut self, txid: Txid) -> (r: Result<(), ExchangeError>)
        requires
            old(self).wf(),
        ensures
            final(self).wf(),
            final(self).meta == old(self).meta,
            final(self).addr == old(self).addr,
            ({
                let i = spec_first_idx(old(self).states@, txid);
                if i < 0 {
                    r == Err::<(), ExchangeError>(ExchangeError::InvalidTxid)
                        && final(self).states@ == old(self).states@
                } else {
                    r == Ok::<(), ExchangeError>(())
                        && final(self).states@ == old(self).states@.subrange(i, old(self).states@.len() as int)
                }
            }),
            r is Ok ==> final(self).states@.len() > 0
                && final(self).states@.last() == old(self).states@.last(),
    {
        let n = self.states.len();
        let mut i: usize = 0;
        while i < n
            invariant
                *self == *old(self),
                n == self.states@.len(),
                i <= n,
                old(self).wf(),
                forall|j: int| 0 <= j < i ==> (#[trigger] self.states@[j]).id != txid,
            decreases n - i,
        {
            if self.states[i].id == txid {
                proof {
                    lemma_first_idx_props(self.states@, txid);
                }
                let tail = self.states.split_off(i);
                self.states = tail;
                proof {
                    assert forall|k: int|
                        0 <= k < self.states@.len() implies #[trigger] self.states@[k].nonce
                        == self.states@[0].nonce + k by {
                        assert(old(self).states@[k + i].nonce == old(self).states@[0].nonce + k + i);
                        assert(old(self).states@[i as int].nonce == old(self).states@[0].nonce + i);
                    }
                }
                return Ok(());
            }
            i += 1;
        }
        proof {
            lemma_first_idx_props(self.states@, txid);
        }
        Err(ExchangeError::InvalidTxid)
    }
}

/// Law: a deposit that validates advances the nonce by exactly one,
/// grows the settlement reserve by exactly the deposited amount (so
/// the reserve never decreases across deposits), and hands back the
/// previously held UTXO.  In a pool built from empty by deposits
/// alone, committing the new state keeps every retained state's nonce
/// equal to its chain position counted from the synthetic initial
/// state: state `i` carries nonce `i + 1`.
pub proof fn lemma_deposit_chain_step(
    p: Pool,
    txid: Txid,
    nonce: u64,
    pool_utxo_spent: Seq<OutPoint>,
    pool_utxo_received: Seq<Utxo>,
    input_coins: Seq<InputCoin>,
    output_coins: Seq<OutputCoin>,
)
    requires
        p.wf(),
        p.states@.len() > 0 ==> p.states@[0].nonce == 1,
        p.spec_validate_deposit(
            txid,
            nonce,
            pool_utxo_spent,
            pool_utxo_received,
            input_coins,
            output_coins,
        ) is Ok,
    ensures
        ({
            let pair = p.spec_validate_deposit(
                txid,
                nonce,
                pool_utxo_spent,
                pool_utxo_received,
                input_coins,
                output_coins,
            )->Ok_0;
            let chain = p.states@.push(pair.0);
            &&& pair.0.nonce == p.spec_current_nonce() + 1
            &&& pair.0.spec_btc_supply() == p.spec_current_state().spec_btc_supply()
                + input_coins[0].coin.value
            &&& pair.0.spec_btc_supply() >= p.spec_current_state().spec_btc_supply()
            &&& pair.0.spec_rune_supply() == p.spec_current_state().spec_rune_supply()
            &&& pair.1 == p.spec_current_state().utxo
            &&& forall|i: int| 0 <= i < chain.len() ==> (#[trigger] chain[i]).nonce == i + 1
        }),
{
    let pair = p.spec_validate_deposit(
        txid,
        nonce,
        pool_utxo_spent,
        pool_utxo_received,
        input_coins,
        output_coins,
    )->Ok_0;
    let chain = p.states@.push(pair.0);
    assert forall|i: int| 0 <= i < chain.len() implies (#[trigger] chain[i]).nonce == i + 1 by {
        if i < p.states@.len() {
            assert(chain[i] == p.states@[i]);
            assert(p.states@[i].nonce == p.states@[0].nonce + i);
        }
    }
}

/// Law: replaying a request whose nonce is not the pool's current
/// nonce is rejected with the expired-state error carrying the
/// expected nonce, for deposits and borrows alike, whatever the other
/// parameters are.
pub proof fn lemma_replay_rejected(
    p: Pool,
    txid: Txid,
    nonce: u64,
    pool_utxo_spent: Seq<OutPoint>,
    pool_utxo_received: Seq<Utxo>,
    input_coins: Seq<InputCoin>,
    output_coins: Seq<OutputCoin>,
)
    requires
        nonce != p.spec_current_nonce(),
    ensures
        input_coins.len() == 1 && output_coins.len() == 0 && input_coins[0].coin.id
            == CoinId::spec_btc() ==> p.spec_validate_deposit(
            txid,
            nonce,
            pool_utxo_spent,
            pool_utxo_received,
            input_coins,
            output_coins,
        ) == Err::<(PoolState, Option<Utxo>), ExchangeError>(
            ExchangeError::PoolStateExpired(p.spec_current_nonce()),
        ),
        input_coins.len() == 1 && output_coins.len() == 1 && p.states@.len() > 0
            ==> p.spec_validate_borrow(
            txid,
            nonce,
            pool_utxo_spent,
            pool_utxo_received,
            input_coins,
            output_coins,
        ) == Err::<(PoolState, Utxo), ExchangeError>(
            ExchangeError::PoolStateExpired(p.spec_current_nonce()),
        ),
{
}

/// Law: when the pool holds at least the minimum reserve, a borrow
/// quote offers exactly the requested amount if the reserve can spare
/// it, and exactly `reserve - minimum` otherwise; the required
/// collateral always equals the offered amount (the ratio is 1:1).
pub proof fn lemma_borrow_quote_clamped(p: Pool, requested: CoinBalance)
    requires
        requested.id == CoinId::spec_btc(),
        p.states@.len() > 0,
        p.states@.last().spec_btc_supply() >= BTC_MIN_AMOUNT,
    ensures
        ({
            let supply = p.states@.last().spec_btc_supply();
            let available = supply - BTC_MIN_AMOUNT;
            let r = p.spec_available_to_borrow(requested);
            &&& r is Ok
            &&& requested.value > available ==> r->Ok_0.1.value == available
            &&& requested.value <= available ==> r->Ok_0.1.value == requested.value
            &&& r->Ok_0.0.value == r->Ok_0.1.value
            &&& r->Ok_0.0.id == p.states@.last().rune_id
            &&& r->Ok_0.1.id == CoinId::spec_btc()
        }),
{
}

/// Law: rolling back the most recent transaction and re-committing an
/// equivalent state reproduces the ledger exactly as it was, as if
/// the rolled-back transaction had never been undone: the truncated
/// chain extended by the removed state is the full chain again, and the
/// removed state's nonce is again the one `commit` demands.
pub proof fn lemma_rollback_then_recommit(p: Pool, txid: Txid)
    requires
        p.wf(),
        p.states@.len() > 0,
        p.states@.last().id == txid,
        forall|j: int| 0 <= j < p.states@.len() - 1 ==> (#[trigger] p.states@[j]).id != txid,
        p.states@.len() == 1 ==> p.states@[0].nonce == 1,
    ensures
        ({
            let i = spec_first_idx(p.states@, txid);
            let rolled = p.states@.subrange(0, i);
            &&& i == p.states@.len() - 1
            &&& p.states@.last().nonce == (if rolled.len() == 0 {
                PoolState::spec_default().nonce
            } else {
                rolled.last().nonce
            }) + 1
            &&& rolled.push(p.states@.last()) == p.states@
        }),
{
    lemma_first_idx_props(p.states@, txid);
    let i = spec_first_idx(p.states@, txid);
    assert(i == p.states@.len() - 1);
    let rolled = p.states@.subrange(0, i);
    assert(rolled.push(p.states@.last()) =~= p.states@);
    if rolled.len() > 0 {
        assert(p.states@[i - 1].nonce == p.states@[0].nonce + i - 1);
        assert(p.states@[i].nonce == p.states@[0].nonce + i);
    }
}

} // verus!
