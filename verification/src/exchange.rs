//! Transaction lifecycle tracking across pools and blocks.
//!
//! The tracker owns the retained block history and, per transaction,
//! the set of pools it touched, keyed by the transaction identifier
//! together with an unconfirmed/confirmed flag.  It is the join point
//! between block-level events and pool-level state transitions.

use vstd::prelude::*;

use crate::ExchangeError;
use crate::pool::{Pool, PoolState, BTC_MIN_AMOUNT, MIN_BTC_VALUE};
use crate::reorg::BitcoinNetwork;
use crate::types::{CoinBalance, InputCoin, NewBlockInfo, OutPoint, OutputCoin, TxRecord, Txid, Utxo};

verus! {

/// No value occurs twice in the list.
pub open spec fn spec_nodup_u64(s: Seq<u64>) -> bool {
    forall|a: int, b: int| 0 <= a < b < s.len() ==> s[a] != s[b]
}

/// The tracker holds at most one slot per (transaction, projection)
/// pair, and no slot lists a pool twice.
pub open spec fn spec_records_wf(s: Seq<TxRecord>) -> bool {
    &&& forall|i: int, j: int|
        0 <= i < j < s.len() ==> !((#[trigger] s[i]).txid == (#[trigger] s[j]).txid
            && s[i].confirmed == s[j].confirmed)
    &&& forall|i: int| 0 <= i < s.len() ==> spec_nodup_u64((#[trigger] s[i]).pools@)
}

/// The pools listed for `txid` under the given projection, if the
/// tracker holds such a slot.
pub open spec fn spec_record_slot(s: Seq<TxRecord>, txid: Txid, confirmed: bool) -> Option<
    Seq<u64>,
> {
    if exists|i: int|
        0 <= i < s.len() && (#[trigger] s[i]).txid == txid && s[i].confirmed == confirmed {
        let i = choose|i: int|
            0 <= i < s.len() && (#[trigger] s[i]).txid == txid && s[i].confirmed == confirmed;
        Some(s[i].pools@)
    } else {
        None
    }
}

/// Removing the entry at `i` empties that entry's slot and leaves
/// every other slot as it was.
proof fn lemma_slot_remove(s: Seq<TxRecord>, i: int)
    requires
        spec_records_wf(s),
        0 <= i < s.len(),
    ensures
        spec_records_wf(s.remove(i)),
        spec_record_slot(s.remove(i), s[i].txid, s[i].confirmed) is None,
        forall|t: Txid, c: bool|
            !(t == s[i].txid && c == s[i].confirmed) ==> #[trigger] spec_record_slot(
                s.remove(i),
                t,
                c,
            ) == spec_record_slot(s, t, c),
{
    let s2 = s.remove(i);
    s.remove_ensures(i);
    assert forall|a: int, b: int| 0 <= a < b < s2.len() implies !((#[trigger] s2[a]).txid == (
    #[trigger] s2[b]).txid && s2[a].confirmed == s2[b].confirmed) by {
        let a0 = if a < i {
            a
        } else {
            a + 1
        };
        let b0 = if b < i {
            b
        } else {
            b + 1
        };
        assert(s2[a] == s[a0] && s2[b] == s[b0]);
    }
    assert forall|k: int| 0 <= k < s2.len() implies spec_nodup_u64((#[trigger] s2[k]).pools@) by {
        let k0 = if k < i {
            k
        } else {
            k + 1
        };
        assert(s2[k] == s[k0]);
    }
    if spec_record_slot(s2, s[i].txid, s[i].confirmed) is Some {
        let w = choose|w: int|
            0 <= w < s2.len() && (#[trigger] s2[w]).txid == s[i].txid && s2[w].confirmed
                == s[i].confirmed;
        let w0 = if w < i {
            w
        } else {
            w + 1
        };
        assert(s2[w] == s[w0]);
        assert(false);
    }
    assert forall|t: Txid, c: bool| !(t == s[i].txid && c == s[i].confirmed) implies #[trigger] spec_record_slot(
        s2,
        t,
        c,
    ) == spec_record_slot(s, t, c) by {
        if exists|w: int| 0 <= w < s2.len() && (#[trigger] s2[w]).txid == t && s2[w].confirmed == c {
            let w = choose|w: int|
                0 <= w < s2.len() && (#[trigger] s2[w]).txid == t && s2[w].confirmed == c;
            let w0 = if w < i {
                w
            } else {
                w + 1
            };
            assert(s2[w] == s[w0]);
            let v = choose|v: int|
                0 <= v < s.len() && (#[trigger] s[v]).txid == t && s[v].confirmed == c;
            assert(s[v] == s[w0]);
            assert(spec_record_slot(s, t, c) == Some(s[w0].pools@));
            assert(spec_record_slot(s2, t, c) == Some(s[w0].pools@));
        } else {
            if exists|v: int| 0 <= v < s.len() && (#[trigger] s[v]).txid == t && s[v].confirmed == c {
                let v = choose|v: int|
                    0 <= v < s.len() && (#[trigger] s[v]).txid == t && s[v].confirmed == c;
                let v2 = if v < i {
                    v
                } else {
                    v - 1
                };
                assert(v != i);
                assert(s2[v2] == s[v]);
                assert(false);
            }
        }
    }
}

/// Pushing an entry whose slot is empty fills exactly that slot and
/// leaves every other slot as it was.
proof fn lemma_slot_push(s: Seq<TxRecord>, e: TxRecord)
    requires
        spec_records_wf(s),
        spec_record_slot(s, e.txid, e.confirmed) is None,
        spec_nodup_u64(e.pools@),
    ensures
        spec_records_wf(s.push(e)),
        spec_record_slot(s.push(e), e.txid, e.confirmed) == Some(e.pools@),
        forall|t: Txid, c: bool|
            !(t == e.txid && c == e.confirmed) ==> #[trigger] spec_record_slot(s.push(e), t, c)
                == spec_record_slot(s, t, c),
{
    let s2 = s.push(e);
    assert(s2[s.len() as int] == e);
    assert forall|a: int, b: int| 0 <= a < b < s2.len() implies !((#[trigger] s2[a]).txid == (
    #[trigger] s2[b]).txid && s2[a].confirmed == s2[b].confirmed) by {
        if b < s.len() {
            assert(s2[a] == s[a] && s2[b] == s[b]);
        } else {
            assert(s2[a] == s[a] && s2[b] == e);
        }
    }
    assert forall|k: int| 0 <= k < s2.len() implies spec_nodup_u64((#[trigger] s2[k]).pools@) by {
        if k < s.len() {
            assert(s2[k] == s[k]);
        }
    }
    let w = choose|w: int|
        0 <= w < s2.len() && (#[trigger] s2[w]).txid == e.txid && s2[w].confirmed == e.confirmed;
    if w < s.len() {
        assert(s2[w] == s[w]);
        assert(false);
    }
    assert(spec_record_slot(s2, e.txid, e.confirmed) == Some(e.pools@));
    assert forall|t: Txid, c: bool| !(t == e.txid && c == e.confirmed) implies #[trigger] spec_record_slot(
        s2,
        t,
        c,
    ) == spec_record_slot(s, t, c) by {
        if exists|x: int| 0 <= x < s2.len() && (#[trigger] s2[x]).txid == t && s2[x].confirmed == c {
            let x = choose|x: int|
                0 <= x < s2.len() && (#[trigger] s2[x]).txid == t && s2[x].confirmed == c;
            assert(x < s.len());
            assert(s2[x] == s[x]);
            let v = choose|v: int|
                0 <= v < s.len() && (#[trigger] s[v]).txid == t && s[v].confirmed == c;
            assert(s[v] == s[x]);
        } else {
            if exists|v: int| 0 <= v < s.len() && (#[trigger] s[v]).txid == t && s[v].confirmed == c {
                let v = choose|v: int|
                    0 <= v < s.len() && (#[trigger] s[v]).txid == t && s[v].confirmed == c;
                assert(s2[v] == s[v]);
                assert(false);
            }
        }
    }
}

/// Position of the tracker slot for `(txid, confirmed)`, if one is
/// held.
pub fn find_record(records: &Vec<TxRecord>, txid: Txid, confirmed: bool) -> (r: Option<usize>)
    requires
        spec_records_wf(records@),
    ensures
        match r {
            Some(i) => i < records@.len() && records@[i as int].txid == txid && records@[
                i as int
            ].confirmed == confirmed && spec_record_slot(records@, txid, confirmed) == Some(
                records@[i as int].pools@,
            ),
            None => spec_record_slot(records@, txid, confirmed) is None,
        },
{
    let n = records.len();
    let mut i: usize = 0;
    while i < n
        invariant
            n == records@.len(),
            i <= n,
            spec_records_wf(records@),
            forall|j: int|
                0 <= j < i ==> !((#[trigger] records@[j]).txid == txid && records@[j].confirmed
                    == confirmed),
        decreases n - i,
    {
        if records[i].txid == txid && records[i].confirmed == confirmed {
            proof {
                let w = choose|w: int|
                    0 <= w < records@.len() && (#[trigger] records@[w]).txid == txid
                        && records@[w].confirmed == confirmed;
                if w != i {
                    assert(false);
                }
            }
            return Some(i);
        }
        i += 1;
    }
    proof {
        if exists|w: int|
            0 <= w < records@.len() && (#[trigger] records@[w]).txid == txid
                && records@[w].confirmed == confirmed {
            let w = choose|w: int|
                0 <= w < records@.len() && (#[trigger] records@[w]).txid == txid
                    && records@[w].confirmed == confirmed;
            assert(false);
        }
    }
    None
}

/// A fresh copy of a pool-address list.
pub(crate) fn copy_pools(v: &Vec<u64>) -> (r: Vec<u64>)
    ensures
        r@ == v@,
{
    let mut r: Vec<u64> = Vec::new();
    let n = v.len();
    let mut i: usize = 0;
    while i < n
        invariant
            n == v@.len(),
            i <= n,
            r@ == v@.subrange(0, i as int),
        decreases n - i,
    {
        r.push(v[i]);
        proof {
            assert(r@ =~= v@.subrange(0, i + 1));
        }
        i += 1;
    }
    proof {
        assert(r@ =~= v@);
    }
    r
}

/// Demotes a confirmed transaction back to unconfirmed: its confirmed
/// slot is dropped and its pool list becomes the unconfirmed slot,
/// replacing any unconfirmed copy.  A transaction without a confirmed
/// slot is left untouched.  No other transaction's slots change.
pub fn demote_txid(records: &mut Vec<TxRecord>, txid: Txid)
    requires
        spec_records_wf(old(records)@),
    ensures
        spec_records_wf(final(records)@),
        spec_record_slot(final(records)@, txid, true) is None,
        spec_record_slot(final(records)@, txid, false) == (match spec_record_slot(
            old(records)@,
            txid,
            true,
        ) {
            Some(p) => Some(p),
            None => spec_record_slot(old(records)@, txid, false),
        }),
        forall|t: Txid, c: bool|
            t != txid ==> #[trigger] spec_record_slot(final(records)@, t, c) == spec_record_slot(
                old(records)@,
                t,
                c,
            ),
{
    let ci = match find_record(records, txid, true) {
        Some(i) => i,
        None => {
            return ;
        },
    };
    let ui = find_record(records, txid, false);
    let target: usize;
    match ui {
        Some(j) => {
            proof {
                lemma_slot_remove(records@, j as int);
            }
            records.remove(j);
            if ci > j {
                target = ci - 1;
            } else {
                target = ci;
            }
        },
        None => {
            target = ci;
        },
    }
    proof {
        lemma_slot_remove(records@, target as int);
    }
    let entry = records.remove(target);
    proof {
        lemma_slot_push(records@, TxRecord { txid, confirmed: false, pools: entry.pools });
    }
    records.push(TxRecord { txid, confirmed: false, pools: entry.pools });
}

/// Copies an unconfirmed transaction's pool list into its confirmed
/// slot, replacing any confirmed copy; the unconfirmed slot stays.  A
/// transaction without an unconfirmed slot is left untouched.  No
/// other transaction's slots change.
pub fn confirm_txid(records: &mut Vec<TxRecord>, txid: Txid)
    requires
        spec_records_wf(old(records)@),
    ensures
        spec_records_wf(final(records)@),
        spec_record_slot(final(records)@, txid, true) == (match spec_record_slot(
            old(records)@,
            txid,
            false,
        ) {
            Some(p) => Some(p),
            None => spec_record_slot(old(records)@, txid, true),
        }),
        spec_record_slot(final(records)@, txid, false) == spec_record_slot(
            old(records)@,
            txid,
            false,
        ),
        forall|t: Txid, c: bool|
            t != txid ==> #[trigger] spec_record_slot(final(records)@, t, c) == spec_record_slot(
                old(records)@,
                t,
                c,
            ),
{
    let uj = match find_record(records, txid, false) {
        Some(j) => j,
        None => {
            return ;
        },
    };
    let pools = copy_pools(&records[uj].pools);
    match find_record(records, txid, true) {
        Some(ci) => {
            proof {
                lemma_slot_remove(records@, ci as int);
            }
            records.remove(ci);
        },
        None => {},
    }
    proof {
        lemma_slot_push(records@, TxRecord { txid, confirmed: true, pools: pools });
    }
    records.push(TxRecord { txid, confirmed: true, pools });
}

/// Drops both slots of a transaction from the tracker.  No other
/// transaction's slots change.
pub fn purge_txid(records: &mut Vec<TxRecord>, txid: Txid)
    requires
        spec_records_wf(old(records)@),
    ensures
        spec_records_wf(final(records)@),
        spec_record_slot(final(records)@, txid, true) is None,
        spec_record_slot(final(records)@, txid, false) is None,
        forall|t: Txid, c: bool|
            t != txid ==> #[trigger] spec_record_slot(final(records)@, t, c) == spec_record_slot(
                old(records)@,
                t,
                c,
            ),
{
    match find_record(records, txid, true) {
        Some(i) => {
            proof {
                lemma_slot_remove(records@, i as int);
            }
            records.remove(i);
        },
        None => {},
    }
    match find_record(records, txid, false) {
        Some(i) => {
            proof {
                lemma_slot_remove(records@, i as int);
            }
            records.remove(i);
        },
        None => {},
    }
}

/// Adds `pool_addr` to the unconfirmed slot of `txid`, creating the
/// slot if absent; listing a pool twice is a no-op.  The confirmed
/// slot and every other transaction's slots are unchanged.
pub fn record_execution(records: &mut Vec<TxRecord>, txid: Txid, pool_addr: u64)
    requires
        spec_records_wf(old(records)@),
    ensures
        spec_records_wf(final(records)@),
        spec_record_slot(final(records)@, txid, false) == (match spec_record_slot(
            old(records)@,
            txid,
            false,
        ) {
            None => Some(seq![pool_addr]),
            Some(p) => if p.contains(pool_addr) {
                Some(p)
            } else {
                Some(p.push(pool_addr))
            },
        }),
        spec_record_slot(final(records)@, txid, true) == spec_record_slot(
            old(records)@,
            txid,
            true,
        ),
        forall|t: Txid, c: bool|
            t != txid ==> #[trigger] spec_record_slot(final(records)@, t, c) == spec_record_slot(
                old(records)@,
                t,
                c,
            ),
{
    match find_record(records, txid, false) {
        None => {
            let mut pools: Vec<u64> = Vec::new();
            pools.push(pool_addr);
            proof {
                assert(pools@ =~= seq![pool_addr]);
                lemma_slot_push(records@, TxRecord { txid, confirmed: false, pools: pools });
            }
            records.push(TxRecord { txid, confirmed: false, pools });
        },
        Some(j) => {
            if pools_contain(&records[j].pools, pool_addr) {
                return ;
            }
            proof {
                lemma_slot_remove(records@, j as int);
            }
            let mut entry = records.remove(j);
            entry.pools.push(pool_addr);
            proof {
                lemma_slot_push(records@, entry);
            }
            records.push(entry);
        },
    }
}

/// Every pool is well formed and no address is used twice.
pub open spec fn spec_pools_wf(s: Seq<Pool>) -> bool {
    &&& forall|i: int, j: int|
        0 <= i < j < s.len() ==> (#[trigger] s[i]).addr != (#[trigger] s[j]).addr
    &&& forall|i: int| 0 <= i < s.len() ==> (#[trigger] s[i]).wf()
}

/// The pool stored under `addr`, if one is.
pub open spec fn spec_pool_at(s: Seq<Pool>, addr: u64) -> Option<Pool> {
    if exists|i: int| 0 <= i < s.len() && (#[trigger] s[i]).addr == addr {
        let i = choose|i: int| 0 <= i < s.len() && (#[trigger] s[i]).addr == addr;
        Some(s[i])
    } else {
        None
    }
}

/// What a user needs to build a deposit transaction: the pool's
/// current UTXO (absent before the first deposit) and the nonce the
/// transaction must quote.
#[derive(Clone, Copy, Debug, PartialEq, Eq, Structural)]
pub struct DepositOffer {
    pub pool_utxo: Option<Utxo>,
    pub nonce: u64,
}

/// What a user needs to build a borrow transaction: the pool's
/// current UTXO, the nonce to quote, the collateral that must be
/// pledged, and the settlement amount that will be paid out (possibly
/// less than requested, if the reserve cannot spare more).
#[derive(Clone, Copy, Debug, PartialEq, Eq, Structural)]
pub struct BorrowOffer {
    pub pool_utxo: Utxo,
    pub nonce: u64,
    pub input_runes: CoinBalance,
    pub output_btc: CoinBalance,
}

/// The settlement action a transaction asks of a pool.
#[derive(Clone, Copy, Debug, PartialEq, Eq, Structural)]
pub enum Action {
    Deposit,
    Borrow,
}

/// Everything a settlement request states about one pool: the action,
/// the pool address, the replay nonce, the basis outpoints spent, the
/// pool outputs created, and the coins moved in and out.
#[derive(Clone, Debug)]
pub struct Intention {
    pub action: Action,
    pub pool_address: u64,
    pub nonce: u64,
    pub pool_utxo_spent: Vec<OutPoint>,
    pub pool_utxo_received: Vec<Utxo>,
    pub input_coins: Vec<InputCoin>,
    pub output_coins: Vec<OutputCoin>,
}

/// Name and address of one pool, for listings.
#[derive(Clone, Debug)]
pub struct PoolBasic {
    pub name: String,
    pub address: u64,
}

/// Everything a caller displays about one pool.
#[derive(Clone, Debug)]
pub struct PoolInfo {
    pub address: u64,
    pub name: String,
    pub nonce: u64,
    pub btc_reserved: u64,
    pub coin_reserved: CoinBalance,
    pub utxos: Vec<Utxo>,
}

/// The whole exchange: every lending pool, the retained block
/// history, and the transaction lifecycle records.
#[derive(Debug)]
pub struct LendingPools {
    pub pools: Vec<Pool>,
    pub blocks: Vec<NewBlockInfo>,
    pub tx_records: Vec<TxRecord>,
}

impl LendingPools {
    /// All three stores are well formed: unique pool addresses with
    /// gapless state chains, a gapless height-ascending block history,
    /// and at most one record slot per transaction and projection.
    pub open spec fn wf(self) -> bool {
        &&& spec_pools_wf(self.pools@)
        &&& crate::reorg::spec_blocks_wf(self.blocks@)
        &&& spec_records_wf(self.tx_records@)
    }

    /// A fresh exchange with no pool, no block and no record.
    pub fn new() -> (r: LendingPools)
        ensures
            r.wf(),
            r.pools@ == Seq::<Pool>::empty(),
            r.blocks@ == Seq::<NewBlockInfo>::empty(),
            r.tx_records@ == Seq::<TxRecord>::empty(),
    {
        LendingPools { pools: Vec::new(), blocks: Vec::new(), tx_records: Vec::new() }
    }

    /// The network this exchange settles on.
    pub fn network() -> (r: BitcoinNetwork)
        ensures
            r == BitcoinNetwork::Testnet,
    {
        BitcoinNetwork::Testnet
    }

    /// Confirmations after which a block is beyond reorganization.
    pub fn finalize_threshold() -> (r: u32)
        ensures
            r == crate::reorg::spec_max_recoverable_reorg_depth(BitcoinNetwork::Testnet),
    {
        64
    }

    /// Position of the pool stored under `addr`, if one is.
    fn find_pool(&self, addr: u64) -> (r: Option<usize>)
        requires
            spec_pools_wf(self.pools@),
        ensures
            match r {
                Some(i) => i < self.pools@.len() && self.pools@[i as int].addr == addr
                    && spec_pool_at(self.pools@, addr) == Some(self.pools@[i as int]),
                None => spec_pool_at(self.pools@, addr) is None,
            },
    {
        find_pool_index(&self.pools, addr)
    }

    /// The pool stored under `pool_address`, if one is.
    pub fn get(&self, pool_address: u64) -> (r: Option<&Pool>)
        requires
            self.wf(),
        ensures
            match r {
                Some(p) => spec_pool_at(self.pools@, pool_address) == Some(*p),
                None => spec_pool_at(self.pools@, pool_address) is None,
            },
    {
        match self.find_pool(pool_address) {
            Some(i) => Some(&self.pools[i]),
            None => None,
        }
    }

    /// Stores `pool` under its address, replacing any pool already
    /// stored there.
    pub fn insert(&mut self, pool: Pool)
        requires
            old(self).wf(),
            pool.wf(),
        ensures
            final(self).wf(),
            final(self).blocks@ == old(self).blocks@,
            final(self).tx_records@ == old(self).tx_records@,
            ({
                let s = old(self).pools@;
                if spec_pool_at(s, pool.addr) is Some {
                    exists|i: int|
                        0 <= i < s.len() && s[i].addr == pool.addr && final(self).pools@ == #[trigger] s.update(i, pool)
                } else {
                    final(self).pools@ == s.push(pool)
                }
            }),
            spec_pool_at(final(self).pools@, pool.addr) == Some(pool),
            forall|a: u64|
                a != pool.addr ==> #[trigger] spec_pool_at(final(self).pools@, a) == spec_pool_at(
                    old(self).pools@,
                    a,
                ),
    {
        let ghost s0 = self.pools@;
        match self.find_pool(pool.addr) {
            Some(i) => {
                self.pools.set(i, pool);
                proof {
                    lemma_pool_at_update(s0, i as int, pool);
                }
            },
            None => {
                self.pools.push(pool);
                proof {
                    lemma_pool_at_push(s0, pool);
                }
            },
        }
    }
}

/// What a settlement request does to the addressed pool: a deposit or
/// a borrow validated against the pool's current state; on success
/// the state the action commits.
pub open spec fn spec_execute_outcome(p: Pool, txid: Txid, intention: Intention) -> Result<
    PoolState,
    ExchangeError,
> {
    match intention.action {
        Action::Deposit => match p.spec_validate_deposit(
            txid,
            intention.nonce,
            intention.pool_utxo_spent@,
            intention.pool_utxo_received@,
            intention.input_coins@,
            intention.output_coins@,
        ) {
            Ok(pair) => Ok(pair.0),
            Err(e) => Err(e),
        },
        Action::Borrow => match p.spec_validate_borrow(
            txid,
            intention.nonce,
            intention.pool_utxo_spent@,
            intention.pool_utxo_received@,
            intention.input_coins@,
            intention.output_coins@,
        ) {
            Ok(pair) => Ok(pair.0),
            Err(e) => Err(e),
        },
    }
}

impl LendingPools {
    /// Quotes what a deposit transaction must reference: the pool's
    /// current UTXO and nonce.  Rejects amounts below the minimum
    /// transfer amount and unknown pools.
    pub fn pre_deposit(&self, pool_address: u64, amount: CoinBalance) -> (r: Result<
        DepositOffer,
        ExchangeError,
    >)
        requires
            self.wf(),
        ensures
            r == (if amount.value < BTC_MIN_AMOUNT {
                Err::<DepositOffer, ExchangeError>(ExchangeError::TooSmallFunds)
            } else {
                match spec_pool_at(self.pools@, pool_address) {
                    None => Err::<DepositOffer, ExchangeError>(ExchangeError::InvalidPool),
                    Some(p) => Ok(
                        DepositOffer {
                            pool_utxo: p.spec_current_state().utxo,
                            nonce: p.spec_current_nonce(),
                        },
                    ),
                }
            }),
    {
        if amount.value < BTC_MIN_AMOUNT {
            return Err(ExchangeError::TooSmallFunds);
        }
        let i = match self.find_pool(pool_address) {
            Some(i) => i,
            None => {
                return Err(ExchangeError::InvalidPool);
            },
        };
        let state = self.pools[i].current_state();
        Ok(DepositOffer { pool_utxo: state.utxo, nonce: state.nonce })
    }

    /// Quotes a borrow: the pool's current UTXO and nonce, the
    /// collateral to pledge, and the settlement amount offered (the
    /// request clamped to what the reserve can spare).  Rejects
    /// unknown pools and pools without liquidity.
    pub fn pre_borrow(&self, pool_address: u64, amount: CoinBalance) -> (r: Result<
        BorrowOffer,
        ExchangeError,
    >)
        requires
            self.wf(),
        ensures
            r == (match spec_pool_at(self.pools@, pool_address) {
                None => Err::<BorrowOffer, ExchangeError>(ExchangeError::InvalidPool),
                Some(p) => if p.states@.len() == 0 {
                    Err::<BorrowOffer, ExchangeError>(ExchangeError::EmptyPool)
                } else {
                    match p.spec_available_to_borrow(amount) {
                        Err(e) => Err::<BorrowOffer, ExchangeError>(e),
                        Ok(quote) => match p.states@.last().utxo {
                            Some(u) => Ok(
                                BorrowOffer {
                                    pool_utxo: u,
                                    nonce: p.states@.last().nonce,
                                    input_runes: quote.0,
                                    output_btc: quote.1,
                                },
                            ),
                            None => Err::<BorrowOffer, ExchangeError>(ExchangeError::EmptyPool),
                        },
                    }
                },
            }),
    {
        let i = match self.find_pool(pool_address) {
            Some(i) => i,
            None => {
                return Err(ExchangeError::InvalidPool);
            },
        };
        let p = &self.pools[i];
        if p.states.len() == 0 {
            return Err(ExchangeError::EmptyPool);
        }
        let recent_state = p.states[p.states.len() - 1];
        let quote = match p.available_to_borrow(amount) {
            Ok(q) => q,
            Err(e) => {
                return Err(e);
            },
        };
        match recent_state.utxo {
            Some(u) => Ok(
                BorrowOffer {
                    pool_utxo: u,
                    nonce: recent_state.nonce,
                    input_runes: quote.0,
                    output_btc: quote.1,
                },
            ),
            None => Err(ExchangeError::EmptyPool),
        }
    }

    /// The deposit action: validates a deposit request against the
    /// addressed pool and returns the state it would commit.  This is
    /// the pure first stage of settlement; the caller signs the
    /// consumed input before anything is committed.
    pub fn deposit(&self, txid: Txid, intention: &Intention) -> (r: Result<
        PoolState,
        ExchangeError,
    >)
        requires
            self.wf(),
        ensures
            r == (match spec_pool_at(self.pools@, intention.pool_address) {
                None => Err::<PoolState, ExchangeError>(ExchangeError::InvalidPool),
                Some(p) => match p.spec_validate_deposit(
                    txid,
                    intention.nonce,
                    intention.pool_utxo_spent@,
                    intention.pool_utxo_received@,
                    intention.input_coins@,
                    intention.output_coins@,
                ) {
                    Ok(pair) => Ok::<PoolState, ExchangeError>(pair.0),
                    Err(e) => Err::<PoolState, ExchangeError>(e),
                },
            }),
    {
        let i = match self.find_pool(intention.pool_address) {
            Some(i) => i,
            None => {
                return Err(ExchangeError::InvalidPool);
            },
        };
        match self.pools[i].validate_deposit(
            txid,
            intention.nonce,
            &intention.pool_utxo_spent,
            &intention.pool_utxo_received,
            &intention.input_coins,
            &intention.output_coins,
        ) {
            Ok(pair) => Ok(pair.0),
            Err(e) => Err(e),
        }
    }

    /// The borrow action: validates a borrow request against the
    /// addressed pool and returns the state it would commit.  This is
    /// the pure first stage of settlement; the caller signs the
    /// consumed input before anything is committed.
    pub fn borrow(&self, txid: Txid, intention: &Intention) -> (r: Result<
        PoolState,
        ExchangeError,
    >)
        requires
            self.wf(),
        ensures
            r == (match spec_pool_at(self.pools@, intention.pool_address) {
                None => Err::<PoolState, ExchangeError>(ExchangeError::InvalidPool),
                Some(p) => match p.spec_validate_borrow(
                    txid,
                    intention.nonce,
                    intention.pool_utxo_spent@,
                    intention.pool_utxo_received@,
                    intention.input_coins@,
                    intention.output_coins@,
                ) {
                    Ok(pair) => Ok::<PoolState, ExchangeError>(pair.0),
                    Err(e) => Err::<PoolState, ExchangeError>(e),
                },
            }),
    {
        let i = match self.find_pool(intention.pool_address) {
            Some(i) => i,
            None => {
                return Err(ExchangeError::InvalidPool);
            },
        };
        match self.pools[i].validate_borrow(
            txid,
            intention.nonce,
            &intention.pool_utxo_spent,
            &intention.pool_utxo_received,
            &intention.input_coins,
            &intention.output_coins,
        ) {
            Ok(pair) => Ok(pair.0),
            Err(e) => Err(e),
        }
    }

    /// Executes a settlement request: validates the action against
    /// the addressed pool, commits the resulting state, and records
    /// the transaction as unconfirmed, remembering which pool it
    /// touched.  On any validation failure nothing changes.
    pub fn execute_tx(&mut self, txid: Txid, intention: &Intention) -> (r: Result<
        PoolState,
        ExchangeError,
    >)
        requires
            old(self).wf(),
        ensures
            final(self).wf(),
            final(self).blocks@ == old(self).blocks@,
            ({
                let s0 = old(self).pools@;
                let r0 = old(self).tx_records@;
                match spec_pool_at(s0, intention.pool_address) {
                    None => r == Err::<PoolState, ExchangeError>(ExchangeError::InvalidPool)
                        && final(self).pools@ == s0 && final(self).tx_records@ == r0,
                    Some(p) => match spec_execute_outcome(p, txid, *intention) {
                        Err(e) => r == Err::<PoolState, ExchangeError>(e) && final(self).pools@
                            == s0 && final(self).tx_records@ == r0,
                        Ok(s) => {
                            &&& r == Ok::<PoolState, ExchangeError>(s)
                            &&& final(self).pools@.len() == s0.len()
                            &&& forall|i: int|
                                0 <= i < s0.len() ==> {
                                    let q = #[trigger] final(self).pools@[i];
                                    &&& q.addr == s0[i].addr
                                    &&& q.meta == s0[i].meta
                                    &&& q.states@ == if s0[i].addr == intention.pool_address {
                                        s0[i].states@.push(s)
                                    } else {
                                        s0[i].states@
                                    }
                                }
                            &&& spec_record_slot(final(self).tx_records@, txid, false) == (
                            match spec_record_slot(r0, txid, false) {
                                None => Some(seq![intention.pool_address]),
                                Some(ps) => if ps.contains(intention.pool_address) {
                                    Some(ps)
                                } else {
                                    Some(ps.push(intention.pool_address))
                                },
                            })
                            &&& spec_record_slot(final(self).tx_records@, txid, true)
                                == spec_record_slot(r0, txid, true)
                            &&& forall|t: Txid, c: bool|
                                t != txid ==> #[trigger] spec_record_slot(
                                    final(self).tx_records@,
                                    t,
                                    c,
                                ) == spec_record_slot(r0, t, c)
                        },
                    },
                }
            }),
    {
        let ghost s0 = self.pools@;
        let j = match self.find_pool(intention.pool_address) {
            Some(j) => j,
            None => {
                return Err(ExchangeError::InvalidPool);
            },
        };
        let pool = &self.pools[j];
        let validated = match intention.action {
            Action::Deposit => {
                match pool.validate_deposit(
                    txid,
                    intention.nonce,
                    &intention.pool_utxo_spent,
                    &intention.pool_utxo_received,
                    &intention.input_coins,
                    &intention.output_coins,
                ) {
                    Ok(pair) => Ok(pair.0),
                    Err(e) => Err(e),
                }
            },
            Action::Borrow => {
                match pool.validate_borrow(
                    txid,
                    intention.nonce,
                    &intention.pool_utxo_spent,
                    &intention.pool_utxo_received,
                    &intention.input_coins,
                    &intention.output_coins,
                ) {
                    Ok(pair) => Ok(pair.0),
                    Err(e) => Err(e),
                }
            },
        };
        let new_state = match validated {
            Ok(s) => s,
            Err(e) => {
                return Err(e);
            },
        };
        let mut p = self.pools.remove(j);
        p.commit(new_state);
        self.pools.insert(j, p);
        proof {
            assert(self.pools@ =~= s0.update(j as int, self.pools@[j as int]));
            assert forall|x: int, y: int| 0 <= x < y < self.pools@.len() implies (
            #[trigger] self.pools@[x]).addr != (#[trigger] self.pools@[y]).addr by {
                assert(s0[x].addr != s0[y].addr);
            }
            assert forall|x: int| 0 <= x < self.pools@.len() implies (
            #[trigger] self.pools@[x]).wf() by {
                if x != j {
                    assert(self.pools@[x] == s0[x]);
                    assert(s0[x].wf());
                }
            }
        }
        record_execution(&mut self.tx_records, txid, intention.pool_address);
        Ok(new_state)
    }

    /// Rolls a rejected transaction back: every pool the transaction
    /// touched is cut back to just before the state it produced, and
    /// both of the transaction's tracker slots are dropped.  Signals
    /// for transactions the tracker does not know are rejected; a
    /// listed pool that does not hold the transaction is left as it
    /// is, so one missing chain entry does not block the rest.
    pub fn rollback_tx(&mut self, txid: Txid) -> (r: Result<(), ExchangeError>)
        requires
            old(self).wf(),
        ensures
            final(self).wf(),
            final(self).blocks@ == old(self).blocks@,
            ({
                let s0 = old(self).pools@;
                let r0 = old(self).tx_records@;
                let rec = (match spec_record_slot(r0, txid, true) {
                    Some(ps) => Some(ps),
                    None => spec_record_slot(r0, txid, false),
                });
                match rec {
                    None => r == Err::<(), ExchangeError>(ExchangeError::InvalidTxid)
                        && final(self).pools@ == s0 && final(self).tx_records@ == r0,
                    Some(pools_list) => {
                        &&& r == Ok::<(), ExchangeError>(())
                        &&& final(self).pools@.len() == s0.len()
                        &&& forall|i: int|
                            0 <= i < s0.len() ==> {
                                let q = #[trigger] final(self).pools@[i];
                                &&& q.addr == s0[i].addr
                                &&& q.meta == s0[i].meta
                                &&& q.states@ == if pools_list.contains(s0[i].addr) {
                                    crate::pool::spec_states_after_rollback(s0[i].states@, txid)
                                } else {
                                    s0[i].states@
                                }
                            }
                        &&& spec_record_slot(final(self).tx_records@, txid, true) is None
                        &&& spec_record_slot(final(self).tx_records@, txid, false) is None
                        &&& forall|t: Txid, c: bool|
                            t != txid ==> #[trigger] spec_record_slot(
                                final(self).tx_records@,
                                t,
                                c,
                            ) == spec_record_slot(r0, t, c)
                    },
                }
            }),
    {
        let ghost s0 = self.pools@;
        let ri = match find_record(&self.tx_records, txid, true) {
            Some(i) => i,
            None => {
                match find_record(&self.tx_records, txid, false) {
                    Some(i) => i,
                    None => {
                        return Err(ExchangeError::InvalidTxid);
                    },
                }
            },
        };
        let pools_list = copy_pools(&self.tx_records[ri].pools);
        let m = pools_list.len();
        let mut k: usize = 0;
        while k < m
            invariant
                m == pools_list@.len(),
                0 <= k <= m,
                spec_pools_wf(s0),
                s0.len() == self.pools@.len(),
                spec_pools_wf(self.pools@),
                self.tx_records@ == old(self).tx_records@,
                self.blocks@ == old(self).blocks@,
                spec_records_wf(self.tx_records@),
                crate::reorg::spec_blocks_wf(self.blocks@),
                forall|i: int|
                    0 <= i < s0.len() ==> {
                        let q = #[trigger] self.pools@[i];
                        &&& q.addr == s0[i].addr
                        &&& q.meta == s0[i].meta
                        &&& q.states@ == if pools_list@.subrange(0, k as int).contains(s0[i].addr) {
                            crate::pool::spec_states_after_rollback(s0[i].states@, txid)
                        } else {
                            s0[i].states@
                        }
                    },
            decreases m - k,
        {
            let ghost pre = self.pools@;
            let addr = pools_list[k];
            proof {
                assert(pools_list@.subrange(0, k + 1).contains(addr)) by {
                    assert(pools_list@.subrange(0, k + 1)[k as int] == addr);
                }
                assert forall|a: u64|
                    pools_list@.subrange(0, k + 1).contains(a) && a != addr
                        implies pools_list@.subrange(0, k as int).contains(a) by {
                    let sub = pools_list@.subrange(0, k + 1);
                    let w = choose|w: int| 0 <= w < sub.len() && #[trigger] sub[w] == a;
                    assert(pools_list@.subrange(0, k as int)[w] == a);
                }
                assert forall|a: u64|
                    pools_list@.subrange(0, k as int).contains(a)
                        implies pools_list@.subrange(0, k + 1).contains(a) by {
                    let sub = pools_list@.subrange(0, k as int);
                    let w = choose|w: int| 0 <= w < sub.len() && #[trigger] sub[w] == a;
                    assert(pools_list@.subrange(0, k + 1)[w] == a);
                }
            }
            match self.find_pool(addr) {
                Some(j) => {
                    let mut p = self.pools.remove(j);
                    proof {
                        crate::pool::lemma_rollback_idempotent(s0[j as int].states@, txid);
                    }
                    let _ = p.rollback(txid);
                    self.pools.insert(j, p);
                    proof {
                        assert(self.pools@ =~= pre.update(j as int, self.pools@[j as int]));
                        assert forall|x: int, y: int|
                            0 <= x < y < self.pools@.len() implies (
                        #[trigger] self.pools@[x]).addr != (#[trigger] self.pools@[y]).addr by {
                            assert(pre[x].addr != pre[y].addr);
                        }
                        assert forall|x: int| 0 <= x < self.pools@.len() implies (
                        #[trigger] self.pools@[x]).wf() by {
                            if x != j {
                                assert(self.pools@[x] == pre[x]);
                                assert(pre[x].wf());
                            }
                        }
                    }
                },
                None => {},
            }
            k += 1;
        }
        proof {
            assert(pools_list@.subrange(0, m as int) =~= pools_list@);
        }
        purge_txid(&mut self.tx_records, txid);
        Ok(())
    }
}

/// `a` is what remains of `b` after dropping some prefix.
pub open spec fn spec_suffix_of(a: Seq<PoolState>, b: Seq<PoolState>) -> bool {
    exists|k: int| 0 <= k <= b.len() && a == #[trigger] b.subrange(k, b.len() as int)
}

/// Suffixes compose: a suffix of a suffix of `c` is a suffix of `c`.
proof fn lemma_suffix_trans(a: Seq<PoolState>, b: Seq<PoolState>, c: Seq<PoolState>)
    requires
        spec_suffix_of(a, b),
        spec_suffix_of(b, c),
    ensures
        spec_suffix_of(a, c),
{
    let k1 = choose|k: int| 0 <= k <= b.len() && a == #[trigger] b.subrange(k, b.len() as int);
    let k2 = choose|k: int| 0 <= k <= c.len() && b == #[trigger] c.subrange(k, c.len() as int);
    assert(a =~= c.subrange(k1 + k2, c.len() as int));
}

/// Every sequence is a suffix of itself.
proof fn lemma_suffix_refl(a: Seq<PoolState>)
    ensures
        spec_suffix_of(a, a),
{
    assert(a =~= a.subrange(0, a.len() as int));
}

/// A transaction's tracker slot after the confirmations of one block
/// report: transactions in the confirmed list with an unconfirmed
/// slot have it copied into their confirmed slot; unconfirmed slots
/// never change here.
pub open spec fn spec_confirm_slot(
    r1: Seq<TxRecord>,
    confirmed: Seq<Txid>,
    t: Txid,
    c: bool,
) -> Option<Seq<u64>> {
    if c {
        if confirmed.contains(t) && spec_record_slot(r1, t, false) is Some {
            spec_record_slot(r1, t, false)
        } else {
            spec_record_slot(r1, t, true)
        }
    } else {
        spec_record_slot(r1, t, false)
    }
}

/// A transaction's tracker slot after the finalization sweep: a
/// transaction confirmed by a finalized block (or listed in `extra`)
/// whose confirmed slot is held loses both slots; every other slot is
/// unchanged.
pub open spec fn spec_finalize_slot(
    r2: Seq<TxRecord>,
    finalized: Seq<NewBlockInfo>,
    extra: Seq<Txid>,
    t: Txid,
    c: bool,
) -> Option<Seq<u64>> {
    if (crate::reorg::spec_txid_in_blocks(finalized, t) || extra.contains(t)) && spec_record_slot(
        r2,
        t,
        true,
    ) is Some {
        None
    } else {
        spec_record_slot(r2, t, c)
    }
}

/// How many leading retained blocks sit at or below the finalization
/// threshold, for a gapless height-ascending history.
pub open spec fn spec_finalized_count(b2: Seq<NewBlockInfo>, ch: int) -> int {
    if b2.len() == 0 {
        0
    } else {
        let first = b2[0].block_height;
        if ch < first {
            0
        } else if ch >= first + b2.len() - 1 {
            b2.len() as int
        } else {
            ch - first + 1
        }
    }
}

/// Copies every transaction in `txids` that has an unconfirmed
/// tracker slot into its confirmed slot.
pub fn confirm_all(records: &mut Vec<TxRecord>, txids: &Vec<Txid>)
    requires
        spec_records_wf(old(records)@),
    ensures
        spec_records_wf(final(records)@),
        forall|t: Txid, c: bool|
            #[trigger] spec_record_slot(final(records)@, t, c) == spec_confirm_slot(
                old(records)@,
                txids@,
                t,
                c,
            ),
{
    let ghost r1 = old(records)@;
    let m = txids.len();
    let mut k: usize = 0;
    while k < m
        invariant
            spec_records_wf(records@),
            spec_records_wf(r1),
            m == txids@.len(),
            0 <= k <= m,
            forall|t: Txid, c: bool|
                #[trigger] spec_record_slot(records@, t, c) == spec_confirm_slot(
                    r1,
                    txids@.subrange(0, k as int),
                    t,
                    c,
                ),
        decreases m - k,
    {
        let ghost pre = records@;
        let t = txids[k];
        confirm_txid(records, t);
        proof {
            let done = txids@.subrange(0, k as int);
            let done2 = txids@.subrange(0, k + 1);
            assert(done2.contains(t)) by {
                assert(done2[k as int] == t);
            }
            assert forall|a: Txid| done2.contains(a) && a != t implies done.contains(a) by {
                let w = choose|w: int| 0 <= w < done2.len() && #[trigger] done2[w] == a;
                assert(done[w] == a);
            }
            assert forall|a: Txid| done.contains(a) implies done2.contains(a) by {
                let w = choose|w: int| 0 <= w < done.len() && #[trigger] done[w] == a;
                assert(done2[w] == a);
            }
            assert forall|t2: Txid, c: bool|
                #[trigger] spec_record_slot(records@, t2, c) == spec_confirm_slot(
                    r1,
                    done2,
                    t2,
                    c,
                ) by {
                assert(spec_record_slot(pre, t2, true) == spec_confirm_slot(r1, done, t2, true));
                assert(spec_record_slot(pre, t2, false) == spec_confirm_slot(r1, done, t2, false));
                if t2 != t {
                    assert(spec_record_slot(records@, t2, c) == spec_record_slot(pre, t2, c));
                }
            }
        }
        k += 1;
    }
    proof {
        assert(txids@.subrange(0, m as int) =~= txids@);
    }
}

/// Position of the pool stored under `addr`, if one is.
fn find_pool_index(pools: &Vec<Pool>, addr: u64) -> (r: Option<usize>)
    requires
        spec_pools_wf(pools@),
    ensures
        match r {
            Some(i) => i < pools@.len() && pools@[i as int].addr == addr && spec_pool_at(
                pools@,
                addr,
            ) == Some(pools@[i as int]),
            None => spec_pool_at(pools@, addr) is None && forall|j: int|
                0 <= j < pools@.len() ==> (#[trigger] pools@[j]).addr != addr,
        },
{
    let n = pools.len();
    let mut i: usize = 0;
    while i < n
        invariant
            n == pools@.len(),
            i <= n,
            spec_pools_wf(pools@),
            forall|j: int| 0 <= j < i ==> (#[trigger] pools@[j]).addr != addr,
        decreases n - i,
    {
        if pools[i].addr == addr {
            proof {
                let w = choose|w: int|
                    0 <= w < pools@.len() && (#[trigger] pools@[w]).addr == addr;
                if w != i {
                    assert(false);
                }
            }
            return Some(i);
        }
        i += 1;
    }
    proof {
        if exists|w: int| 0 <= w < pools@.len() && (#[trigger] pools@[w]).addr == addr {
            let w = choose|w: int| 0 <= w < pools@.len() && (#[trigger] pools@[w]).addr == addr;
            assert(false);
        }
    }
    None
}

/// Makes `txid` permanent in every pool of `addrs` that is stored:
/// each such pool's chain is pivoted at the state `txid` produced.
/// Addresses not stored, and pools that do not hold `txid`, are left
/// as they are.  Every pool keeps its address, its metadata, a suffix
/// of its chain, and its current (last) state.
fn finalize_pools_for(pools: &mut Vec<Pool>, addrs: &Vec<u64>, txid: Txid)
    requires
        spec_pools_wf(old(pools)@),
    ensures
        spec_pools_wf(final(pools)@),
        final(pools)@.len() == old(pools)@.len(),
        forall|i: int|
            0 <= i < old(pools)@.len() ==> {
                let q = #[trigger] final(pools)@[i];
                let p = old(pools)@[i];
                &&& q.addr == p.addr
                &&& q.meta == p.meta
                &&& spec_suffix_of(q.states@, p.states@)
                &&& (p.states@.len() > 0 ==> q.states@.len() > 0 && q.states@.last()
                    == p.states@.last())
            },
        forall|i: int|
            0 <= i < old(pools)@.len() && !addrs@.contains(old(pools)@[i].addr)
                ==> #[trigger] final(pools)@[i] == old(pools)@[i],
        forall|i: int|
            0 <= i < old(pools)@.len() ==> #[trigger] final(pools)@[i].states@
                == old(pools)@[i].states@ || (final(pools)@[i].states@.len() > 0
                && final(pools)@[i].states@[0].id == txid),
{
    let ghost p0 = old(pools)@;
    proof {
        assert forall|i: int| 0 <= i < p0.len() implies spec_suffix_of(
            (#[trigger] p0[i]).states@,
            p0[i].states@,
        ) by {
            lemma_suffix_refl(p0[i].states@);
        }
    }
    let m = addrs.len();
    let mut k: usize = 0;
    while k < m
        invariant
            spec_pools_wf(pools@),
            spec_pools_wf(p0),
            m == addrs@.len(),
            0 <= k <= m,
            pools@.len() == p0.len(),
            forall|i: int|
                0 <= i < p0.len() ==> {
                    let q = #[trigger] pools@[i];
                    let p = p0[i];
                    &&& q.addr == p.addr
                    &&& q.meta == p.meta
                    &&& spec_suffix_of(q.states@, p.states@)
                    &&& (p.states@.len() > 0 ==> q.states@.len() > 0 && q.states@.last()
                        == p.states@.last())
                },
            forall|i: int|
                0 <= i < p0.len() && !addrs@.subrange(0, k as int).contains(p0[i].addr)
                    ==> #[trigger] pools@[i] == p0[i],
            forall|i: int|
                0 <= i < p0.len() ==> #[trigger] pools@[i].states@ == p0[i].states@ || (
                pools@[i].states@.len() > 0 && pools@[i].states@[0].id == txid),
        decreases m - k,
    {
        let ghost pre = pools@;
        let addr = addrs[k];
        proof {
            assert(addrs@.subrange(0, k + 1).contains(addr)) by {
                assert(addrs@.subrange(0, k + 1)[k as int] == addr);
            }
            assert forall|a: u64|
                addrs@.subrange(0, k + 1).contains(a) && a != addr
                    implies addrs@.subrange(0, k as int).contains(a) by {
                let sub = addrs@.subrange(0, k + 1);
                let w = choose|w: int| 0 <= w < sub.len() && #[trigger] sub[w] == a;
                assert(addrs@.subrange(0, k as int)[w] == a);
            }
            assert forall|a: u64|
                addrs@.subrange(0, k as int).contains(a) implies addrs@.subrange(
                0,
                k + 1,
            ).contains(a) by {
                let sub = addrs@.subrange(0, k as int);
                let w = choose|w: int| 0 <= w < sub.len() && #[trigger] sub[w] == a;
                assert(addrs@.subrange(0, k + 1)[w] == a);
            }
        }
        let jopt = find_pool_index(pools, addr);
        match jopt {
            Some(j) => {
                let mut p = pools.remove(j);
                let _ = p.finalize(txid);
                pools.insert(j, p);
                proof {
                    assert(pools@ =~= pre.update(j as int, pools@[j as int]));
                    assert forall|x: int, y: int| 0 <= x < y < pools@.len() implies (
                    #[trigger] pools@[x]).addr != (#[trigger] pools@[y]).addr by {
                        assert(pre[x].addr != pre[y].addr);
                    }
                    assert forall|x: int| 0 <= x < pools@.len() implies (
                    #[trigger] pools@[x]).wf() by {
                        if x != j {
                            assert(pools@[x] == pre[x]);
                            assert(pre[x].wf());
                        }
                    }
                    assert forall|i: int|
                        0 <= i < p0.len() implies #[trigger] pools@[i].states@ == p0[i].states@ || (
                    pools@[i].states@.len() > 0 && pools@[i].states@[0].id == txid) by {
                        assert(pre[i].states@ == p0[i].states@ || (pre[i].states@.len() > 0
                            && pre[i].states@[0].id == txid));
                        if i == j {
                            let mid = pre[i];
                            crate::pool::lemma_first_idx_props(mid.states@, txid);
                            let fi = crate::pool::spec_first_idx(mid.states@, txid);
                            if fi < 0 {
                                assert(pools@[i].states@ == pre[i].states@);
                            } else {
                                assert(pools@[i].states@ == mid.states@.subrange(
                                    fi,
                                    mid.states@.len() as int,
                                ));
                                assert(pools@[i].states@[0] == mid.states@[fi]);
                            }
                        } else {
                            assert(pools@[i] == pre[i]);
                        }
                    }
                    assert forall|i: int|
                        0 <= i < p0.len() implies {
                        let q = #[trigger] pools@[i];
                        let p = p0[i];
                        &&& q.addr == p.addr
                        &&& q.meta == p.meta
                        &&& spec_suffix_of(q.states@, p.states@)
                        &&& (p.states@.len() > 0 ==> q.states@.len() > 0 && q.states@.last()
                            == p.states@.last())
                    } by {
                        if i == j {
                            let q = pools@[i];
                            let mid = pre[i];
                            assert(spec_suffix_of(q.states@, mid.states@)) by {
                                crate::pool::lemma_first_idx_props(mid.states@, txid);
                                let fi = crate::pool::spec_first_idx(mid.states@, txid);
                                if fi < 0 {
                                    lemma_suffix_refl(mid.states@);
                                } else {
                                    assert(q.states@ == mid.states@.subrange(
                                        fi,
                                        mid.states@.len() as int,
                                    ));
                                }
                            }
                            lemma_suffix_trans(q.states@, mid.states@, p0[i].states@);
                        } else {
                            assert(pools@[i] == pre[i]);
                        }
                    }
                }
            },
            None => {},
        }
        k += 1;
    }
}

/// No confirmed tracker slot lists the pool address `addr`, so no
/// finalization pass can touch that pool.
pub open spec fn spec_no_confirmed_slot_lists(r: Seq<TxRecord>, addr: u64) -> bool {
    forall|t: Txid|
        match #[trigger] spec_record_slot(r, t, true) {
            Some(ps) => !ps.contains(addr),
            None => true,
        }
}

/// Finalizes every leading retained block whose height is at or below
/// the threshold `ch`: each transaction such a block confirmed, if
/// its confirmed slot is held, is made permanent in every pool it
/// touched and dropped from the tracker; the block itself is dropped.
/// Blocks above the threshold, and transactions without a confirmed
/// slot, are untouched.
fn finalize_sweep(
    pools: &mut Vec<Pool>,
    blocks: &mut Vec<NewBlockInfo>,
    records: &mut Vec<TxRecord>,
    ch: u32,
)
    requires
        spec_pools_wf(old(pools)@),
        crate::reorg::spec_blocks_wf(old(blocks)@),
        spec_records_wf(old(records)@),
    ensures
        spec_pools_wf(final(pools)@),
        crate::reorg::spec_blocks_wf(final(blocks)@),
        spec_records_wf(final(records)@),
        final(blocks)@ == old(blocks)@.subrange(
            spec_finalized_count(old(blocks)@, ch as int),
            old(blocks)@.len() as int,
        ),
        forall|t: Txid, c: bool|
            #[trigger] spec_record_slot(final(records)@, t, c) == spec_finalize_slot(
                old(records)@,
                old(blocks)@.subrange(0, spec_finalized_count(old(blocks)@, ch as int)),
                Seq::<Txid>::empty(),
                t,
                c,
            ),
        final(pools)@.len() == old(pools)@.len(),
        forall|i: int|
            0 <= i < old(pools)@.len() ==> {
                let q = #[trigger] final(pools)@[i];
                let p = old(pools)@[i];
                &&& q.addr == p.addr
                &&& q.meta == p.meta
                &&& spec_suffix_of(q.states@, p.states@)
                &&& (p.states@.len() > 0 ==> q.states@.len() > 0 && q.states@.last()
                    == p.states@.last())
            },
        forall|i: int|
            0 <= i < old(pools)@.len() && spec_no_confirmed_slot_lists(
                old(records)@,
                old(pools)@[i].addr,
            ) ==> #[trigger] final(pools)@[i] == old(pools)@[i],
        forall|i: int|
            0 <= i < old(pools)@.len() ==> #[trigger] final(pools)@[i].states@
                == old(pools)@[i].states@ || (exists|t: Txid|
                crate::reorg::spec_txid_in_blocks(
                    old(blocks)@.subrange(0, spec_finalized_count(old(blocks)@, ch as int)),
                    t,
                ) && #[trigger] spec_record_slot(old(records)@, t, true) is Some
                    && final(pools)@[i].states@.len() > 0 && final(pools)@[i].states@[0].id == t),
{
    let ghost b2 = old(blocks)@;
    let ghost r2 = old(records)@;
    let ghost p0 = old(pools)@;
    proof {
        assert forall|i: int| 0 <= i < p0.len() implies spec_suffix_of(
            (#[trigger] p0[i]).states@,
            p0[i].states@,
        ) by {
            lemma_suffix_refl(p0[i].states@);
        }
        assert(blocks@ =~= b2.subrange(0, b2.len() as int));
    }
    while blocks.len() > 0 && blocks[0].block_height <= ch
        invariant
            spec_pools_wf(pools@),
            spec_records_wf(records@),
            crate::reorg::spec_blocks_wf(b2),
            spec_records_wf(r2),
            spec_pools_wf(p0),
            blocks@.len() <= b2.len(),
            blocks@ == b2.subrange(b2.len() - blocks@.len(), b2.len() as int),
            b2.len() > blocks@.len() ==> b2[b2.len() - blocks@.len() - 1].block_height <= ch,
            pools@.len() == p0.len(),
            forall|i: int|
                0 <= i < p0.len() ==> {
                    let q = #[trigger] pools@[i];
                    let p = p0[i];
                    &&& q.addr == p.addr
                    &&& q.meta == p.meta
                    &&& spec_suffix_of(q.states@, p.states@)
                    &&& (p.states@.len() > 0 ==> q.states@.len() > 0 && q.states@.last()
                        == p.states@.last())
                },
            forall|i: int|
                0 <= i < p0.len() && spec_no_confirmed_slot_lists(r2, p0[i].addr)
                    ==> #[trigger] pools@[i] == p0[i],
            forall|i: int|
                0 <= i < p0.len() ==> #[trigger] pools@[i].states@ == p0[i].states@ || (exists|
                    t: Txid,
                |
                    crate::reorg::spec_txid_in_blocks(
                        b2.subrange(0, b2.len() - blocks@.len()),
                        t,
                    ) && #[trigger] spec_record_slot(r2, t, true) is Some
                        && pools@[i].states@.len() > 0 && pools@[i].states@[0].id == t),
            forall|t: Txid, c: bool|
                #[trigger] spec_record_slot(records@, t, c) == spec_finalize_slot(
                    r2,
                    b2.subrange(0, b2.len() - blocks@.len()),
                    Seq::<Txid>::empty(),
                    t,
                    c,
                ),
        decreases blocks@.len(),
    {
        let ghost f = b2.len() - blocks@.len();
        let blk = blocks.remove(0);
        proof {
            assert(blk == b2[f]);
            assert(blk.block_height <= ch);
            assert(blocks@ =~= b2.subrange(f + 1, b2.len() as int));
        }
        let m = blk.confirmed_txids.len();
        let mut kk: usize = 0;
        while kk < m
            invariant
                spec_pools_wf(pools@),
                spec_records_wf(records@),
                crate::reorg::spec_blocks_wf(b2),
                spec_records_wf(r2),
                spec_pools_wf(p0),
                m == blk.confirmed_txids@.len(),
                0 <= kk <= m,
                0 <= f < b2.len(),
                blk == b2[f],
                pools@.len() == p0.len(),
                forall|i: int|
                    0 <= i < p0.len() ==> {
                        let q = #[trigger] pools@[i];
                        let p = p0[i];
                        &&& q.addr == p.addr
                        &&& q.meta == p.meta
                        &&& spec_suffix_of(q.states@, p.states@)
                        &&& (p.states@.len() > 0 ==> q.states@.len() > 0 && q.states@.last()
                            == p.states@.last())
                    },
                forall|i: int|
                    0 <= i < p0.len() && spec_no_confirmed_slot_lists(r2, p0[i].addr)
                        ==> #[trigger] pools@[i] == p0[i],
                forall|i: int|
                    0 <= i < p0.len() ==> #[trigger] pools@[i].states@ == p0[i].states@ || (exists|
                        t2: Txid,
                    |
                        (crate::reorg::spec_txid_in_blocks(b2.subrange(0, f), t2)
                            || blk.confirmed_txids@.subrange(0, kk as int).contains(t2))
                            && #[trigger] spec_record_slot(r2, t2, true) is Some
                            && pools@[i].states@.len() > 0 && pools@[i].states@[0].id == t2),
                forall|t: Txid, c: bool|
                    #[trigger] spec_record_slot(records@, t, c) == spec_finalize_slot(
                        r2,
                        b2.subrange(0, f),
                        blk.confirmed_txids@.subrange(0, kk as int),
                        t,
                        c,
                    ),
            decreases m - kk,
        {
            let ghost pre_r = records@;
            let ghost pre_p = pools@;
            let t = blk.confirmed_txids[kk];
            match find_record(records, t, true) {
                Some(ci) => {
                    let addrs = copy_pools(&records[ci].pools);
                    finalize_pools_for(pools, &addrs, t);
                    proof {
                        assert forall|i: int|
                            0 <= i < p0.len() implies {
                            let q = #[trigger] pools@[i];
                            let p = p0[i];
                            &&& q.addr == p.addr
                            &&& q.meta == p.meta
                            &&& spec_suffix_of(q.states@, p.states@)
                            &&& (p.states@.len() > 0 ==> q.states@.len() > 0 && q.states@.last()
                                == p.states@.last())
                        } by {
                            lemma_suffix_trans(pools@[i].states@, pre_p[i].states@, p0[i].states@);
                        }
                        assert forall|i: int|
                            0 <= i < p0.len() && spec_no_confirmed_slot_lists(r2, p0[i].addr)
                                implies #[trigger] pools@[i] == p0[i] by {
                            assert(match spec_record_slot(r2, t, true) {
                                Some(ps) => !ps.contains(p0[i].addr),
                                None => true,
                            });
                            assert(spec_record_slot(records@, t, true) == spec_finalize_slot(
                                r2,
                                b2.subrange(0, f),
                                blk.confirmed_txids@.subrange(0, kk as int),
                                t,
                                true,
                            ));
                            assert(!addrs@.contains(p0[i].addr));
                            assert(pre_p[i] == p0[i]);
                        }
                    }
                    purge_txid(records, t);
                },
                None => {},
            }
            proof {
                let done = blk.confirmed_txids@.subrange(0, kk as int);
                let done2 = blk.confirmed_txids@.subrange(0, kk + 1);
                assert(done2.contains(t)) by {
                    assert(done2[kk as int] == t);
                }
                assert forall|a: Txid| done2.contains(a) && a != t implies done.contains(a) by {
                    let w = choose|w: int| 0 <= w < done2.len() && #[trigger] done2[w] == a;
                    assert(done[w] == a);
                }
                assert forall|a: Txid| done.contains(a) implies done2.contains(a) by {
                    let w = choose|w: int| 0 <= w < done.len() && #[trigger] done[w] == a;
                    assert(done2[w] == a);
                }
                assert forall|t2: Txid, c: bool|
                    #[trigger] spec_record_slot(records@, t2, c) == spec_finalize_slot(
                        r2,
                        b2.subrange(0, f),
                        done2,
                        t2,
                        c,
                    ) by {
                    assert(spec_record_slot(pre_r, t2, true) == spec_finalize_slot(
                        r2,
                        b2.subrange(0, f),
                        done,
                        t2,
                        true,
                    ));
                    assert(spec_record_slot(pre_r, t2, false) == spec_finalize_slot(
                        r2,
                        b2.subrange(0, f),
                        done,
                        t2,
                        false,
                    ));
                    if t2 != t {
                        assert(spec_record_slot(records@, t2, c) == spec_record_slot(pre_r, t2, c));
                    }
                }
                assert forall|i: int|
                    0 <= i < p0.len() implies #[trigger] pools@[i].states@ == p0[i].states@ || (
                exists|t2: Txid|
                    (crate::reorg::spec_txid_in_blocks(b2.subrange(0, f), t2) || done2.contains(t2))
                        && #[trigger] spec_record_slot(r2, t2, true) is Some
                        && pools@[i].states@.len() > 0 && pools@[i].states@[0].id == t2) by {
                    if pools@[i].states@ == pre_p[i].states@ {
                        if pre_p[i].states@ != p0[i].states@ {
                            let tw = choose|t2: Txid|
                                (crate::reorg::spec_txid_in_blocks(b2.subrange(0, f), t2)
                                    || done.contains(t2)) && #[trigger] spec_record_slot(
                                    r2,
                                    t2,
                                    true,
                                ) is Some && pre_p[i].states@.len() > 0 && pre_p[i].states@[0].id
                                    == t2;
                            assert((crate::reorg::spec_txid_in_blocks(b2.subrange(0, f), tw)
                                || done2.contains(tw)) && spec_record_slot(r2, tw, true) is Some
                                && pools@[i].states@.len() > 0 && pools@[i].states@[0].id == tw);
                        }
                    } else {
                        assert(pools@[i].states@.len() > 0 && pools@[i].states@[0].id == t);
                        assert(spec_record_slot(pre_r, t, true) == spec_finalize_slot(
                            r2,
                            b2.subrange(0, f),
                            done,
                            t,
                            true,
                        ));
                        assert(spec_record_slot(r2, t, true) is Some);
                        assert((crate::reorg::spec_txid_in_blocks(b2.subrange(0, f), t)
                            || done2.contains(t)) && spec_record_slot(r2, t, true) is Some
                            && pools@[i].states@.len() > 0 && pools@[i].states@[0].id == t);
                    }
                }
            }
            kk += 1;
        }
        proof {
            let finb = b2.subrange(0, f);
            let finb2 = b2.subrange(0, f + 1);
            assert(blk.confirmed_txids@.subrange(0, m as int) =~= blk.confirmed_txids@);
            assert forall|t: Txid|
                crate::reorg::spec_txid_in_blocks(finb2, t) implies (
            crate::reorg::spec_txid_in_blocks(finb, t) || blk.confirmed_txids@.contains(t)) by {
                let w = choose|w: int|
                    0 <= w < finb2.len() && (#[trigger] finb2[w]).confirmed_txids@.contains(t);
                if w == f {
                    assert(finb2[w] == blk);
                } else {
                    assert(finb2[w] == finb[w]);
                }
            }
            assert forall|t: Txid|
                crate::reorg::spec_txid_in_blocks(finb, t) || blk.confirmed_txids@.contains(t)
                    implies crate::reorg::spec_txid_in_blocks(finb2, t) by {
                if blk.confirmed_txids@.contains(t) {
                    assert(finb2[f] == blk);
                    assert(crate::reorg::spec_txid_in_blocks(finb2, t));
                } else {
                    let w = choose|w: int|
                        0 <= w < finb.len() && (#[trigger] finb[w]).confirmed_txids@.contains(t);
                    assert(finb2[w] == finb[w]);
                }
            }
            assert forall|i: int|
                0 <= i < p0.len() implies #[trigger] pools@[i].states@ == p0[i].states@ || (exists|
                    t2: Txid,
                |
                    crate::reorg::spec_txid_in_blocks(finb2, t2) && #[trigger] spec_record_slot(
                        r2,
                        t2,
                        true,
                    ) is Some && pools@[i].states@.len() > 0 && pools@[i].states@[0].id == t2) by {
                if pools@[i].states@ != p0[i].states@ {
                    let tw = choose|t2: Txid|
                        (crate::reorg::spec_txid_in_blocks(finb, t2)
                            || blk.confirmed_txids@.contains(t2)) && #[trigger] spec_record_slot(
                            r2,
                            t2,
                            true,
                        ) is Some && pools@[i].states@.len() > 0 && pools@[i].states@[0].id == t2;
                    assert(crate::reorg::spec_txid_in_blocks(finb2, tw) && spec_record_slot(
                        r2,
                        tw,
                        true,
                    ) is Some && pools@[i].states@.len() > 0 && pools@[i].states@[0].id == tw);
                }
            }
        }
    }
    proof {
        let f = b2.len() - blocks@.len();
        let fc = spec_finalized_count(b2, ch as int);
        if b2.len() > 0 {
            assert(b2[b2.len() - 1].block_height == b2[0].block_height + b2.len() - 1);
            if blocks@.len() == 0 {
                assert(b2[f - 1].block_height <= ch);
                assert(fc == f);
            } else {
                assert(blocks@[0] == b2[f]);
                assert(b2[f].block_height == b2[0].block_height + f);
                assert(b2[f].block_height > ch);
                if f > 0 {
                    assert(b2[f - 1].block_height <= ch);
                }
                assert(fc == f);
            }
        }
        assert(blocks@ == b2.subrange(fc, b2.len() as int));
        assert forall|i: int|
            0 <= i < blocks@.len() implies (#[trigger] blocks@[i]).block_height
            == blocks@[0].block_height + i by {
            assert(b2[fc + i].block_height == b2[0].block_height + fc + i);
            assert(b2[fc].block_height == b2[0].block_height + fc);
        }
    }
}

/// A fresh copy of a transaction-identifier list.
fn copy_txids(v: &Vec<Txid>) -> (r: Vec<Txid>)
    ensures
        r@ == v@,
{
    let mut r: Vec<Txid> = Vec::new();
    let n = v.len();
    let mut i: usize = 0;
    while i < n
        invariant
            n == v@.len(),
            i <= n,
            r@ == v@.subrange(0, i as int),
        decreases n - i,
    {
        r.push(v[i]);
        proof {
            assert(r@ =~= v@.subrange(0, i + 1));
        }
        i += 1;
    }
    proof {
        assert(r@ =~= v@);
    }
    r
}

impl LendingPools {
    /// The minimum value a settlement transaction must move to be
    /// accepted by the exchange.
    pub fn get_minimal_tx_value() -> (r: u64)
        ensures
            r == MIN_BTC_VALUE,
    {
        MIN_BTC_VALUE
    }

    /// The heights of the retained blocks, in ascending order.
    pub fn get_blocks(&self) -> (r: Vec<u32>)
        ensures
            r@.len() == self.blocks@.len(),
            forall|i: int|
                0 <= i < r@.len() ==> r@[i] == (#[trigger] self.blocks@[i]).block_height,
    {
        let mut heights: Vec<u32> = Vec::new();
        let n = self.blocks.len();
        let mut i: usize = 0;
        while i < n
            invariant
                n == self.blocks@.len(),
                i <= n,
                heights@.len() == i,
                forall|j: int|
                    0 <= j < i ==> heights@[j] == (#[trigger] self.blocks@[j]).block_height,
            decreases n - i,
        {
            heights.push(self.blocks[i].block_height);
            i += 1;
        }
        heights
    }

    /// The retained block at `height`, if one is.
    pub fn get_block(&self, height: u32) -> (r: Option<NewBlockInfo>)
        requires
            self.wf(),
        ensures
            match r {
                Some(b) => exists|i: int|
                    0 <= i < self.blocks@.len() && b.block_height == height && {
                        let stored = #[trigger] self.blocks@[i];
                        &&& stored.block_height == height
                        &&& b.block_hash == stored.block_hash
                        &&& b.block_timestamp == stored.block_timestamp
                        &&& b.confirmed_txids@ == stored.confirmed_txids@
                    },
                None => forall|i: int|
                    0 <= i < self.blocks@.len() ==> (#[trigger] self.blocks@[i]).block_height
                        != height,
            },
    {
        let n = self.blocks.len();
        let mut i: usize = 0;
        while i < n
            invariant
                n == self.blocks@.len(),
                i <= n,
                forall|j: int|
                    0 <= j < i ==> (#[trigger] self.blocks@[j]).block_height != height,
            decreases n - i,
        {
            if self.blocks[i].block_height == height {
                let stored = &self.blocks[i];
                return Some(
                    NewBlockInfo {
                        block_height: stored.block_height,
                        block_hash: stored.block_hash,
                        block_timestamp: stored.block_timestamp,
                        confirmed_txids: copy_txids(&stored.confirmed_txids),
                    },
                );
            }
            i += 1;
        }
        None
    }

    /// The transactions currently tracked as unconfirmed, each with
    /// the pools it touched.
    pub fn get_unconfirmed_txs(&self) -> (r: Vec<TxRecord>)
        requires
            self.wf(),
        ensures
            forall|i: int|
                0 <= i < r@.len() ==> {
                    let e = #[trigger] r@[i];
                    &&& e.confirmed == false
                    &&& spec_record_slot(self.tx_records@, e.txid, false) == Some(e.pools@)
                },
            forall|j: int|
                0 <= j < self.tx_records@.len() && (#[trigger] self.tx_records@[j]).confirmed
                    == false ==> exists|i: int| 0 <= i < r@.len() && (#[trigger] r@[i]).txid
                    == self.tx_records@[j].txid,
    {
        let mut out: Vec<TxRecord> = Vec::new();
        let n = self.tx_records.len();
        let mut i: usize = 0;
        while i < n
            invariant
                n == self.tx_records@.len(),
                i <= n,
                self.wf(),
                forall|x: int|
                    0 <= x < out@.len() ==> {
                        let e = #[trigger] out@[x];
                        &&& e.confirmed == false
                        &&& spec_record_slot(self.tx_records@, e.txid, false) == Some(e.pools@)
                    },
                forall|j: int|
                    0 <= j < i && (#[trigger] self.tx_records@[j]).confirmed == false
                        ==> exists|x: int| 0 <= x < out@.len() && (#[trigger] out@[x]).txid
                        == self.tx_records@[j].txid,
            decreases n - i,
        {
            if !self.tx_records[i].confirmed {
                let entry = TxRecord {
                    txid: self.tx_records[i].txid,
                    confirmed: false,
                    pools: copy_pools(&self.tx_records[i].pools),
                };
                proof {
                    let w = choose|w: int|
                        0 <= w < self.tx_records@.len() && (#[trigger] self.tx_records@[w]).txid
                            == entry.txid && self.tx_records@[w].confirmed == false;
                    if w != i {
                        assert(false);
                    }
                }
                let ghost pre_out = out@;
                out.push(entry);
                proof {
                    assert forall|j: int|
                        0 <= j <= i && (#[trigger] self.tx_records@[j]).confirmed == false
                            implies exists|x: int| 0 <= x < out@.len() && (#[trigger] out@[x]).txid
                            == self.tx_records@[j].txid by {
                        if j < i {
                            let x = choose|x: int|
                                0 <= x < pre_out.len() && (#[trigger] pre_out[x]).txid
                                    == self.tx_records@[j].txid;
                            assert(out@[x] == pre_out[x]);
                        } else {
                            assert(out@[out@.len() - 1].txid == self.tx_records@[i as int].txid);
                        }
                    }
                }
            }
            i += 1;
        }
        out
    }

    /// Drops the whole retained block history.
    pub fn reset_blocks(&mut self)
        requires
            old(self).wf(),
        ensures
            final(self).wf(),
            final(self).blocks@ == Seq::<NewBlockInfo>::empty(),
            final(self).pools@ == old(self).pools@,
            final(self).tx_records@ == old(self).tx_records@,
    {
        self.blocks.clear();
    }

    /// Name and address of every pool.
    pub fn get_pool_list(&self) -> (r: Vec<PoolBasic>)
        ensures
            r@.len() == self.pools@.len(),
            forall|i: int|
                0 <= i < r@.len() ==> {
                    let e = #[trigger] r@[i];
                    &&& e.address == self.pools@[i].addr
                    &&& e.name@ == self.pools@[i].meta.symbol@
                },
    {
        let mut out: Vec<PoolBasic> = Vec::new();
        let n = self.pools.len();
        let mut i: usize = 0;
        while i < n
            invariant
                n == self.pools@.len(),
                i <= n,
                out@.len() == i,
                forall|j: int|
                    0 <= j < i ==> {
                        let e = #[trigger] out@[j];
                        &&& e.address == self.pools@[j].addr
                        &&& e.name@ == self.pools@[j].meta.symbol@
                    },
            decreases n - i,
        {
            let name = self.pools[i].meta.symbol.clone();
            out.push(PoolBasic { name, address: self.pools[i].addr });
            i += 1;
        }
        out
    }

    /// Everything a caller displays about the pool at `pool_address`:
    /// its identity and the reserves of its current state.
    pub fn get_pool_info(&self, pool_address: u64) -> (r: Option<PoolInfo>)
        requires
            self.wf(),
        ensures
            match r {
                Some(info) => match spec_pool_at(self.pools@, pool_address) {
                    Some(p) => {
                        let s = p.spec_current_state();
                        &&& info.address == pool_address
                        &&& info.name@ == p.meta.symbol@
                        &&& info.nonce == s.nonce
                        &&& info.btc_reserved == s.spec_btc_supply()
                        &&& info.coin_reserved == (CoinBalance {
                            id: s.rune_id,
                            value: s.spec_rune_supply(),
                        })
                        &&& info.utxos@ == match s.utxo {
                            Some(u) => seq![u],
                            None => Seq::<Utxo>::empty(),
                        }
                    },
                    None => false,
                },
                None => spec_pool_at(self.pools@, pool_address) is None,
            },
    {
        let i = match self.find_pool(pool_address) {
            Some(i) => i,
            None => {
                return None;
            },
        };
        let p = &self.pools[i];
        let state = p.current_state();
        let info = state.inspect_state();
        Some(
            PoolInfo {
                address: pool_address,
                name: p.meta.symbol.clone(),
                nonce: info.nonce,
                btc_reserved: info.btc_reserved,
                coin_reserved: info.coin_reserved,
                utxos: info.utxos,
            },
        )
    }
}

/// A transaction's tracker slot after a whole block report was
/// processed: first the confirmations of the blocks a recoverable
/// reorganization removed are demoted, then the report's confirmed
/// list is copied into confirmed slots, then every transaction
/// confirmed by a block that passed the finalization threshold loses
/// both slots.
/// A transaction's unconfirmed tracker slot after the reorganization
/// and confirmation phases of a block report (demotion moves the
/// confirmed pools back here; confirmation never changes it).
pub open spec fn spec_unconfirmed_after_report(
    r0: Seq<TxRecord>,
    removed: Seq<NewBlockInfo>,
    t: Txid,
) -> Option<Seq<u64>> {
    if crate::reorg::spec_txid_in_blocks(removed, t) {
        match spec_record_slot(r0, t, true) {
            Some(p) => Some(p),
            None => spec_record_slot(r0, t, false),
        }
    } else {
        spec_record_slot(r0, t, false)
    }
}

/// A transaction's confirmed tracker slot after the reorganization
/// and confirmation phases of a block report, before finalization.
pub open spec fn spec_confirmed_after_report(
    r0: Seq<TxRecord>,
    removed: Seq<NewBlockInfo>,
    confirmed: Seq<Txid>,
    t: Txid,
) -> Option<Seq<u64>> {
    let ut1 = spec_unconfirmed_after_report(r0, removed, t);
    let ct1 = if crate::reorg::spec_txid_in_blocks(removed, t) {
        None
    } else {
        spec_record_slot(r0, t, true)
    };
    if confirmed.contains(t) && ut1 is Some {
        ut1
    } else {
        ct1
    }
}

/// Processing a block report leaves the pool at `addr` untouched:
/// after the reorganization and confirmation phases, no confirmed
/// tracker slot lists it, so the finalization sweep cannot reach it.
pub open spec fn spec_report_leaves_pool(
    r0: Seq<TxRecord>,
    removed: Seq<NewBlockInfo>,
    confirmed: Seq<Txid>,
    addr: u64,
) -> bool {
    forall|t: Txid|
        match #[trigger] spec_confirmed_after_report(r0, removed, confirmed, t) {
            Some(ps) => !ps.contains(addr),
            None => true,
        }
}

/// The pool chain `states` was pivoted by this block report: it now
/// starts at a state produced by a transaction that a finalized block
/// confirmed and whose confirmed slot was held.
pub open spec fn spec_pool_pivoted_by_report(
    r0: Seq<TxRecord>,
    removed: Seq<NewBlockInfo>,
    confirmed: Seq<Txid>,
    finalized: Seq<NewBlockInfo>,
    states: Seq<PoolState>,
) -> bool {
    exists|t: Txid|
        crate::reorg::spec_txid_in_blocks(finalized, t) && #[trigger] spec_confirmed_after_report(
            r0,
            removed,
            confirmed,
            t,
        ) is Some && states.len() > 0 && states[0].id == t
}

pub open spec fn spec_new_block_slot(
    r0: Seq<TxRecord>,
    removed: Seq<NewBlockInfo>,
    confirmed: Seq<Txid>,
    finalized: Seq<NewBlockInfo>,
    t: Txid,
    c: bool,
) -> Option<Seq<u64>> {
    let ut1 = spec_unconfirmed_after_report(r0, removed, t);
    let ct2 = spec_confirmed_after_report(r0, removed, confirmed, t);
    let fin = crate::reorg::spec_txid_in_blocks(finalized, t) && ct2 is Some;
    if fin {
        None
    } else if c {
        ct2
    } else {
        ut1
    }
}

impl LendingPools {
    /// Processes a newly reported block: classifies it against the
    /// retained history (a duplicate or an unrecoverable divergence
    /// is reported to the caller and changes nothing), undoes a
    /// recoverable reorganization, retains the block, marks the
    /// transactions it confirmed, finalizes everything in blocks past
    /// the reorganization-depth threshold, and prunes those blocks.
    /// No pool's current (last) state ever changes here.
    #[verifier::rlimit(60)]
    pub fn new_block(&mut self, args: NewBlockInfo) -> (r: Result<(), crate::reorg::Error>)
        requires
            old(self).wf(),
        ensures
            final(self).wf(),
            ({
                let detect = crate::reorg::spec_detect_reorg(
                    BitcoinNetwork::Testnet,
                    old(self).blocks@,
                    args,
                );
                match detect {
                    Err(crate::reorg::Error::DuplicateBlock { height, hash }) => {
                        &&& r == Err::<(), crate::reorg::Error>(
                            crate::reorg::Error::DuplicateBlock { height, hash },
                        )
                        &&& final(self).pools@ == old(self).pools@
                        &&& final(self).blocks@ == old(self).blocks@
                        &&& final(self).tx_records@ == old(self).tx_records@
                    },
                    Err(crate::reorg::Error::Unrecoverable) => {
                        &&& r == Err::<(), crate::reorg::Error>(crate::reorg::Error::Unrecoverable)
                        &&& final(self).pools@ == old(self).pools@
                        &&& final(self).blocks@ == old(self).blocks@
                        &&& final(self).tx_records@ == old(self).tx_records@
                    },
                    _ => {
                        let b0 = old(self).blocks@;
                        let removed = match detect {
                            Err(crate::reorg::Error::Recoverable { height, depth }) => b0.subrange(
                                b0.len() - depth,
                                b0.len() as int,
                            ),
                            _ => Seq::<NewBlockInfo>::empty(),
                        };
                        let survivors = match detect {
                            Err(crate::reorg::Error::Recoverable { height, depth }) => b0.subrange(
                                0,
                                b0.len() - depth,
                            ),
                            _ => b0,
                        };
                        let b2 = survivors.push(args);
                        let maxd = crate::reorg::spec_max_recoverable_reorg_depth(
                            BitcoinNetwork::Testnet,
                        );
                        let ch = args.block_height - maxd + 1;
                        let fc = spec_finalized_count(b2, ch);
                        let finalized = b2.subrange(0, fc);
                        &&& r == Ok::<(), crate::reorg::Error>(())
                        &&& final(self).blocks@ == b2.subrange(fc, b2.len() as int)
                        &&& forall|t: Txid, c: bool|
                            #[trigger] spec_record_slot(final(self).tx_records@, t, c)
                                == spec_new_block_slot(
                                old(self).tx_records@,
                                removed,
                                args.confirmed_txids@,
                                finalized,
                                t,
                                c,
                            )
                        &&& final(self).pools@.len() == old(self).pools@.len()
                        &&& forall|i: int|
                            0 <= i < old(self).pools@.len() ==> {
                                let q = #[trigger] final(self).pools@[i];
                                let p = old(self).pools@[i];
                                &&& q.addr == p.addr
                                &&& q.meta == p.meta
                                &&& spec_suffix_of(q.states@, p.states@)
                                &&& (p.states@.len() > 0 ==> q.states@.len() > 0
                                    && q.states@.last() == p.states@.last())
                            }
                        &&& forall|i: int|
                            0 <= i < old(self).pools@.len() && spec_report_leaves_pool(
                                old(self).tx_records@,
                                removed,
                                args.confirmed_txids@,
                                old(self).pools@[i].addr,
                            ) ==> #[trigger] final(self).pools@[i] == old(self).pools@[i]
                        &&& forall|i: int|
                            0 <= i < old(self).pools@.len()
                                ==> #[trigger] final(self).pools@[i].states@
                                == old(self).pools@[i].states@ || spec_pool_pivoted_by_report(
                                old(self).tx_records@,
                                removed,
                                args.confirmed_txids@,
                                finalized,
                                final(self).pools@[i].states@,
                            )
                    },
                }
            }),
    {
        let ghost b0 = self.blocks@;
        let ghost r0 = self.tx_records@;
        let ghost p0 = self.pools@;
        let network = LendingPools::network();
        let det = crate::reorg::detect_reorg(network, &self.blocks, &args);
        match det {
            Err(crate::reorg::Error::DuplicateBlock { height, hash }) => {
                return Err(crate::reorg::Error::DuplicateBlock { height, hash });
            },
            Err(crate::reorg::Error::Unrecoverable) => {
                return Err(crate::reorg::Error::Unrecoverable);
            },
            Err(crate::reorg::Error::Recoverable { height, depth }) => {
                proof {
                    assert(b0.len() > 0);
                    assert(b0[b0.len() - 1].block_height == b0[0].block_height + b0.len() - 1);
                    assert(b0[0].block_height == b0[0].block_height + 0);
                }
                crate::reorg::handle_reorg(&mut self.blocks, &mut self.tx_records, height, depth);
            },
            Ok(()) => {},
        }
        let ghost b1 = self.blocks@;
        let ghost r1 = self.tx_records@;
        confirm_all(&mut self.tx_records, &args.confirmed_txids);
        let ghost r2 = self.tx_records@;
        let new_height = args.block_height;
        proof {
            if b1.len() > 0 {
                assert(b0[b0.len() - 1].block_height == b0[0].block_height + b0.len() - 1);
                assert(b1[b1.len() - 1] == b0[b1.len() - 1]);
                assert(b0[b1.len() - 1].block_height == b0[0].block_height + b1.len() - 1);
            }
        }
        self.blocks.push(args);
        let ghost b2 = self.blocks@;
        proof {
            assert forall|i: int|
                0 <= i < b2.len() implies (#[trigger] b2[i]).block_height == b2[0].block_height
                + i by {
                if i < b1.len() {
                    assert(b2[i] == b1[i]);
                    assert(b1[i].block_height == b1[0].block_height + i);
                }
            }
        }
        let maxd = crate::reorg::get_max_recoverable_reorg_depth(network);
        if new_height >= maxd - 1 {
            let ch = new_height - (maxd - 1);
            finalize_sweep(&mut self.pools, &mut self.blocks, &mut self.tx_records, ch);
        } else {
            proof {
                assert(spec_finalized_count(b2, new_height - maxd + 1) == 0);
                assert(self.blocks@ =~= b2.subrange(0, b2.len() as int));
                assert forall|i: int| 0 <= i < p0.len() implies spec_suffix_of(
                    (#[trigger] p0[i]).states@,
                    p0[i].states@,
                ) by {
                    lemma_suffix_refl(p0[i].states@);
                }
            }
        }
        proof {
            let detect = crate::reorg::spec_detect_reorg(BitcoinNetwork::Testnet, b0, args);
            let removed = match detect {
                Err(crate::reorg::Error::Recoverable { height, depth }) => b0.subrange(
                    b0.len() - depth,
                    b0.len() as int,
                ),
                _ => Seq::<NewBlockInfo>::empty(),
            };
            let ch = new_height - maxd + 1;
            let fc = spec_finalized_count(b2, ch as int);
            let finalized = b2.subrange(0, fc);
            assert forall|t: Txid, c: bool|
                #[trigger] spec_record_slot(self.tx_records@, t, c) == spec_new_block_slot(
                    r0,
                    removed,
                    args.confirmed_txids@,
                    finalized,
                    t,
                    c,
                ) by {
                assert(spec_record_slot(r2, t, true) == spec_confirm_slot(
                    r1,
                    args.confirmed_txids@,
                    t,
                    true,
                ));
                assert(spec_record_slot(r2, t, false) == spec_confirm_slot(
                    r1,
                    args.confirmed_txids@,
                    t,
                    false,
                ));
                if detect is Err && detect->Err_0 is Recoverable {
                    if crate::reorg::spec_txid_in_blocks(removed, t) {
                        assert(crate::reorg::spec_demoted(r0, r1, t));
                    } else {
                        assert(spec_record_slot(r1, t, true) == spec_record_slot(r0, t, true));
                        assert(spec_record_slot(r1, t, false) == spec_record_slot(r0, t, false));
                    }
                } else {
                    assert(r1 == r0);
                    assert(!crate::reorg::spec_txid_in_blocks(removed, t));
                }
                assert(spec_record_slot(self.tx_records@, t, c) == spec_finalize_slot(
                    r2,
                    finalized,
                    Seq::<Txid>::empty(),
                    t,
                    c,
                ));
            }
            assert forall|i: int|
                0 <= i < p0.len() && spec_report_leaves_pool(
                    r0,
                    removed,
                    args.confirmed_txids@,
                    p0[i].addr,
                ) implies #[trigger] self.pools@[i] == p0[i] by {
                assert(spec_no_confirmed_slot_lists(r2, p0[i].addr)) by {
                    assert forall|t: Txid|
                        match #[trigger] spec_record_slot(r2, t, true) {
                            Some(ps) => !ps.contains(p0[i].addr),
                            None => true,
                        } by {
                        assert(spec_record_slot(r2, t, true) == spec_confirm_slot(
                            r1,
                            args.confirmed_txids@,
                            t,
                            true,
                        ));
                        assert(spec_record_slot(r2, t, false) == spec_confirm_slot(
                            r1,
                            args.confirmed_txids@,
                            t,
                            false,
                        ));
                        if detect is Err && detect->Err_0 is Recoverable {
                            if crate::reorg::spec_txid_in_blocks(removed, t) {
                                assert(crate::reorg::spec_demoted(r0, r1, t));
                            } else {
                                assert(spec_record_slot(r1, t, true) == spec_record_slot(
                                    r0,
                                    t,
                                    true,
                                ));
                                assert(spec_record_slot(r1, t, false) == spec_record_slot(
                                    r0,
                                    t,
                                    false,
                                ));
                            }
                        } else {
                            assert(r1 == r0);
                            assert(!crate::reorg::spec_txid_in_blocks(removed, t));
                        }
                        assert(match spec_confirmed_after_report(
                            r0,
                            removed,
                            args.confirmed_txids@,
                            t,
                        ) {
                            Some(ps) => !ps.contains(p0[i].addr),
                            None => true,
                        });
                    }
                }
            }
            assert forall|i: int|
                0 <= i < p0.len() implies #[trigger] self.pools@[i].states@ == p0[i].states@
                || spec_pool_pivoted_by_report(
                r0,
                removed,
                args.confirmed_txids@,
                finalized,
                self.pools@[i].states@,
            ) by {
                if self.pools@[i].states@ != p0[i].states@ {
                    let tw = choose|t: Txid|
                        crate::reorg::spec_txid_in_blocks(finalized, t) && #[trigger] spec_record_slot(
                            r2,
                            t,
                            true,
                        ) is Some && self.pools@[i].states@.len() > 0 && self.pools@[i].states@[0].id
                            == t;
                    assert(spec_record_slot(r2, tw, true) == spec_confirm_slot(
                        r1,
                        args.confirmed_txids@,
                        tw,
                        true,
                    ));
                    assert(spec_record_slot(r2, tw, false) == spec_confirm_slot(
                        r1,
                        args.confirmed_txids@,
                        tw,
                        false,
                    ));
                    if detect is Err && detect->Err_0 is Recoverable {
                        if crate::reorg::spec_txid_in_blocks(removed, tw) {
                            assert(crate::reorg::spec_demoted(r0, r1, tw));
                        } else {
                            assert(spec_record_slot(r1, tw, true) == spec_record_slot(
                                r0,
                                tw,
                                true,
                            ));
                            assert(spec_record_slot(r1, tw, false) == spec_record_slot(
                                r0,
                                tw,
                                false,
                            ));
                        }
                    } else {
                        assert(r1 == r0);
                        assert(!crate::reorg::spec_txid_in_blocks(removed, tw));
                    }
                    assert(spec_confirmed_after_report(
                        r0,
                        removed,
                        args.confirmed_txids@,
                        tw,
                    ) is Some);
                    assert(crate::reorg::spec_txid_in_blocks(finalized, tw)
                        && spec_confirmed_after_report(r0, removed, args.confirmed_txids@, tw)
                        is Some && self.pools@[i].states@.len() > 0
                        && self.pools@[i].states@[0].id == tw);
                }
            }
        }
        Ok(())
    }
}

/// Updating position `i` with a pool of the same address changes that
/// address's slot and no other.
proof fn lemma_pool_at_update(s: Seq<Pool>, i: int, p: Pool)
    requires
        spec_pools_wf(s),
        p.wf(),
        0 <= i < s.len(),
        s[i].addr == p.addr,
    ensures
        spec_pools_wf(s.update(i, p)),
        spec_pool_at(s.update(i, p), p.addr) == Some(p),
        forall|a: u64|
            a != p.addr ==> #[trigger] spec_pool_at(s.update(i, p), a) == spec_pool_at(s, a),
{
    let s2 = s.update(i, p);
    assert forall|x: int, y: int| 0 <= x < y < s2.len() implies (#[trigger] s2[x]).addr != (
    #[trigger] s2[y]).addr by {
        assert(s[x].addr != s[y].addr);
        assert(s2[x] == if x == i { p } else { s[x] });
        assert(s2[y] == if y == i { p } else { s[y] });
    }
    assert forall|x: int| 0 <= x < s2.len() implies (#[trigger] s2[x]).wf() by {
        assert(s2[x] == if x == i { p } else { s[x] });
        assert(s[x].wf());
    }
    assert(s2[i] == p);
    let w = choose|w: int| 0 <= w < s2.len() && (#[trigger] s2[w]).addr == p.addr;
    if w != i {
        assert(s2[w] == s[w]);
        assert(s[i].addr == p.addr);
        assert(false);
    }
    assert forall|a: u64| a != p.addr implies #[trigger] spec_pool_at(s2, a) == spec_pool_at(
        s,
        a,
    ) by {
        if exists|x: int| 0 <= x < s2.len() && (#[trigger] s2[x]).addr == a {
            let x = choose|x: int| 0 <= x < s2.len() && (#[trigger] s2[x]).addr == a;
            assert(x != i);
            assert(s2[x] == s[x]);
            let v = choose|v: int| 0 <= v < s.len() && (#[trigger] s[v]).addr == a;
            assert(s[v] == s[x]);
        } else {
            if exists|v: int| 0 <= v < s.len() && (#[trigger] s[v]).addr == a {
                let v = choose|v: int| 0 <= v < s.len() && (#[trigger] s[v]).addr == a;
                assert(v != i);
                assert(s2[v] == s[v]);
                assert(false);
            }
        }
    }
}

/// Pushing a pool under a fresh address fills that address's slot and
/// no other.
proof fn lemma_pool_at_push(s: Seq<Pool>, p: Pool)
    requires
        spec_pools_wf(s),
        p.wf(),
        spec_pool_at(s, p.addr) is None,
    ensures
        spec_pools_wf(s.push(p)),
        spec_pool_at(s.push(p), p.addr) == Some(p),
        forall|a: u64| a != p.addr ==> #[trigger] spec_pool_at(s.push(p), a) == spec_pool_at(s, a),
{
    let s2 = s.push(p);
    assert(s2[s.len() as int] == p);
    assert forall|x: int, y: int| 0 <= x < y < s2.len() implies (#[trigger] s2[x]).addr != (
    #[trigger] s2[y]).addr by {
        if y < s.len() {
            assert(s2[x] == s[x] && s2[y] == s[y]);
        } else {
            assert(s2[x] == s[x] && s2[y] == p);
        }
    }
    assert forall|x: int| 0 <= x < s2.len() implies (#[trigger] s2[x]).wf() by {
        if x < s.len() {
            assert(s2[x] == s[x]);
        }
    }
    let w = choose|w: int| 0 <= w < s2.len() && (#[trigger] s2[w]).addr == p.addr;
    if w < s.len() {
        assert(s2[w] == s[w]);
        assert(false);
    }
    assert forall|a: u64| a != p.addr implies #[trigger] spec_pool_at(s2, a) == spec_pool_at(
        s,
        a,
    ) by {
        if exists|x: int| 0 <= x < s2.len() && (#[trigger] s2[x]).addr == a {
            let x = choose|x: int| 0 <= x < s2.len() && (#[trigger] s2[x]).addr == a;
            assert(x < s.len());
            assert(s2[x] == s[x]);
            let v = choose|v: int| 0 <= v < s.len() && (#[trigger] s[v]).addr == a;
            assert(s[v] == s[x]);
        } else {
            if exists|v: int| 0 <= v < s.len() && (#[trigger] s[v]).addr == a {
                let v = choose|v: int| 0 <= v < s.len() && (#[trigger] s[v]).addr == a;
                assert(s2[v] == s[v]);
                assert(false);
            }
        }
    }
}

/// Whether the pool-address list holds `x`.
pub(crate) fn pools_contain(v: &Vec<u64>, x: u64) -> (r: bool)
    ensures
        r == v@.contains(x),
{
    let n = v.len();
    let mut i: usize = 0;
    while i < n
        invariant
            n == v@.len(),
            i <= n,
            forall|j: int| 0 <= j < i ==> v@[j] != x,
        decreases n - i,
    {
        if v[i] == x {
            return true;
        }
        i += 1;
    }
    false
}

} // verus!
