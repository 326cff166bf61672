//! Plain-value models of the on-chain data the ledger reasons about.
//!
//! The ledger only ever compares transaction identifiers, block hashes
//! and pool addresses for equality, so each is carried as an integer
//! identifier; a UTXO keeps exactly what the validation logic reads:
//! its outpoint, its satoshi amount and its collateral-coin entry.

use vstd::prelude::*;

verus! {

/// Identifier of a Bitcoin transaction.
#[derive(Clone, Copy, Debug, PartialEq, Eq, Structural)]
pub struct Txid(pub u64);

impl Txid {
    /// The all-zero identifier, used by the synthetic initial state of
    /// a pool that has never seen a deposit.
    pub fn zero() -> (r: Txid)
        ensures
            r == (Txid(0)),
    {
        Txid(0)
    }
}

/// Identifier of a coin (a rune); Bitcoin itself is the zero
/// identifier.
#[derive(Clone, Copy, Debug, PartialEq, Eq, Structural)]
pub struct CoinId {
    pub block: u64,
    pub tx: u32,
}

impl CoinId {
    /// The identifier of the native settlement asset, Bitcoin.
    pub open spec fn spec_btc() -> CoinId {
        CoinId { block: 0, tx: 0 }
    }

    /// The identifier of the native settlement asset, Bitcoin.
    pub fn btc() -> (r: CoinId)
        ensures
            r == CoinId::spec_btc(),
    {
        CoinId { block: 0, tx: 0 }
    }

    /// The identifier of the rune etched in `block` at index `tx`.
    pub fn rune(block: u64, tx: u32) -> (r: CoinId)
        ensures
            r == (CoinId { block, tx }),
    {
        CoinId { block, tx }
    }
}

/// An amount of one coin.
#[derive(Clone, Copy, Debug, PartialEq, Eq, Structural)]
pub struct CoinBalance {
    pub id: CoinId,
    pub value: u128,
}

/// Reference to one transaction output: the transaction that created
/// it and the output index within that transaction.
#[derive(Clone, Copy, Debug, PartialEq, Eq, Structural)]
pub struct OutPoint {
    pub txid: Txid,
    pub vout: u32,
}

/// An unspent transaction output as the ledger sees it: where it sits,
/// how many satoshis it carries, and the collateral-coin entry riding
/// on it, if any.
#[derive(Clone, Copy, Debug, PartialEq, Eq, Structural)]
pub struct Utxo {
    pub txid: Txid,
    pub vout: u32,
    pub sats: u64,
    pub maybe_rune: Option<CoinBalance>,
}

impl Utxo {
    /// The outpoint this output sits at.
    pub open spec fn spec_outpoint(self) -> OutPoint {
        OutPoint { txid: self.txid, vout: self.vout }
    }

    /// The outpoint this output sits at.
    pub fn outpoint(&self) -> (r: OutPoint)
        ensures
            r == self.spec_outpoint(),
    {
        OutPoint { txid: self.txid, vout: self.vout }
    }

    /// The amount of coin `id` riding on this output.
    pub open spec fn spec_value_of(self, id: CoinId) -> u128 {
        match self.maybe_rune {
            Some(b) => if b.id == id {
                b.value
            } else {
                0
            },
            None => 0,
        }
    }

    /// The amount of coin `id` riding on this output.
    pub fn value_of(&self, id: &CoinId) -> (r: u128)
        ensures
            r == self.spec_value_of(*id),
    {
        match self.maybe_rune {
            Some(b) => if b.id == *id {
                b.value
            } else {
                0
            },
            None => 0,
        }
    }
}

/// One reported block, as the ledger retains it: height, hash (an
/// integer identifier; only equality is ever asked of it), timestamp,
/// and the transactions the block confirmed.
#[derive(Clone, Debug, PartialEq, Eq)]
pub struct NewBlockInfo {
    pub block_height: u32,
    pub block_hash: u64,
    pub block_timestamp: u64,
    pub confirmed_txids: Vec<Txid>,
}

/// One slot of the transaction lifecycle tracker: which pools the
/// transaction `txid` touched, recorded under its unconfirmed
/// (`confirmed == false`) or confirmed (`confirmed == true`)
/// projection.  Both slots of a transaction may coexist while it
/// moves from unconfirmed to finalized.
#[derive(Clone, Debug, PartialEq, Eq)]
pub struct TxRecord {
    pub txid: Txid,
    pub confirmed: bool,
    pub pools: Vec<u64>,
}

/// One coin put into a settlement transaction by a user.
#[derive(Clone, Copy, Debug, PartialEq, Eq, Structural)]
pub struct InputCoin {
    pub coin: CoinBalance,
}

/// One coin a settlement transaction pays out to a user.
#[derive(Clone, Copy, Debug, PartialEq, Eq, Structural)]
pub struct OutputCoin {
    pub coin: CoinBalance,
}

} // verus!
