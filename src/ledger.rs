//! The ledger records read by the reconciliation: received notes, sent notes,
//! transactions and blocks.
use vstd::prelude::*;

verus! {

/// The code of the Sapling value pool, the only pool that received notes are
/// recorded for.
pub const SAPLING_POOL_CODE: u64 = 2;

/// A note detected as received by an account of the wallet.
pub struct ReceivedNote {
    /// The transaction that created the note.
    pub tx: u64,
    /// The index of the note among the outputs of that transaction.
    pub output_index: u64,
    /// The account that owns the note.
    pub account: u64,
    /// The value of the note, in atomic units.
    pub value: u64,
    /// Whether the note returns change to the account that funded the transaction.
    pub is_change: bool,
    /// The memo attached to the note, if any.
    pub memo: Option<Vec<u8>>,
    /// The transaction that spent the note, once it is spent.
    pub spent: Option<u64>,
}

/// The sender's accounting record of one output of a transaction.
pub struct SentNote {
    /// The transaction that created the output.
    pub tx: u64,
    /// The value pool of the output.
    pub output_pool: u64,
    /// The index of the output in that transaction.
    pub output_index: u64,
    /// The account that funded the output.
    pub from_account: u64,
    /// The receiving account, when the recipient is controlled by the wallet.
    pub to_account: Option<u64>,
    /// The receiving address, when the recipient is external.
    pub to_address: Option<String>,
    /// The value of the output, in atomic units.
    pub value: u64,
    /// The memo attached to the output, if any.
    pub memo: Option<Vec<u8>>,
}

/// A transaction known to the wallet.
pub struct Transaction {
    /// The wallet's identifier of the transaction.
    pub id_tx: u64,
    /// The height of the block that mined it, if it is mined.
    pub block: Option<u64>,
    /// Its position within that block.
    pub tx_index: Option<u64>,
    /// The height after which it can no longer be mined.
    pub expiry_height: Option<u64>,
    /// Its serialized form, when known.
    pub raw: Option<Vec<u8>>,
    /// The fee it paid, when known.
    pub fee: Option<u64>,
}

/// A block of the chain, as far as the reconciliation reads it.
pub struct Block {
    /// The height of the block.
    pub height: u64,
    /// The time at which the block was mined.
    pub time: u64,
}

/// The bytes of an optional byte string (a memo, a serialized transaction).
pub open spec fn bytes_view(m: Option<Vec<u8>>) -> Option<Seq<u8>> {
    match m {
        Some(v) => Some(v@),
        None => None,
    }
}

/// The characters of an address, if there is one.
pub open spec fn address_view(a: Option<String>) -> Option<Seq<char>> {
    match a {
        Some(s) => Some(s@),
        None => None,
    }
}

/// Copies an optional byte string, byte by byte.
pub fn copy_bytes(m: &Option<Vec<u8>>) -> (r: Option<Vec<u8>>)
    ensures
        bytes_view(r) == bytes_view(*m),
{
    match m {
        None => None,
        Some(v) => {
            let mut out: Vec<u8> = Vec::new();
            let mut i: usize = 0;
            while i < v.len()
                invariant
                    i <= v.len(),
                    out@ =~= v@.subrange(0, i as int),
                decreases v.len() - i,
            {
                out.push(v[i]);
                i = i + 1;
            }
            Some(out)
        },
    }
}

/// Copies an address.
pub fn copy_address(a: &Option<String>) -> (r: Option<String>)
    ensures
        address_view(r) == address_view(*a),
{
    match a {
        None => None,
        Some(s) => Some(s.clone()),
    }
}

} // verus!
