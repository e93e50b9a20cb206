//! Per-account transaction summaries: what each transaction meant to each
//! account involved in it.
use vstd::prelude::*;
use crate::ledger::{ReceivedNote, SentNote, Transaction, Block, bytes_view, copy_bytes};
use crate::backfill::{has_sent_at, change_record};

verus! {

/// The sum of `f` over the received notes of `r`.
pub open spec fn sum_received(r: Seq<ReceivedNote>, f: spec_fn(ReceivedNote) -> int) -> int
    decreases r.len(),
{
    if r.len() == 0 {
        0
    } else {
        sum_received(r.drop_last(), f) + f(r.last())
    }
}

/// The sum of `f` over the sent records of `s`.
pub open spec fn sum_sent(s: Seq<SentNote>, f: spec_fn(SentNote) -> int) -> int
    decreases s.len(),
{
    if s.len() == 0 {
        0
    } else {
        sum_sent(s.drop_last(), f) + f(s.last())
    }
}

/// Whether note `n` of account `a` was received in transaction `t`.
pub open spec fn received_in(n: ReceivedNote, a: u64, t: u64) -> bool {
    n.account == a && n.tx == t
}

/// Whether note `n` of account `a` was spent by transaction `t`.
pub open spec fn spent_in(n: ReceivedNote, a: u64, t: u64) -> bool {
    n.account == a && n.spent == Some(t)
}

/// What note `n` adds to the net transfer of account `a` in transaction `t`:
/// its value where it was received there, less its value where it was spent there.
pub open spec fn net_contribution(n: ReceivedNote, a: u64, t: u64) -> int {
    (if received_in(n, a, t) { n.value as int } else { 0 }) - (if spent_in(n, a, t) { n.value as int } else { 0 })
}

/// The signed sum of the values of the notes of account `a` in transaction `t`.
pub open spec fn net_transfer_of(r: Seq<ReceivedNote>, a: u64, t: u64) -> int {
    sum_received(r, |n: ReceivedNote| net_contribution(n, a, t))
}

/// The number of change notes of account `a` received in transaction `t`.
pub open spec fn change_count_of(r: Seq<ReceivedNote>, a: u64, t: u64) -> int {
    sum_received(r, |n: ReceivedNote| if received_in(n, a, t) && n.is_change { 1int } else { 0int })
}

/// The number of notes other than change that account `a` received in transaction `t`.
pub open spec fn received_count_of(r: Seq<ReceivedNote>, a: u64, t: u64) -> int {
    sum_received(r, |n: ReceivedNote| if received_in(n, a, t) && !n.is_change { 1int } else { 0int })
}

/// The number of memos on the notes other than change that account `a`
/// received in transaction `t`.
pub open spec fn received_memo_count_of(r: Seq<ReceivedNote>, a: u64, t: u64) -> int {
    sum_received(
        r,
        |n: ReceivedNote| if received_in(n, a, t) && !n.is_change && n.memo.is_some() { 1int } else { 0int },
    )
}

/// Whether a change note stands on output `output_index` of transaction `tx`.
pub open spec fn change_captured(r: Seq<ReceivedNote>, tx: u64, output_index: u64) -> bool {
    exists|i: int| 0 <= i < r.len() && (#[trigger] r[i]).tx == tx && r[i].output_index == output_index && r[i].is_change
}

/// Whether sent record `n` counts as sent by account `a` in transaction `t`:
/// it is theirs, and its output is not change already held by a received note.
pub open spec fn counted_sent(r: Seq<ReceivedNote>, n: SentNote, a: u64, t: u64) -> bool {
    n.from_account == a && n.tx == t && !change_captured(r, n.tx, n.output_index)
}

/// The number of sent records that count as sent by account `a` in transaction `t`.
pub open spec fn sent_count_of(r: Seq<ReceivedNote>, s: Seq<SentNote>, a: u64, t: u64) -> int {
    sum_sent(s, |n: SentNote| if counted_sent(r, n, a, t) { 1int } else { 0int })
}

/// The number of memos on the sent records that count as sent by account `a`
/// in transaction `t`.
pub open spec fn sent_memo_count_of(r: Seq<ReceivedNote>, s: Seq<SentNote>, a: u64, t: u64) -> int {
    sum_sent(s, |n: SentNote| if counted_sent(r, n, a, t) && n.memo.is_some() { 1int } else { 0int })
}

/// The counts over the received notes of one account in one transaction.
pub struct ReceivedTotals {
    pub net_transfer: i128,
    pub change_count: usize,
    pub received_count: usize,
    pub memo_count: usize,
}

/// The counts over the sent records of one account in one transaction.
pub struct SentTotals {
    pub sent_count: usize,
    pub memo_count: usize,
}

fn change_at(r: &Vec<ReceivedNote>, tx: u64, output_index: u64) -> (b: bool)
    ensures
        b == change_captured(r@, tx, output_index),
{
    let mut i: usize = 0;
    while i < r.len()
        invariant
            i <= r.len(),
            forall|k: int| 0 <= k < i ==> !((#[trigger] r@[k]).tx == tx && r@[k].output_index == output_index && r@[k].is_change),
        decreases r.len() - i,
    {
        if r[i].tx == tx && r[i].output_index == output_index && r[i].is_change {
            return true;
        }
        i = i + 1;
    }
    false
}

/// Totals the received notes of account `a` in transaction `t`.
pub fn received_totals(r: &Vec<ReceivedNote>, a: u64, t: u64) -> (out: ReceivedTotals)
    requires
        r@.len() < 0x8000_0000_0000_0000,
    ensures
        out.net_transfer as int == net_transfer_of(r@, a, t),
        out.change_count as int == change_count_of(r@, a, t),
        out.received_count as int == received_count_of(r@, a, t),
        out.memo_count as int == received_memo_count_of(r@, a, t),
        out.memo_count <= r@.len(),
{
    let mut net: i128 = 0;
    let mut change: usize = 0;
    let mut received: usize = 0;
    let mut memos: usize = 0;
    let mut i: usize = 0;
    while i < r.len()
        invariant
            i <= r.len(),
            r@.len() < 0x8000_0000_0000_0000,
            -(i as int) * 0x1_0000_0000_0000_0000 <= net <= (i as int) * 0x1_0000_0000_0000_0000,
            change <= i,
            received <= i,
            memos <= i,
            net as int == net_transfer_of(r@.subrange(0, i as int), a, t),
            change as int == change_count_of(r@.subrange(0, i as int), a, t),
            received as int == received_count_of(r@.subrange(0, i as int), a, t),
            memos as int == received_memo_count_of(r@.subrange(0, i as int), a, t),
        decreases r.len() - i,
    {
        let n = &r[i];
        assert(r@.subrange(0, i as int + 1).drop_last() =~= r@.subrange(0, i as int));
        if n.account == a && n.tx == t {
            net = net + n.value as i128;
            if n.is_change {
                change = change + 1;
            } else {
                received = received + 1;
                if n.memo.is_some() {
                    memos = memos + 1;
                }
            }
        }
        if n.account == a && n.spent == Some(t) {
            net = net - n.value as i128;
        }
        i = i + 1;
    }
    assert(r@.subrange(0, r@.len() as int) =~= r@);
    ReceivedTotals { net_transfer: net, change_count: change, received_count: received, memo_count: memos }
}

/// Totals the sent records of account `a` in transaction `t`, leaving out
/// those whose output is change held by a received note of `r`.
pub fn sent_totals(r: &Vec<ReceivedNote>, s: &Vec<SentNote>, a: u64, t: u64) -> (out: SentTotals)
    ensures
        out.sent_count as int == sent_count_of(r@, s@, a, t),
        out.memo_count as int == sent_memo_count_of(r@, s@, a, t),
        out.memo_count <= s@.len(),
{
    let mut sent: usize = 0;
    let mut memos: usize = 0;
    let mut j: usize = 0;
    while j < s.len()
        invariant
            j <= s.len(),
            sent <= j,
            memos <= j,
            sent as int == sent_count_of(r@, s@.subrange(0, j as int), a, t),
            memos as int == sent_memo_count_of(r@, s@.subrange(0, j as int), a, t),
        decreases s.len() - j,
    {
        let n = &s[j];
        assert(s@.subrange(0, j as int + 1).drop_last() =~= s@.subrange(0, j as int));
        if n.from_account == a && n.tx == t {
            let captured = change_at(r, n.tx, n.output_index);
            if !captured {
                sent = sent + 1;
                if n.memo.is_some() {
                    memos = memos + 1;
                }
            }
        }
        j = j + 1;
    }
    assert(s@.subrange(0, s@.len() as int) =~= s@);
    SentTotals { sent_count: sent, memo_count: memos }
}

/// The first transaction at or after position `k` of `txs` with identifier `t`.
pub open spec fn first_tx_from(txs: Seq<Transaction>, k: int, t: u64) -> Option<int>
    decreases txs.len() - k,
{
    if k < 0 || k >= txs.len() {
        None
    } else if txs[k].id_tx == t {
        Some(k)
    } else {
        first_tx_from(txs, k + 1, t)
    }
}

/// The first block at or after position `k` of `blocks` at height `h`.
pub open spec fn first_block_from(blocks: Seq<Block>, k: int, h: u64) -> Option<int>
    decreases blocks.len() - k,
{
    if k < 0 || k >= blocks.len() {
        None
    } else if blocks[k].height == h {
        Some(k)
    } else {
        first_block_from(blocks, k + 1, h)
    }
}

/// The greatest height of the known blocks, if any block is known.
pub open spec fn max_height(blocks: Seq<Block>) -> Option<u64>
    decreases blocks.len(),
{
    if blocks.len() == 0 {
        None
    } else {
        let h = blocks.last().height;
        match max_height(blocks.drop_last()) {
            None => Some(h),
            Some(m) => Some(if h > m { h } else { m }),
        }
    }
}

/// Whether a transaction was never mined and can no longer be: its expiry
/// height is at most the greatest known block height.
pub open spec fn expired_unmined_spec(tx: Transaction, max: Option<u64>) -> bool {
    tx.block.is_none() && match (tx.expiry_height, max) {
        (Some(e), Some(m)) => e <= m,
        _ => false,
    }
}

/// The time of the block that mined `tx`, when that block is known.
pub open spec fn block_time_spec(tx: Transaction, blocks: Seq<Block>) -> Option<u64> {
    match tx.block {
        Some(h) => match first_block_from(blocks, 0, h) {
            Some(k) => Some(blocks[k].time),
            None => None,
        },
        None => None,
    }
}

/// Whether account `a` takes part in transaction `t`: a note of theirs was
/// received or spent there, or they sent an output of it.
pub open spec fn involved(r: Seq<ReceivedNote>, s: Seq<SentNote>, a: u64, t: u64) -> bool {
    (exists|i: int| 0 <= i < r.len() && (#[trigger] r[i]).account == a && (r[i].tx == t || r[i].spent == Some(t)))
    || (exists|j: int| 0 <= j < s.len() && (#[trigger] s[j]).from_account == a && s[j].tx == t)
}

/// What one account's part in one transaction amounts to.
pub struct TxSummary {
    pub account_id: u64,
    pub id_tx: u64,
    pub mined_height: Option<u64>,
    pub tx_index: Option<u64>,
    pub expiry_height: Option<u64>,
    pub raw: Option<Vec<u8>>,
    /// Value received and kept, less value spent and not returned as change.
    pub net_transfer: i128,
    pub fee_paid: Option<u64>,
    pub has_change: bool,
    pub sent_note_count: u64,
    pub received_note_count: u64,
    pub memo_count: u64,
    pub block_time: Option<u64>,
    pub expired_unmined: bool,
}

/// What a summary says, with its numbers as integers.
pub ghost struct SummaryModel {
    pub account_id: u64,
    pub id_tx: u64,
    pub mined_height: Option<u64>,
    pub tx_index: Option<u64>,
    pub expiry_height: Option<u64>,
    pub raw: Option<Seq<u8>>,
    pub net_transfer: int,
    pub fee_paid: Option<u64>,
    pub has_change: bool,
    pub sent_note_count: int,
    pub received_note_count: int,
    pub memo_count: int,
    pub block_time: Option<u64>,
    pub expired_unmined: bool,
}

impl View for TxSummary {
    type V = SummaryModel;

    open spec fn view(&self) -> SummaryModel {
        SummaryModel {
            account_id: self.account_id,
            id_tx: self.id_tx,
            mined_height: self.mined_height,
            tx_index: self.tx_index,
            expiry_height: self.expiry_height,
            raw: bytes_view(self.raw),
            net_transfer: self.net_transfer as int,
            fee_paid: self.fee_paid,
            has_change: self.has_change,
            sent_note_count: self.sent_note_count as int,
            received_note_count: self.received_note_count as int,
            memo_count: self.memo_count as int,
            block_time: self.block_time,
            expired_unmined: self.expired_unmined,
        }
    }
}

/// The summary of account `a` in transaction `tx`.
pub open spec fn summary_spec(
    r: Seq<ReceivedNote>,
    s: Seq<SentNote>,
    blocks: Seq<Block>,
    a: u64,
    tx: Transaction,
) -> SummaryModel {
    let t = tx.id_tx;
    SummaryModel {
        account_id: a,
        id_tx: t,
        mined_height: tx.block,
        tx_index: tx.tx_index,
        expiry_height: tx.expiry_height,
        raw: bytes_view(tx.raw),
        net_transfer: net_transfer_of(r, a, t),
        fee_paid: tx.fee,
        has_change: change_count_of(r, a, t) > 0,
        sent_note_count: sent_count_of(r, s, a, t),
        received_note_count: received_count_of(r, a, t),
        memo_count: received_memo_count_of(r, a, t) + sent_memo_count_of(r, s, a, t),
        block_time: block_time_spec(tx, blocks),
        expired_unmined: expired_unmined_spec(tx, max_height(blocks)),
    }
}

fn find_tx(txs: &Vec<Transaction>, t: u64) -> (o: Option<usize>)
    ensures
        o.is_some() == first_tx_from(txs@, 0, t).is_some(),
        o.is_some() ==> o.unwrap() as int == first_tx_from(txs@, 0, t).unwrap() && o.unwrap() < txs.len(),
        o.is_some() ==> txs@[o.unwrap() as int].id_tx == t,
{
    let mut k: usize = 0;
    while k < txs.len()
        invariant
            k <= txs.len(),
            first_tx_from(txs@, 0, t) == first_tx_from(txs@, k as int, t),
        decreases txs.len() - k,
    {
        if txs[k].id_tx == t {
            return Some(k);
        }
        k = k + 1;
    }
    None
}

fn block_time(tx: &Transaction, blocks: &Vec<Block>) -> (o: Option<u64>)
    ensures
        o == block_time_spec(*tx, blocks@),
{
    match tx.block {
        None => None,
        Some(h) => {
            let mut k: usize = 0;
            while k < blocks.len()
                invariant
                    k <= blocks.len(),
                    tx.block == Some(h),
                    first_block_from(blocks@, 0, h) == first_block_from(blocks@, k as int, h),
                decreases blocks.len() - k,
            {
                if blocks[k].height == h {
                    assert(first_block_from(blocks@, k as int, h) == Some(k as int));
                    return Some(blocks[k].time);
                }
                k = k + 1;
            }
            None
        },
    }
}

/// The greatest height among `blocks`, if there is any block.
pub fn max_block_height(blocks: &Vec<Block>) -> (o: Option<u64>)
    ensures
        o == max_height(blocks@),
{
    let mut best: Option<u64> = None;
    let mut k: usize = 0;
    while k < blocks.len()
        invariant
            k <= blocks.len(),
            best == max_height(blocks@.subrange(0, k as int)),
        decreases blocks.len() - k,
    {
        assert(blocks@.subrange(0, k as int + 1).drop_last() =~= blocks@.subrange(0, k as int));
        let h = blocks[k].height;
        best = match best {
            None => Some(h),
            Some(m) => Some(if h > m { h } else { m }),
        };
        k = k + 1;
    }
    assert(blocks@.subrange(0, blocks@.len() as int) =~= blocks@);
    best
}

/// The summary of account `a` in transaction `tx`, given the greatest known
/// block height `max`.
fn summarize(
    r: &Vec<ReceivedNote>,
    s: &Vec<SentNote>,
    blocks: &Vec<Block>,
    max: Option<u64>,
    a: u64,
    tx: &Transaction,
) -> (out: TxSummary)
    requires
        r@.len() < 0x8000_0000_0000_0000,
        s@.len() < 0x8000_0000_0000_0000,
        max == max_height(blocks@),
    ensures
        out@ == summary_spec(r@, s@, blocks@, a, *tx),
{
    let t = tx.id_tx;
    let rt = received_totals(r, a, t);
    let st = sent_totals(r, s, a, t);
    let expired = tx.block.is_none() && match (tx.expiry_height, max) {
        (Some(e), Some(m)) => e <= m,
        _ => false,
    };
    TxSummary {
        account_id: a,
        id_tx: t,
        mined_height: tx.block,
        tx_index: tx.tx_index,
        expiry_height: tx.expiry_height,
        raw: copy_bytes(&tx.raw),
        net_transfer: rt.net_transfer,
        fee_paid: tx.fee,
        has_change: rt.change_count > 0,
        sent_note_count: st.sent_count as u64,
        received_note_count: rt.received_count as u64,
        memo_count: rt.memo_count as u64 + st.memo_count as u64,
        block_time: block_time(tx, blocks),
        expired_unmined: expired,
    }
}

/// Whether transaction `t` is among `txs`.
pub open spec fn known_tx(txs: Seq<Transaction>, t: u64) -> bool {
    first_tx_from(txs, 0, t).is_some()
}

/// Whether the pairs of `keys` are pairwise distinct.
pub open spec fn distinct_pairs(keys: Seq<(u64, u64)>) -> bool {
    forall|k1: int, k2: int| 0 <= k1 < k2 < keys.len() ==> keys[k1] != keys[k2]
}

fn add_pair(keys: &mut Vec<(u64, u64)>, a: u64, t: u64)
    ensures
        final(keys)@ == (if old(keys)@.contains((a, t)) { old(keys)@ } else { old(keys)@.push((a, t)) }),
        final(keys)@.contains((a, t)),
        forall|p: (u64, u64)| old(keys)@.contains(p) ==> final(keys)@.contains(p),
{
    let mut k: usize = 0;
    while k < keys.len()
        invariant
            k <= keys.len(),
            forall|j: int| 0 <= j < k ==> keys@[j] != (a, t),
        decreases keys.len() - k,
    {
        if keys[k].0 == a && keys[k].1 == t {
            assert(keys@[k as int] == (a, t));
            return;
        }
        k = k + 1;
    }
    let ghost prev = keys@;
    keys.push((a, t));
    assert(keys@[prev.len() as int] == (a, t));
    assert forall|p: (u64, u64)| prev.contains(p) implies keys@.contains(p) by {
        let j = choose|j: int| 0 <= j < prev.len() && prev[j] == p;
        assert(keys@[j] == p);
    }
}

/// The (account, transaction) pairs of the ledger: each pair in which the
/// account takes part in a known transaction, once.
pub fn involved_pairs(r: &Vec<ReceivedNote>, s: &Vec<SentNote>, txs: &Vec<Transaction>) -> (keys: Vec<(u64, u64)>)
    ensures
        distinct_pairs(keys@),
        forall|k: int| 0 <= k < keys@.len() ==> involved(r@, s@, (#[trigger] keys@[k]).0, keys@[k].1) && known_tx(txs@, keys@[k].1),
        forall|a: u64, t: u64| involved(r@, s@, a, t) && known_tx(txs@, t) ==> keys@.contains((a, t)),
{
    let mut keys: Vec<(u64, u64)> = Vec::new();
    let mut i: usize = 0;
    while i < r.len()
        invariant
            i <= r.len(),
            distinct_pairs(keys@),
            forall|k: int| 0 <= k < keys@.len() ==> involved(r@, s@, (#[trigger] keys@[k]).0, keys@[k].1) && known_tx(txs@, keys@[k].1),
            forall|x: int| 0 <= x < i && known_tx(txs@, (#[trigger] r@[x]).tx) ==> keys@.contains((r@[x].account, r@[x].tx)),
            forall|x: int| 0 <= x < i && (#[trigger] r@[x]).spent.is_some() && known_tx(txs@, r@[x].spent.unwrap())
                ==> keys@.contains((r@[x].account, r@[x].spent.unwrap())),
        decreases r.len() - i,
    {
        let n = &r[i];
        let ghost prev = keys@;
        if find_tx(txs, n.tx).is_some() {
            assert(r@[i as int].account == n.account && r@[i as int].tx == n.tx);
            add_pair(&mut keys, n.account, n.tx);
        }
        let ghost mid = keys@;
        assert(forall|p: (u64, u64)| prev.contains(p) ==> mid.contains(p));
        match n.spent {
            Some(sp) => {
                if find_tx(txs, sp).is_some() {
                    assert(r@[i as int].account == n.account && r@[i as int].spent == Some(sp));
                    add_pair(&mut keys, n.account, sp);
                }
            },
            None => {},
        }
        assert(forall|p: (u64, u64)| mid.contains(p) ==> keys@.contains(p));
        i = i + 1;
    }
    let mut j: usize = 0;
    while j < s.len()
        invariant
            j <= s.len(),
            distinct_pairs(keys@),
            forall|k: int| 0 <= k < keys@.len() ==> involved(r@, s@, (#[trigger] keys@[k]).0, keys@[k].1) && known_tx(txs@, keys@[k].1),
            forall|x: int| 0 <= x < r@.len() && known_tx(txs@, (#[trigger] r@[x]).tx) ==> keys@.contains((r@[x].account, r@[x].tx)),
            forall|x: int| 0 <= x < r@.len() && (#[trigger] r@[x]).spent.is_some() && known_tx(txs@, r@[x].spent.unwrap())
                ==> keys@.contains((r@[x].account, r@[x].spent.unwrap())),
            forall|x: int| 0 <= x < j && known_tx(txs@, (#[trigger] s@[x]).tx) ==> keys@.contains((s@[x].from_account, s@[x].tx)),
        decreases s.len() - j,
    {
        let n = &s[j];
        let ghost prev = keys@;
        if find_tx(txs, n.tx).is_some() {
            assert(s@[j as int].from_account == n.from_account && s@[j as int].tx == n.tx);
            add_pair(&mut keys, n.from_account, n.tx);
        }
        assert(forall|p: (u64, u64)| prev.contains(p) ==> keys@.contains(p));
        j = j + 1;
    }
    assert forall|a: u64, t: u64| involved(r@, s@, a, t) && known_tx(txs@, t) implies keys@.contains((a, t)) by {
        if exists|x: int| 0 <= x < r@.len() && (#[trigger] r@[x]).account == a && (r@[x].tx == t || r@[x].spent == Some(t)) {
            let x = choose|x: int| 0 <= x < r@.len() && (#[trigger] r@[x]).account == a && (r@[x].tx == t || r@[x].spent == Some(t));
            if r@[x].tx != t {
                assert(r@[x].spent.is_some());
            }
        } else {
            let x = choose|x: int| 0 <= x < s@.len() && (#[trigger] s@[x]).from_account == a && s@[x].tx == t;
        }
    }
    keys
}

/// The summary of account `a` in transaction `t`, a known transaction.
pub open spec fn summary_of(
    r: Seq<ReceivedNote>,
    s: Seq<SentNote>,
    txs: Seq<Transaction>,
    blocks: Seq<Block>,
    a: u64,
    t: u64,
) -> SummaryModel {
    summary_spec(r, s, blocks, a, txs[first_tx_from(txs, 0, t).unwrap()])
}

/// One summary for each account in each known transaction that it takes part
/// in, and no other. (No vector of notes or records can reach 2^63 entries in
/// memory, which keeps the sums in range.)
pub fn tx_summaries(
    r: &Vec<ReceivedNote>,
    s: &Vec<SentNote>,
    txs: &Vec<Transaction>,
    blocks: &Vec<Block>,
) -> (out: Vec<TxSummary>)
    requires
        r@.len() < 0x8000_0000_0000_0000,
        s@.len() < 0x8000_0000_0000_0000,
    ensures
        forall|k1: int, k2: int| 0 <= k1 < k2 < out@.len()
            ==> (out@[k1].account_id, out@[k1].id_tx) != (out@[k2].account_id, out@[k2].id_tx),
        forall|k: int| 0 <= k < out@.len() ==> {
            &&& involved(r@, s@, (#[trigger] out@[k]).account_id, out@[k].id_tx)
            &&& known_tx(txs@, out@[k].id_tx)
            &&& out@[k]@ == summary_of(r@, s@, txs@, blocks@, out@[k].account_id, out@[k].id_tx)
        },
        forall|a: u64, t: u64| involved(r@, s@, a, t) && known_tx(txs@, t)
            ==> exists|k: int| 0 <= k < out@.len() && (#[trigger] out@[k]).account_id == a && out@[k].id_tx == t,
{
    let keys = involved_pairs(r, s, txs);
    let max = max_block_height(blocks);
    let mut out: Vec<TxSummary> = Vec::new();
    let mut k: usize = 0;
    while k < keys.len()
        invariant
            k <= keys.len(),
            r@.len() < 0x8000_0000_0000_0000,
            s@.len() < 0x8000_0000_0000_0000,
            max == max_height(blocks@),
            distinct_pairs(keys@),
            forall|x: int| 0 <= x < keys@.len() ==> involved(r@, s@, (#[trigger] keys@[x]).0, keys@[x].1) && known_tx(txs@, keys@[x].1),
            out@.len() == k,
            forall|x: int| 0 <= x < k ==> (#[trigger] out@[x]).account_id == keys@[x].0 && out@[x].id_tx == keys@[x].1,
            forall|x: int| 0 <= x < k ==> (#[trigger] out@[x])@ == summary_of(r@, s@, txs@, blocks@, keys@[x].0, keys@[x].1),
        decreases keys.len() - k,
    {
        let (a, t) = keys[k];
        assert(known_tx(txs@, keys@[k as int].1));
        let pos = find_tx(txs, t);
        let p = pos.unwrap();
        let row = summarize(r, s, blocks, max, a, &txs[p]);
        out.push(row);
        k = k + 1;
    }
    assert forall|a: u64, t: u64| involved(r@, s@, a, t) && known_tx(txs@, t)
        implies exists|k: int| 0 <= k < out@.len() && (#[trigger] out@[k]).account_id == a && out@[k].id_tx == t by {
        let x = choose|x: int| 0 <= x < keys@.len() && keys@[x] == (a, t);
        assert(out@[x].account_id == a && out@[x].id_tx == t);
    }
    out
}

proof fn lemma_sent_counts_stable(r: Seq<ReceivedNote>, r2: Seq<ReceivedNote>, s: Seq<SentNote>, b: u64, t: u64)
    requires
        forall|j: int| 0 <= j < s.len() ==> counted_sent(r, #[trigger] s[j], b, t) == counted_sent(r2, s[j], b, t),
    ensures
        sent_count_of(r2, s, b, t) == sent_count_of(r, s, b, t),
        sent_memo_count_of(r2, s, b, t) == sent_memo_count_of(r, s, b, t),
    decreases s.len(),
{
    if s.len() > 0 {
        let d = s.drop_last();
        assert forall|j: int| 0 <= j < d.len() implies counted_sent(r, #[trigger] d[j], b, t) == counted_sent(r2, d[j], b, t) by {
            assert(d[j] == s[j]);
        }
        lemma_sent_counts_stable(r, r2, d, b, t);
        assert(counted_sent(r, s[s.len() - 1], b, t) == counted_sent(r2, s[s.len() - 1], b, t));
    }
}

proof fn lemma_sent_counts_push(r: Seq<ReceivedNote>, s: Seq<SentNote>, x: SentNote, b: u64, t: u64)
    ensures
        sent_count_of(r, s.push(x), b, t) == sent_count_of(r, s, b, t) + (if counted_sent(r, x, b, t) { 1int } else { 0int }),
        sent_memo_count_of(r, s.push(x), b, t) == sent_memo_count_of(r, s, b, t)
            + (if counted_sent(r, x, b, t) && x.memo.is_some() { 1int } else { 0int }),
{
    assert(s.push(x).drop_last() =~= s);
}

proof fn lemma_received_counts_push(r: Seq<ReceivedNote>, n: ReceivedNote, b: u64, t: u64)
    ensures
        net_transfer_of(r.push(n), b, t) == net_transfer_of(r, b, t) + net_contribution(n, b, t),
        change_count_of(r.push(n), b, t) == change_count_of(r, b, t) + (if received_in(n, b, t) && n.is_change { 1int } else { 0int }),
        received_count_of(r.push(n), b, t) == received_count_of(r, b, t) + (if received_in(n, b, t) && !n.is_change { 1int } else { 0int }),
        received_memo_count_of(r.push(n), b, t) == received_memo_count_of(r, b, t)
            + (if received_in(n, b, t) && !n.is_change && n.memo.is_some() { 1int } else { 0int }),
{
    assert(r.push(n).drop_last() =~= r);
}

proof fn lemma_change_count_nonneg(r: Seq<ReceivedNote>, b: u64, t: u64)
    ensures
        change_count_of(r, b, t) >= 0,
    decreases r.len(),
{
    if r.len() > 0 {
        lemma_change_count_nonneg(r.drop_last(), b, t);
    }
}

proof fn lemma_change_captured_push(r: Seq<ReceivedNote>, n: ReceivedNote, tx: u64, output_index: u64)
    ensures
        change_captured(r.push(n), tx, output_index)
            == (change_captured(r, tx, output_index) || (n.tx == tx && n.output_index == output_index && n.is_change)),
{
    let r2 = r.push(n);
    if change_captured(r, tx, output_index) {
        let i = choose|i: int| 0 <= i < r.len() && (#[trigger] r[i]).tx == tx && r[i].output_index == output_index && r[i].is_change;
        assert(r2[i] == r[i]);
    }
    if n.tx == tx && n.output_index == output_index && n.is_change {
        assert(r2[r.len() as int] == n);
    }
    if change_captured(r2, tx, output_index) {
        let i = choose|i: int| 0 <= i < r2.len() && (#[trigger] r2[i]).tx == tx && r2[i].output_index == output_index && r2[i].is_change;
        if i < r.len() {
            assert(r2[i] == r[i]);
        }
    }
}

/// A change output is neither dropped nor counted twice: adding a change note
/// of account `a` in its transaction, with or without the sent record that the
/// backfill gives it, adds its value to `a`'s net transfer, marks that `a` has
/// change, and leaves every account's sent, received and memo counts as they were.
pub proof fn lemma_change_output_accounting(r: Seq<ReceivedNote>, s: Seq<SentNote>, n: ReceivedNote, b: u64)
    requires
        n.is_change,
        n.spent != Some(n.tx),
        !has_sent_at(s, n.tx, n.output_index),
    ensures
        net_transfer_of(r.push(n), n.account, n.tx) == net_transfer_of(r, n.account, n.tx) + n.value,
        change_count_of(r.push(n), n.account, n.tx) > 0,
        received_count_of(r.push(n), b, n.tx) == received_count_of(r, b, n.tx),
        received_memo_count_of(r.push(n), b, n.tx) == received_memo_count_of(r, b, n.tx),
        sent_count_of(r.push(n), s, b, n.tx) == sent_count_of(r, s, b, n.tx),
        sent_memo_count_of(r.push(n), s, b, n.tx) == sent_memo_count_of(r, s, b, n.tx),
        sent_count_of(r.push(n), s.push(change_record(n)), b, n.tx) == sent_count_of(r, s, b, n.tx),
        sent_memo_count_of(r.push(n), s.push(change_record(n)), b, n.tx) == sent_memo_count_of(r, s, b, n.tx),
{
    let t = n.tx;
    let r2 = r.push(n);
    lemma_received_counts_push(r, n, n.account, t);
    lemma_received_counts_push(r, n, b, t);
    lemma_change_count_nonneg(r, n.account, t);
    assert forall|j: int| 0 <= j < s.len() implies counted_sent(r, #[trigger] s[j], b, t) == counted_sent(r2, s[j], b, t) by {
        lemma_change_captured_push(r, n, s[j].tx, s[j].output_index);
        if s[j].tx == n.tx && s[j].output_index == n.output_index {
            assert(has_sent_at(s, n.tx, n.output_index));
        }
    }
    lemma_sent_counts_stable(r, r2, s, b, t);
    lemma_sent_counts_push(r2, s, change_record(n), b, t);
    lemma_change_captured_push(r, n, n.tx, n.output_index);
}

/// An output that account `a` sends to another account `b`, which `b`
/// receives as a note other than change, counts once as sent by `a` and once
/// as received by `b`, and as nothing else.
pub proof fn lemma_transfer_output_accounting(r: Seq<ReceivedNote>, s: Seq<SentNote>, n: ReceivedNote, x: SentNote)
    requires
        !n.is_change,
        n.spent != Some(n.tx),
        x.tx == n.tx,
        x.output_index == n.output_index,
        x.from_account != n.account,
        !change_captured(r, n.tx, n.output_index),
    ensures
        net_transfer_of(r.push(n), n.account, n.tx) == net_transfer_of(r, n.account, n.tx) + n.value,
        net_transfer_of(r.push(n), x.from_account, n.tx) == net_transfer_of(r, x.from_account, n.tx),
        change_count_of(r.push(n), n.account, n.tx) == change_count_of(r, n.account, n.tx),
        received_count_of(r.push(n), n.account, n.tx) == received_count_of(r, n.account, n.tx) + 1,
        received_count_of(r.push(n), x.from_account, n.tx) == received_count_of(r, x.from_account, n.tx),
        sent_count_of(r.push(n), s.push(x), n.account, n.tx) == sent_count_of(r, s, n.account, n.tx),
        sent_count_of(r.push(n), s.push(x), x.from_account, n.tx) == sent_count_of(r, s, x.from_account, n.tx) + 1,
{
    let t = n.tx;
    let r2 = r.push(n);
    lemma_received_counts_push(r, n, n.account, t);
    lemma_received_counts_push(r, n, x.from_account, t);
    assert forall|j: int| 0 <= j < s.len() implies counted_sent(r, #[trigger] s[j], n.account, t) == counted_sent(r2, s[j], n.account, t) by {
        lemma_change_captured_push(r, n, s[j].tx, s[j].output_index);
    }
    assert forall|j: int| 0 <= j < s.len() implies counted_sent(r, #[trigger] s[j], x.from_account, t) == counted_sent(r2, s[j], x.from_account, t) by {
        lemma_change_captured_push(r, n, s[j].tx, s[j].output_index);
    }
    lemma_sent_counts_stable(r, r2, s, n.account, t);
    lemma_sent_counts_stable(r, r2, s, x.from_account, t);
    lemma_sent_counts_push(r2, s, x, n.account, t);
    lemma_sent_counts_push(r2, s, x, x.from_account, t);
    lemma_change_captured_push(r, n, x.tx, x.output_index);
}

} // verus!
