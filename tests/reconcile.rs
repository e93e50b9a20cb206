use wallet_migrations::backfill::{apply_change_backfill, change_backfill};
use wallet_migrations::events::{tx_events, TxEvent};
use wallet_migrations::ledger::{Block, ReceivedNote, SentNote, Transaction};
use wallet_migrations::summary::{max_block_height, tx_summaries, TxSummary};

fn received(tx: u64, output_index: u64, account: u64, value: u64, is_change: bool, spent: Option<u64>) -> ReceivedNote {
    ReceivedNote { tx, output_index, account, value, is_change, memo: None, spent }
}

fn sent(
    tx: u64,
    output_index: u64,
    from_account: u64,
    to_account: Option<u64>,
    to_address: Option<&str>,
    value: u64,
    memo: Option<Vec<u8>>,
) -> SentNote {
    SentNote {
        tx,
        output_pool: 2,
        output_index,
        from_account,
        to_account,
        to_address: to_address.map(|a| a.to_string()),
        value,
        memo,
    }
}

fn mined(id_tx: u64, block: u64) -> Transaction {
    Transaction { id_tx, block: Some(block), tx_index: None, expiry_height: None, raw: None, fee: None }
}

fn block(height: u64) -> Block {
    Block { height, time: height }
}

/// The ledger of three transactions: two notes received, a send with change
/// recorded only as a received note, and a split between two accounts.
fn ledger() -> (Vec<ReceivedNote>, Vec<SentNote>, Vec<Transaction>, Vec<Block>) {
    let received = vec![
        received(0, 0, 0, 2, false, Some(1)),
        received(0, 3, 0, 5, false, Some(1)),
        received(1, 2, 0, 2, true, Some(2)),
        received(2, 0, 0, 1, true, None),
        received(2, 1, 1, 1, false, None),
    ];
    let sent = vec![
        sent(1, 0, 0, None, Some("addra"), 2, None),
        sent(1, 1, 0, None, Some("addrb"), 3, Some(vec![0x61])),
        sent(2, 0, 0, Some(0), None, 1, None),
        sent(2, 1, 0, Some(1), None, 1, None),
    ];
    let txs = vec![mined(0, 0), mined(1, 1), mined(2, 2)];
    let blocks = vec![block(0), block(1), block(2)];
    (received, sent, txs, blocks)
}

fn find(rows: &[TxSummary], account: u64, tx: u64) -> &TxSummary {
    rows.iter().find(|r| r.account_id == account && r.id_tx == tx).unwrap()
}

fn events_of(events: &[TxEvent], tx: u64) -> Vec<&TxEvent> {
    events.iter().filter(|e| e.id_tx == tx).collect()
}

#[test]
fn v_transactions_net() {
    let (received, mut sent, txs, blocks) = ledger();
    apply_change_backfill(&received, &mut sent);

    let rows = tx_summaries(&received, &sent, &txs, &blocks);
    assert_eq!(rows.len(), 4);
    for row in &rows {
        match (row.account_id, row.id_tx) {
            (0, 0) => {
                assert_eq!(row.net_transfer, 7);
                assert!(!row.has_change);
                assert_eq!(row.memo_count, 0);
            }
            (0, 1) => {
                assert_eq!(row.net_transfer, -5);
                assert!(row.has_change);
                assert_eq!(row.memo_count, 1);
            }
            (0, 2) => {
                assert_eq!(row.net_transfer, -1);
                assert!(row.has_change);
                assert_eq!(row.memo_count, 0);
                assert_eq!(row.sent_note_count, 1);
                assert_eq!(row.received_note_count, 0);
            }
            (1, 2) => {
                assert_eq!(row.net_transfer, 1);
                assert!(!row.has_change);
                assert_eq!(row.memo_count, 0);
                assert_eq!(row.sent_note_count, 0);
                assert_eq!(row.received_note_count, 1);
            }
            other => {
                panic!("(Account, Transaction) pair {:?} is not expected to exist in the wallet.", other);
            }
        }
    }

    let events = tx_events(&received, &sent);
    let tx1 = events_of(&events, 1);
    assert_eq!(tx1.len(), 3);
    for e in &tx1 {
        match e.output_index {
            0 => {
                assert_eq!(e.from_account, Some(0));
                assert_eq!(e.to_account, None);
                assert_eq!(e.to_address, Some("addra".to_string()));
                assert_eq!(e.value, 2);
                assert!(!e.is_change);
            }
            1 => {
                assert_eq!(e.from_account, Some(0));
                assert_eq!(e.to_account, None);
                assert_eq!(e.to_address, Some("addrb".to_string()));
                assert_eq!(e.value, 3);
                assert!(!e.is_change);
            }
            2 => {
                assert_eq!(e.from_account, Some(0));
                assert_eq!(e.to_account, Some(0));
                assert_eq!(e.to_address, None);
                assert_eq!(e.value, 2);
                assert!(e.is_change);
            }
            other => {
                panic!("Unexpected output index for tx {}: {}.", e.id_tx, other);
            }
        }
    }
    let tx2 = events_of(&events, 2);
    assert_eq!(tx2.len(), 2);
    for e in &tx2 {
        match e.output_index {
            0 => {
                assert_eq!(e.from_account, Some(0));
                assert_eq!(e.to_account, Some(0));
                assert_eq!(e.to_address, None);
                assert_eq!(e.value, 1);
                assert!(e.is_change);
            }
            1 => {
                assert_eq!(e.from_account, Some(0));
                assert_eq!(e.to_account, Some(1));
                assert_eq!(e.to_address, None);
                assert_eq!(e.value, 1);
                assert!(!e.is_change);
            }
            other => {
                panic!("Unexpected output index for tx {}: {}.", e.id_tx, other);
            }
        }
    }
}

#[test]
fn backfill_adds_self_send_for_unrecorded_change() {
    let (received, sent, _, _) = ledger();
    let added = change_backfill(&received, &sent);
    assert_eq!(added.len(), 1);
    let r = &added[0];
    assert_eq!((r.tx, r.output_index, r.from_account, r.to_account, r.value), (1, 2, 0, Some(0), 2));
    assert_eq!(r.output_pool, 2);
    assert!(r.memo.is_none());
    assert!(r.to_address.is_none());
}

#[test]
fn backfill_twice_equals_once() {
    let (received, mut sent, _, _) = ledger();
    apply_change_backfill(&received, &mut sent);
    let once: Vec<(u64, u64, u64, u64)> = sent.iter().map(|s| (s.tx, s.output_index, s.from_account, s.value)).collect();
    assert!(change_backfill(&received, &sent).is_empty());
    apply_change_backfill(&received, &mut sent);
    let twice: Vec<(u64, u64, u64, u64)> = sent.iter().map(|s| (s.tx, s.output_index, s.from_account, s.value)).collect();
    assert_eq!(once, twice);
    assert_eq!(once.len(), 5);
}

#[test]
fn backfill_of_duplicate_change_notes_adds_one_record() {
    let received = vec![received(4, 1, 0, 9, true, None), received(4, 1, 0, 9, true, None)];
    let added = change_backfill(&received, &Vec::new());
    assert_eq!(added.len(), 1);
}

#[test]
fn no_double_count_with_external_memo_and_change() {
    // Account 3 spends a note of 20 and sends 6 and 4 outside, one with a memo,
    // keeping 10 as change; the change has an explicit sent record.
    let received = vec![received(10, 0, 3, 20, false, Some(11)), received(11, 2, 3, 10, true, None)];
    let sent = vec![
        sent(11, 0, 3, None, Some("ext1"), 6, None),
        sent(11, 1, 3, None, Some("ext2"), 4, Some(vec![1, 2])),
        sent(11, 2, 3, Some(3), None, 10, None),
    ];
    let txs = vec![mined(10, 5), mined(11, 6)];
    let rows = tx_summaries(&received, &sent, &txs, &vec![block(5), block(6)]);
    let row = find(&rows, 3, 11);
    assert_eq!(row.net_transfer, -(6 + 4));
    assert!(row.has_change);
    assert_eq!(row.sent_note_count, 2);
    assert_eq!(row.received_note_count, 0);
    assert_eq!(row.memo_count, 1);
}

#[test]
fn change_without_sent_record_counts_the_same() {
    let received = vec![received(10, 0, 3, 20, false, Some(11)), received(11, 2, 3, 10, true, None)];
    let mut sent = vec![
        sent(11, 0, 3, None, Some("ext1"), 6, None),
        sent(11, 1, 3, None, Some("ext2"), 4, Some(vec![1, 2])),
    ];
    let txs = vec![mined(10, 5), mined(11, 6)];
    let blocks = vec![block(5), block(6)];
    let before = tx_summaries(&received, &sent, &txs, &blocks);
    apply_change_backfill(&received, &mut sent);
    let after = tx_summaries(&received, &sent, &txs, &blocks);
    for rows in [&before, &after] {
        let row = find(rows, 3, 11);
        assert_eq!(row.net_transfer, -10);
        assert!(row.has_change);
        assert_eq!(row.sent_note_count, 2);
        assert_eq!(row.received_note_count, 0);
    }
}

#[test]
fn cross_account_transfer_classification() {
    let (received, mut sent, txs, blocks) = ledger();
    apply_change_backfill(&received, &mut sent);
    let rows = tx_summaries(&received, &sent, &txs, &blocks);
    let b = find(&rows, 1, 2);
    assert_eq!(b.received_note_count, 1);
    assert_eq!(b.sent_note_count, 0);
    assert!(!b.has_change);
    let a = find(&rows, 0, 2);
    assert!(a.has_change);
    assert_eq!(a.sent_note_count, 1);
    assert_eq!(a.received_note_count, 0);
}

#[test]
fn change_memo_is_not_counted() {
    let mut note = received(7, 0, 2, 5, true, None);
    note.memo = Some(vec![9]);
    let rows = tx_summaries(&vec![note], &Vec::new(), &vec![mined(7, 1)], &vec![block(1)]);
    assert_eq!(rows.len(), 1);
    assert_eq!(rows[0].memo_count, 0);
    assert_eq!(rows[0].received_note_count, 0);
    assert!(rows[0].has_change);
}

#[test]
fn expired_unmined_transactions() {
    let received = vec![received(1, 0, 0, 3, false, None), received(2, 0, 0, 4, false, None), received(3, 0, 0, 5, false, None)];
    let txs = vec![
        Transaction { id_tx: 1, block: None, tx_index: None, expiry_height: Some(8), raw: None, fee: None },
        Transaction { id_tx: 2, block: None, tx_index: None, expiry_height: Some(9), raw: None, fee: None },
        Transaction { id_tx: 3, block: Some(8), tx_index: Some(4), expiry_height: Some(2), raw: Some(vec![1, 2, 3]), fee: Some(1000) },
    ];
    let blocks = vec![Block { height: 8, time: 77 }, Block { height: 3, time: 10 }];
    assert_eq!(max_block_height(&blocks), Some(8));
    let rows = tx_summaries(&received, &Vec::new(), &txs, &blocks);
    assert_eq!(rows.len(), 3);
    assert!(find(&rows, 0, 1).expired_unmined);
    assert!(!find(&rows, 0, 2).expired_unmined);
    let mined_row = find(&rows, 0, 3);
    assert!(!mined_row.expired_unmined);
    assert_eq!(mined_row.block_time, Some(77));
    assert_eq!(mined_row.mined_height, Some(8));
    assert_eq!(mined_row.tx_index, Some(4));
    assert_eq!(mined_row.fee_paid, Some(1000));
    assert_eq!(mined_row.raw, Some(vec![1, 2, 3]));
    assert_eq!(find(&rows, 0, 1).block_time, None);
}

#[test]
fn no_blocks_means_nothing_expired() {
    let received = vec![received(1, 0, 0, 3, false, None)];
    let txs = vec![Transaction { id_tx: 1, block: None, tx_index: None, expiry_height: Some(0), raw: None, fee: None }];
    assert_eq!(max_block_height(&Vec::new()), None);
    let rows = tx_summaries(&received, &Vec::new(), &txs, &Vec::new());
    assert!(!rows[0].expired_unmined);
}

#[test]
fn unknown_transactions_have_no_summary() {
    let received = vec![received(1, 0, 0, 3, false, Some(9))];
    let rows = tx_summaries(&received, &Vec::new(), &vec![mined(1, 0)], &vec![block(0)]);
    assert_eq!(rows.len(), 1);
    assert_eq!((rows[0].account_id, rows[0].id_tx), (0, 1));
}

#[test]
fn empty_ledger_has_no_rows() {
    assert!(tx_summaries(&Vec::new(), &Vec::new(), &Vec::new(), &Vec::new()).is_empty());
    assert!(tx_events(&Vec::new(), &Vec::new()).is_empty());
}

#[test]
fn event_memo_prefers_the_side_that_has_one() {
    let mut note = received(5, 0, 1, 8, false, None);
    note.memo = None;
    let record = sent(5, 0, 0, Some(1), None, 8, Some(vec![7, 7]));
    let events = tx_events(&vec![note], &vec![record]);
    assert_eq!(events.len(), 1);
    assert_eq!(events[0].memo, Some(vec![7, 7]));
    assert_eq!(events[0].from_account, Some(0));
    assert_eq!(events[0].to_account, Some(1));
    assert!(!events[0].is_change);

    let mut note = received(6, 0, 1, 8, false, None);
    note.memo = Some(vec![3]);
    let events = tx_events(&vec![note], &Vec::new());
    assert_eq!(events[0].memo, Some(vec![3]));
    assert_eq!(events[0].from_account, None);
}
