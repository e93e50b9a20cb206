//! The change backfill: every change note that has no sent record on its output
//! gets one, from its owning account to itself.
use vstd::prelude::*;
use crate::ledger::{ReceivedNote, SentNote, SAPLING_POOL_CODE};

verus! {

/// Whether some sent record stands on output `output_index` of transaction `tx`.
pub open spec fn has_sent_at(s: Seq<SentNote>, tx: u64, output_index: u64) -> bool {
    exists|j: int| 0 <= j < s.len() && (#[trigger] s[j]).tx == tx && s[j].output_index == output_index
}

/// The sent record that stands in for a change note: from its owner to itself,
/// with the note's output and value, and no memo.
pub open spec fn change_record(n: ReceivedNote) -> SentNote {
    SentNote {
        tx: n.tx,
        output_pool: SAPLING_POOL_CODE,
        output_index: n.output_index,
        from_account: n.account,
        to_account: Some(n.account),
        to_address: None,
        value: n.value,
        memo: None,
    }
}

/// The records that the backfill adds to `s` for the first `n` received notes
/// of `r`: one for each change note whose output has no record yet, counting
/// those already added.
pub open spec fn backfill_spec(r: Seq<ReceivedNote>, s: Seq<SentNote>, n: int) -> Seq<SentNote>
    decreases n,
{
    if n <= 0 {
        Seq::empty()
    } else {
        let prev = backfill_spec(r, s, n - 1);
        let note = r[n - 1];
        if note.is_change && !has_sent_at(s + prev, note.tx, note.output_index) {
            prev.push(change_record(note))
        } else {
            prev
        }
    }
}

/// The sent records after the backfill: those of `s`, then those it adds.
pub open spec fn backfilled(r: Seq<ReceivedNote>, s: Seq<SentNote>) -> Seq<SentNote> {
    s + backfill_spec(r, s, r.len() as int)
}

fn sent_at(s: &Vec<SentNote>, tx: u64, output_index: u64) -> (b: bool)
    ensures
        b == has_sent_at(s@, tx, output_index),
{
    let mut j: usize = 0;
    while j < s.len()
        invariant
            j <= s.len(),
            forall|k: int| 0 <= k < j ==> !((#[trigger] s@[k]).tx == tx && s@[k].output_index == output_index),
        decreases s.len() - j,
    {
        if s[j].tx == tx && s[j].output_index == output_index {
            return true;
        }
        j = j + 1;
    }
    false
}

proof fn lemma_has_sent_at_concat(a: Seq<SentNote>, b: Seq<SentNote>, tx: u64, output_index: u64)
    ensures
        has_sent_at(a + b, tx, output_index) == (has_sent_at(a, tx, output_index) || has_sent_at(b, tx, output_index)),
{
    let c = a + b;
    if has_sent_at(c, tx, output_index) {
        let j = choose|j: int| 0 <= j < c.len() && (#[trigger] c[j]).tx == tx && c[j].output_index == output_index;
        if j < a.len() {
            assert(a[j] == c[j]);
        } else {
            assert(b[j - a.len()] == c[j]);
        }
    }
    if has_sent_at(a, tx, output_index) {
        let j = choose|j: int| 0 <= j < a.len() && (#[trigger] a[j]).tx == tx && a[j].output_index == output_index;
        assert(c[j] == a[j]);
    }
    if has_sent_at(b, tx, output_index) {
        let j = choose|j: int| 0 <= j < b.len() && (#[trigger] b[j]).tx == tx && b[j].output_index == output_index;
        assert(c[j + a.len()] == b[j]);
    }
}

/// The sent records that the backfill adds for `received`, given the records
/// already in `sent`.
pub fn change_backfill(received: &Vec<ReceivedNote>, sent: &Vec<SentNote>) -> (added: Vec<SentNote>)
    ensures
        added@ == backfill_spec(received@, sent@, received@.len() as int),
{
    let mut added: Vec<SentNote> = Vec::new();
    let mut i: usize = 0;
    while i < received.len()
        invariant
            i <= received.len(),
            added@ == backfill_spec(received@, sent@, i as int),
        decreases received.len() - i,
    {
        let note = &received[i];
        if note.is_change {
            let in_sent = sent_at(sent, note.tx, note.output_index);
            let in_added = sent_at(&added, note.tx, note.output_index);
            proof {
                lemma_has_sent_at_concat(sent@, added@, note.tx, note.output_index);
            }
            if !in_sent && !in_added {
                let record = SentNote {
                    tx: note.tx,
                    output_pool: SAPLING_POOL_CODE,
                    output_index: note.output_index,
                    from_account: note.account,
                    to_account: Some(note.account),
                    to_address: None,
                    value: note.value,
                    memo: None,
                };
                added.push(record);
            }
        }
        i = i + 1;
    }
    added
}

/// Appends to `sent` the records that the backfill adds for `received`.
pub fn apply_change_backfill(received: &Vec<ReceivedNote>, sent: &mut Vec<SentNote>)
    ensures
        final(sent)@ == backfilled(received@, old(sent)@),
{
    let mut added = change_backfill(received, sent);
    sent.append(&mut added);
}

proof fn lemma_has_sent_at_push(a: Seq<SentNote>, x: SentNote, tx: u64, output_index: u64)
    requires
        has_sent_at(a, tx, output_index),
    ensures
        has_sent_at(a.push(x), tx, output_index),
{
    let j = choose|j: int| 0 <= j < a.len() && (#[trigger] a[j]).tx == tx && a[j].output_index == output_index;
    assert(a.push(x)[j] == a[j]);
}

proof fn lemma_backfill_covers(r: Seq<ReceivedNote>, s: Seq<SentNote>, n: int)
    requires
        0 <= n <= r.len(),
    ensures
        forall|i: int| 0 <= i < n && (#[trigger] r[i]).is_change
            ==> has_sent_at(s + backfill_spec(r, s, n), r[i].tx, r[i].output_index),
    decreases n,
{
    if n > 0 {
        lemma_backfill_covers(r, s, n - 1);
        let prev = backfill_spec(r, s, n - 1);
        let note = r[n - 1];
        if note.is_change && !has_sent_at(s + prev, note.tx, note.output_index) {
            let x = change_record(note);
            assert((s + prev).push(x) =~= s + prev.push(x));
            assert forall|i: int| 0 <= i < n && (#[trigger] r[i]).is_change
                implies has_sent_at(s + backfill_spec(r, s, n), r[i].tx, r[i].output_index) by {
                if i < n - 1 {
                    lemma_has_sent_at_push(s + prev, x, r[i].tx, r[i].output_index);
                } else {
                    let c = (s + prev).push(x);
                    assert(c[c.len() - 1] == x);
                }
            }
        }
    }
}

proof fn lemma_backfill_adds_nothing(r: Seq<ReceivedNote>, s: Seq<SentNote>, n: int)
    requires
        0 <= n <= r.len(),
    ensures
        backfill_spec(r, backfilled(r, s), n) == Seq::<SentNote>::empty(),
    decreases n,
{
    if n > 0 {
        lemma_backfill_adds_nothing(r, s, n - 1);
        lemma_backfill_covers(r, s, r.len() as int);
        let t = backfilled(r, s);
        assert(t + Seq::<SentNote>::empty() =~= t);
        if r[n - 1].is_change {
            assert(has_sent_at(t, r[n - 1].tx, r[n - 1].output_index));
        }
    }
}

/// Running the backfill a second time adds nothing: the records it produces
/// are the same whether it runs once or twice.
pub proof fn lemma_backfill_idempotent(r: Seq<ReceivedNote>, s: Seq<SentNote>)
    ensures
        backfill_spec(r, backfilled(r, s), r.len() as int) == Seq::<SentNote>::empty(),
        backfilled(r, backfilled(r, s)) == backfilled(r, s),
{
    lemma_backfill_adds_nothing(r, s, r.len() as int);
    assert(backfilled(r, s) + Seq::<SentNote>::empty() =~= backfilled(r, s));
}

} // verus!
