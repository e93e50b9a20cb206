//! Event reconstruction: one event for each output that a received note or a
//! sent record touches, with change taken from the received note alone.
use vstd::prelude::*;
use crate::ledger::{ReceivedNote, SentNote, bytes_view, address_view, copy_bytes, copy_address};

verus! {

/// One output of one transaction, as the wallet accounts for it.
pub struct TxEvent {
    pub id_tx: u64,
    pub output_index: u64,
    /// The sending account, when a sent record stands on the output.
    pub from_account: Option<u64>,
    /// The receiving account, when a received note stands on the output.
    pub to_account: Option<u64>,
    /// The external address that the output was sent to, if any.
    pub to_address: Option<String>,
    pub value: u64,
    /// Whether the output is change, as its received note says.
    pub is_change: bool,
    pub memo: Option<Vec<u8>>,
}

/// What an event says, with its texts as sequences.
pub ghost struct EventModel {
    pub id_tx: u64,
    pub output_index: u64,
    pub from_account: Option<u64>,
    pub to_account: Option<u64>,
    pub to_address: Option<Seq<char>>,
    pub value: u64,
    pub is_change: bool,
    pub memo: Option<Seq<u8>>,
}

impl View for TxEvent {
    type V = EventModel;

    open spec fn view(&self) -> EventModel {
        EventModel {
            id_tx: self.id_tx,
            output_index: self.output_index,
            from_account: self.from_account,
            to_account: self.to_account,
            to_address: address_view(self.to_address),
            value: self.value,
            is_change: self.is_change,
            memo: bytes_view(self.memo),
        }
    }
}

/// The first sent record at or after position `k` of `s` that stands on output
/// `output_index` of transaction `tx`.
pub open spec fn first_sent_from(s: Seq<SentNote>, k: int, tx: u64, output_index: u64) -> Option<int>
    decreases s.len() - k,
{
    if k < 0 || k >= s.len() {
        None
    } else if s[k].tx == tx && s[k].output_index == output_index {
        Some(k)
    } else {
        first_sent_from(s, k + 1, tx, output_index)
    }
}

/// The first received note at or after position `k` of `r` that stands on
/// output `output_index` of transaction `tx`.
pub open spec fn first_received_from(r: Seq<ReceivedNote>, k: int, tx: u64, output_index: u64) -> Option<int>
    decreases r.len() - k,
{
    if k < 0 || k >= r.len() {
        None
    } else if r[k].tx == tx && r[k].output_index == output_index {
        Some(k)
    } else {
        first_received_from(r, k + 1, tx, output_index)
    }
}

/// The event anchored on received note `i`: present for a change note, and for
/// a note on whose output no sent record stands (else that record's event
/// covers the output).
pub open spec fn received_event(r: Seq<ReceivedNote>, s: Seq<SentNote>, i: int) -> Option<EventModel> {
    let n = r[i];
    let m = first_sent_from(s, 0, n.tx, n.output_index);
    if !n.is_change && m.is_some() {
        None
    } else {
        Some(EventModel {
            id_tx: n.tx,
            output_index: n.output_index,
            from_account: match m {
                Some(j) => Some(s[j].from_account),
                None => None,
            },
            to_account: Some(n.account),
            to_address: None,
            value: n.value,
            is_change: n.is_change,
            memo: if n.memo.is_some() {
                bytes_view(n.memo)
            } else {
                match m {
                    Some(j) => bytes_view(s[j].memo),
                    None => None,
                }
            },
        })
    }
}

/// The event anchored on sent record `j`: absent when a change note stands on
/// its output (that note's event covers it), and never change.
pub open spec fn sent_event(r: Seq<ReceivedNote>, s: Seq<SentNote>, j: int) -> Option<EventModel> {
    let n = s[j];
    let m = first_received_from(r, 0, n.tx, n.output_index);
    if m.is_some() && r[m.unwrap()].is_change {
        None
    } else {
        Some(EventModel {
            id_tx: n.tx,
            output_index: n.output_index,
            from_account: Some(n.from_account),
            to_account: match m {
                Some(i) => Some(r[i].account),
                None => None,
            },
            to_address: address_view(n.to_address),
            value: n.value,
            is_change: false,
            memo: if n.memo.is_some() {
                bytes_view(n.memo)
            } else {
                match m {
                    Some(i) => bytes_view(r[i].memo),
                    None => None,
                }
            },
        })
    }
}

pub open spec fn option_seq(e: Option<EventModel>) -> Seq<EventModel> {
    match e {
        Some(x) => seq![x],
        None => Seq::empty(),
    }
}

/// The events anchored on the first `n` received notes, in their order.
pub open spec fn received_events(r: Seq<ReceivedNote>, s: Seq<SentNote>, n: int) -> Seq<EventModel>
    decreases n,
{
    if n <= 0 {
        Seq::empty()
    } else {
        received_events(r, s, n - 1) + option_seq(received_event(r, s, n - 1))
    }
}

/// The events anchored on the first `n` sent records, in their order.
pub open spec fn sent_events(r: Seq<ReceivedNote>, s: Seq<SentNote>, n: int) -> Seq<EventModel>
    decreases n,
{
    if n <= 0 {
        Seq::empty()
    } else {
        sent_events(r, s, n - 1) + option_seq(sent_event(r, s, n - 1))
    }
}

/// All events: those anchored on received notes, then those anchored on sent
/// records.
pub open spec fn events_spec(r: Seq<ReceivedNote>, s: Seq<SentNote>) -> Seq<EventModel> {
    received_events(r, s, r.len() as int) + sent_events(r, s, s.len() as int)
}

pub open spec fn event_views(v: Seq<TxEvent>) -> Seq<EventModel> {
    v.map_values(|e: TxEvent| e@)
}

fn find_sent(s: &Vec<SentNote>, tx: u64, output_index: u64) -> (r: Option<usize>)
    ensures
        r.is_some() == first_sent_from(s@, 0, tx, output_index).is_some(),
        r.is_some() ==> r.unwrap() as int == first_sent_from(s@, 0, tx, output_index).unwrap(),
        r.is_some() ==> r.unwrap() < s.len(),
{
    let mut k: usize = 0;
    while k < s.len()
        invariant
            k <= s.len(),
            first_sent_from(s@, 0, tx, output_index) == first_sent_from(s@, k as int, tx, output_index),
        decreases s.len() - k,
    {
        if s[k].tx == tx && s[k].output_index == output_index {
            return Some(k);
        }
        k = k + 1;
    }
    None
}

fn find_received(r: &Vec<ReceivedNote>, tx: u64, output_index: u64) -> (o: Option<usize>)
    ensures
        o.is_some() == first_received_from(r@, 0, tx, output_index).is_some(),
        o.is_some() ==> o.unwrap() as int == first_received_from(r@, 0, tx, output_index).unwrap(),
        o.is_some() ==> o.unwrap() < r.len(),
{
    let mut k: usize = 0;
    while k < r.len()
        invariant
            k <= r.len(),
            first_received_from(r@, 0, tx, output_index) == first_received_from(r@, k as int, tx, output_index),
        decreases r.len() - k,
    {
        if r[k].tx == tx && r[k].output_index == output_index {
            return Some(k);
        }
        k = k + 1;
    }
    None
}

proof fn lemma_push_view(v: Seq<TxEvent>, e: TxEvent)
    ensures
        event_views(v.push(e)) =~= event_views(v) + option_seq(Some(e@)),
{
}

/// The events of the ledger: one for each output touched by a received note or
/// a sent record, where a change note stands for its output alone and a sent
/// record stands for any other output that it shares with a received note.
pub fn tx_events(received: &Vec<ReceivedNote>, sent: &Vec<SentNote>) -> (out: Vec<TxEvent>)
    ensures
        event_views(out@) == events_spec(received@, sent@),
{
    let mut out: Vec<TxEvent> = Vec::new();
    let mut i: usize = 0;
    while i < received.len()
        invariant
            i <= received.len(),
            event_views(out@) == received_events(received@, sent@, i as int),
        decreases received.len() - i,
    {
        let n = &received[i];
        let m = find_sent(sent, n.tx, n.output_index);
        if n.is_change || m.is_none() {
            let from_account = match m {
                Some(j) => Some(sent[j].from_account),
                None => None,
            };
            let memo = if n.memo.is_some() {
                copy_bytes(&n.memo)
            } else {
                match m {
                    Some(j) => copy_bytes(&sent[j].memo),
                    None => None,
                }
            };
            let e = TxEvent {
                id_tx: n.tx,
                output_index: n.output_index,
                from_account,
                to_account: Some(n.account),
                to_address: None,
                value: n.value,
                is_change: n.is_change,
                memo,
            };
            proof {
                lemma_push_view(out@, e);
            }
            out.push(e);
        } else {
            assert(option_seq(received_event(received@, sent@, i as int)) =~= Seq::<EventModel>::empty());
            assert(event_views(out@) =~= received_events(received@, sent@, i as int + 1));
        }
        i = i + 1;
    }
    let ghost recv_part = event_views(out@);
    let mut j: usize = 0;
    while j < sent.len()
        invariant
            j <= sent.len(),
            recv_part == received_events(received@, sent@, received@.len() as int),
            event_views(out@) == recv_part + sent_events(received@, sent@, j as int),
        decreases sent.len() - j,
    {
        let n = &sent[j];
        let m = find_received(received, n.tx, n.output_index);
        let suppressed = match m {
            Some(i) => received[i].is_change,
            None => false,
        };
        if !suppressed {
            let to_account = match m {
                Some(i) => Some(received[i].account),
                None => None,
            };
            let memo = if n.memo.is_some() {
                copy_bytes(&n.memo)
            } else {
                match m {
                    Some(i) => copy_bytes(&received[i].memo),
                    None => None,
                }
            };
            let e = TxEvent {
                id_tx: n.tx,
                output_index: n.output_index,
                from_account: Some(n.from_account),
                to_account,
                to_address: copy_address(&n.to_address),
                value: n.value,
                is_change: false,
                memo,
            };
            proof {
                lemma_push_view(out@, e);
            }
            out.push(e);
            assert(event_views(out@) =~= recv_part + sent_events(received@, sent@, j as int + 1));
        } else {
            assert(option_seq(sent_event(received@, sent@, j as int)) =~= Seq::<EventModel>::empty());
            assert(event_views(out@) =~= recv_part + sent_events(received@, sent@, j as int + 1));
        }
        j = j + 1;
    }
    out
}

} // verus!
