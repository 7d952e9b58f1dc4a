//! A token transfer as the indexer records it.
use vstd::prelude::*;
use crate::bignat::BigNat;

verus! {

/// An ERC-20 `Transfer(from, to, value)` event; addresses are hex text.
#[derive(Debug, Clone, PartialEq, Eq)]
pub struct TransferEvent {
    pub from: String,
    pub to: String,
    pub value: BigNat,
}

/// The mathematical content of a transfer.
pub struct TransferEventView {
    pub from: Seq<char>,
    pub to: Seq<char>,
    pub value: nat,
}

impl View for TransferEvent {
    type V = TransferEventView;

    open spec fn view(&self) -> TransferEventView {
        TransferEventView { from: self.from@, to: self.to@, value: self.value@ }
    }
}

/// The views of a sequence of transfers.
pub open spec fn events_view(s: Seq<TransferEvent>) -> Seq<TransferEventView> {
    s.map_values(|e: TransferEvent| e@)
}

impl TransferEvent {
    /// A copy of the event.
    pub fn duplicate(&self) -> (r: TransferEvent)
        ensures
            r@ == self@,
            r.value.digits@ == self.value.digits@,
    {
        TransferEvent {
            from: self.from.clone(),
            to: self.to.clone(),
            value: self.value.duplicate(),
        }
    }
}

/// A copy of a list of events, in order.
pub fn duplicate_events(events: &Vec<TransferEvent>) -> (r: Vec<TransferEvent>)
    ensures
        events_view(r@) == events_view(events@),
{
    let mut r: Vec<TransferEvent> = Vec::new();
    let mut i: usize = 0;
    while i < events.len()
        invariant
            i <= events.len(),
            events_view(r@) == events_view(events@.subrange(0, i as int)),
        decreases events.len() - i,
    {
        let ghost before = r@;
        r.push(events[i].duplicate());
        assert(events@.subrange(0, i + 1) =~= events@.subrange(0, i as int).push(events@[i as int]));
        assert(events_view(r@) =~= events_view(before).push(events@[i as int]@));
        assert(events_view(events@.subrange(0, i + 1)) =~= events_view(
            events@.subrange(0, i as int),
        ).push(events@[i as int]@));
        i = i + 1;
    }
    assert(events@.subrange(0, i as int) =~= events@);
    r
}

} // verus!
