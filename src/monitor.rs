use crate::events::ManifestView;
use crate::laws::lemma_added;
use crate::ledger::{Transaction, TransactionView, block_view};
use crate::match_index::{MatchIndex, SubscriptionID};
use crate::payload::{EventPayLoad, PayloadView, block_matches, matches_in_block, payload_views};
use crate::subscription::{Subscription, SubscriptionView};
use vstd::prelude::*;

verus! {

/// The abstract state of a monitor.
pub struct MonitorView {
    /// The highest ledger height fully scanned.
    pub cursor: u32,
    /// The live subscriptions, in order of registration.
    pub subscriptions: Seq<SubscriptionView>,
    /// For each live subscription, the records matched since its last drain.
    pub slots: Map<SubscriptionID, Seq<PayloadView>>,
}

/// The height the next scan covers, if the ledger at `ledger_height` has a
/// block beyond `cursor`.
pub open spec fn next_height_after(cursor: u32, ledger_height: u32) -> Option<u32> {
    if cursor < ledger_height {
        Some((cursor + 1) as u32)
    } else {
        None
    }
}

impl MonitorView {
    pub open spec fn is_live(self, id: SubscriptionID) -> bool {
        exists|j: int| 0 <= j < self.subscriptions.len() && #[trigger] self.subscriptions[j].id == id
    }

    /// Identifiers are never shared, and exactly the live subscriptions have
    /// a slot.
    pub open spec fn wf(self) -> bool {
        &&& forall|j: int, k: int|
            0 <= j < self.subscriptions.len() && 0 <= k < self.subscriptions.len() && j != k
                ==> #[trigger] self.subscriptions[j].id != #[trigger] self.subscriptions[k].id
        &&& forall|id: SubscriptionID| #[trigger] self.slots.contains_key(id) <==> self.is_live(id)
    }

    /// The rules of the live subscription `id`.
    pub open spec fn definitions_of(self, id: SubscriptionID) -> Seq<ManifestView> {
        let j = choose|j: int| 0 <= j < self.subscriptions.len() && #[trigger] self.subscriptions[j].id == id;
        self.subscriptions[j].definitions
    }

    /// Registering `s`: it joins the live list with an empty slot, unless its
    /// identifier is live already.
    pub open spec fn added(self, s: SubscriptionView) -> MonitorView {
        if self.slots.contains_key(s.id) {
            self
        } else {
            MonitorView {
                cursor: self.cursor,
                subscriptions: self.subscriptions.push(s),
                slots: self.slots.insert(s.id, Seq::empty()),
            }
        }
    }

    /// Scanning the block at `cursor + 1`, whose transactions are `txs`: each
    /// slot gets the records that the block yields for its subscription, and
    /// the cursor moves to that height.
    pub open spec fn scanned(self, txs: Seq<TransactionView>) -> MonitorView {
        MonitorView {
            cursor: (self.cursor + 1) as u32,
            subscriptions: self.subscriptions,
            slots: Map::new(
                |id: SubscriptionID| self.slots.contains_key(id),
                |id: SubscriptionID|
                    self.slots[id] + block_matches(self.definitions_of(id), (self.cursor + 1) as u32, txs),
            ),
        }
    }

    /// Draining `id`: the records of its slot, and the state with that slot
    /// emptied; an `id` without a slot gives nothing and changes nothing.
    pub open spec fn drained(self, id: SubscriptionID) -> (Seq<PayloadView>, MonitorView) {
        if self.slots.contains_key(id) {
            (
                self.slots[id],
                MonitorView {
                    cursor: self.cursor,
                    subscriptions: self.subscriptions,
                    slots: self.slots.insert(id, Seq::empty()),
                },
            )
        } else {
            (Seq::empty(), self)
        }
    }
}

/// The monitor engine: a cursor over the ledger, the live subscriptions and
/// their slots of matched records.
///
/// The ledger itself is read by the caller, who asks [`Monitor::next_height`]
/// which block to fetch and hands its transactions to
/// [`Monitor::scan_next_block`].
pub struct Monitor {
    latest_block: u32,
    subscriptions: Vec<Subscription>,
    matching_events: MatchIndex,
}

impl View for Monitor {
    type V = MonitorView;

    closed spec fn view(&self) -> MonitorView {
        MonitorView {
            cursor: self.latest_block,
            subscriptions: self.subscriptions@.map_values(|s: Subscription| s@),
            slots: self.matching_events@,
        }
    }
}

impl Monitor {
    /// The monitor's state is well formed (see [`MonitorView::wf`]).
    pub open spec fn wf(&self) -> bool {
        self@.wf()
    }

    /// A monitor with no subscription, whose scanning starts after
    /// `latest_height`, the ledger's height at creation.
    pub fn new(latest_height: u32) -> (r: Monitor)
        ensures
            r.wf(),
            r@.cursor == latest_height,
            r@.subscriptions == Seq::<SubscriptionView>::empty(),
            r@.slots == Map::<SubscriptionID, Seq<PayloadView>>::empty(),
    {
        let r = Monitor { latest_block: latest_height, subscriptions: Vec::new(), matching_events: MatchIndex::new() };
        assert(r@.subscriptions =~= Seq::<SubscriptionView>::empty());
        r
    }

    /// The highest ledger height fully scanned.
    pub fn latest_block(&self) -> (r: u32)
        ensures
            r == self@.cursor,
    {
        self.latest_block
    }

    /// Registers `subscription` together with its empty slot. A subscription
    /// whose identifier is live already is not registered again; the result
    /// says whether it was registered.
    pub fn add(&mut self, subscription: Subscription) -> (r: bool)
        requires
            old(self).wf(),
        ensures
            final(self).wf(),
            final(self)@ == old(self)@.added(subscription@),
            r == !old(self)@.slots.contains_key(subscription@.id),
    {
        let id = *subscription.id();
        if !self.matching_events.contains(&id) {
            let ghost subs0 = self@.subscriptions;
            self.matching_events.create_slot(id);
            self.subscriptions.push(subscription);
            proof {
                assert(self@.subscriptions =~= subs0.push(subscription@));
                assert(self@ == old(self)@.added(subscription@));
                lemma_added(old(self)@, subscription@);
            }
            true
        } else {
            false
        }
    }

    /// Removes and returns the records matched for `id` since its last drain.
    /// An `id` that was never registered gives no record.
    pub fn drain(&mut self, id: SubscriptionID) -> (r: (SubscriptionID, Vec<EventPayLoad>))
        requires
            old(self).wf(),
        ensures
            final(self).wf(),
            r.0 == id,
            (payload_views(r.1@), final(self)@) == old(self)@.drained(id),
    {
        let events = self.matching_events.drain(id);
        proof {
            assert(self@.slots.dom() =~= old(self)@.slots.dom());
            assert(self@.subscriptions == old(self)@.subscriptions);
            assert forall|x: SubscriptionID| #[trigger] self@.slots.contains_key(x) <==> self@.is_live(x) by {
                assert(self@.slots.contains_key(x) == old(self)@.slots.contains_key(x));
            }
        }
        (id, events)
    }

    /// The next height to scan when the ledger stands at `ledger_height`, or
    /// `None` when every block up to it has been scanned.
    pub fn next_height(&self, ledger_height: u32) -> (r: Option<u32>)
        ensures
            r == next_height_after(self@.cursor, ledger_height),
    {
        if self.latest_block < ledger_height {
            Some(self.latest_block + 1)
        } else {
            None
        }
    }

    /// Scans the block at the next height, whose transactions are `txs`:
    /// every live subscription's slot gets the block's matches for its rules,
    /// in transaction, transition and rule order, and the cursor moves to that
    /// height.
    pub fn scan_next_block(&mut self, txs: &Vec<Transaction>)
        requires
            old(self).wf(),
            old(self)@.cursor < u32::MAX,
        ensures
            final(self).wf(),
            final(self)@ == old(self)@.scanned(block_view(txs@)),
    {
        let height = self.latest_block + 1;
        let ghost old_view = self@;
        let ghost bv = block_view(txs@);
        let subs = &self.subscriptions;
        let mut i: usize = 0;
        while i < subs.len()
            invariant
                i <= subs.len(),
                old_view == old(self)@,
                self.latest_block == old(self).latest_block,
                self.subscriptions@ == old(self).subscriptions@,
                old_view.wf(),
                subs@.map_values(|s: Subscription| s@) == old_view.subscriptions,
                bv == block_view(txs@),
                height == old_view.cursor + 1,
                self.matching_events@.dom() == old_view.slots.dom(),
                forall|j: int| 0 <= j < i ==> #[trigger] self.matching_events@[subs@[j]@.id]
                    == old_view.slots[subs@[j]@.id] + block_matches(subs@[j]@.definitions, height, bv),
                forall|j: int| i <= j < subs@.len() ==> #[trigger] self.matching_events@[subs@[j]@.id]
                    == old_view.slots[subs@[j]@.id],
            decreases subs.len() - i,
        {
            let sub = &subs[i];
            let found = matches_in_block(sub.events(), height, txs);
            proof {
                let vs = old_view.subscriptions;
                assert(vs[i as int] == sub@);
                assert(old_view.is_live(sub@.id));
                assert forall|j: int| 0 <= j < subs@.len() && j != i implies #[trigger] subs@[j]@.id != sub@.id by {
                    assert(vs[j] == subs@[j]@);
                }
            }
            self.matching_events.append_all(*sub.id(), found);
            i = i + 1;
        }
        self.latest_block = height;
        proof {
            let vs = old_view.subscriptions;
            assert forall|id: SubscriptionID| #[trigger] self@.slots.contains_key(id) implies self@.slots[id]
                == old_view.slots[id] + block_matches(old_view.definitions_of(id), height, bv) by {
                assert(old_view.is_live(id));
                let j = choose|j: int| 0 <= j < vs.len() && #[trigger] vs[j].id == id;
                assert(vs[j] == subs@[j]@);
            }
            assert(self@.slots =~= old_view.scanned(bv).slots);
            assert(self@.subscriptions =~= old_view.subscriptions);
        }
    }
}

} // verus!
