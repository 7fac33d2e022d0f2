use crate::payload::{EventPayLoad, PayloadView, payload_views};
use indexmap::IndexMap;
use vstd::prelude::*;

verus! {

#[verifier::external_type_specification]
#[verifier::external_body]
#[verifier::reject_recursive_types(K)]
#[verifier::reject_recursive_types(V)]
#[verifier::reject_recursive_types(S)]
pub struct ExIndexMap<K, V, S>(IndexMap<K, V, S>);

/// Identifies a subscription: 256 bits drawn from a cryptographically
/// secure generator.
pub type SubscriptionID = [u8; 32];

/// The entries of the map that holds the slots: for each key, the records it
/// holds.
pub uninterp spec fn slot_entries(m: IndexMap<SubscriptionID, Vec<EventPayLoad>>) -> Map<
    SubscriptionID,
    Seq<EventPayLoad>,
>;

/// Relies on `IndexMap::new`: a new map has no entries.
#[verifier::external_body]
fn slots_new() -> (r: IndexMap<SubscriptionID, Vec<EventPayLoad>>)
    ensures
        slot_entries(r) =~= Map::empty(),
{
    IndexMap::new()
}

/// Relies on `IndexMap::contains_key`: whether the map has an entry for the key.
#[verifier::external_body]
fn slots_contains(m: &IndexMap<SubscriptionID, Vec<EventPayLoad>>, id: &SubscriptionID) -> (r: bool)
    ensures
        r == slot_entries(*m).contains_key(*id),
{
    m.contains_key(id)
}

/// Relies on `IndexMap::insert`: the key's entry becomes `v`, every other
/// entry stays, and the entry that was replaced, if any, is returned.
#[verifier::external_body]
fn slots_insert(
    m: &mut IndexMap<SubscriptionID, Vec<EventPayLoad>>,
    id: SubscriptionID,
    v: Vec<EventPayLoad>,
) -> (r: Option<Vec<EventPayLoad>>)
    ensures
        slot_entries(*final(m)) == slot_entries(*old(m)).insert(id, v@),
        match r {
            Some(p) => slot_entries(*old(m)).contains_key(id) && p@ == slot_entries(*old(m))[id],
            None => !slot_entries(*old(m)).contains_key(id),
        },
{
    m.insert(id, v)
}

proof fn lemma_no_payload_views()
    ensures
        payload_views(Seq::<EventPayLoad>::empty()) == Seq::<PayloadView>::empty(),
{
    assert(payload_views(Seq::<EventPayLoad>::empty()) =~= Seq::<PayloadView>::empty());
}

/// Appending `events` to the slot of `id`; an `id` without a slot is
/// ignored.
pub open spec fn slot_appended(
    slots: Map<SubscriptionID, Seq<PayloadView>>,
    id: SubscriptionID,
    events: Seq<PayloadView>,
) -> Map<SubscriptionID, Seq<PayloadView>> {
    if slots.contains_key(id) {
        slots.insert(id, slots[id] + events)
    } else {
        slots
    }
}

/// Draining the slot of `id`: its records, and the slots with it emptied; an
/// `id` without a slot gives nothing and changes nothing.
pub open spec fn slot_drained(slots: Map<SubscriptionID, Seq<PayloadView>>, id: SubscriptionID) -> (
    Seq<PayloadView>,
    Map<SubscriptionID, Seq<PayloadView>>,
) {
    if slots.contains_key(id) {
        (slots[id], slots.insert(id, Seq::empty()))
    } else {
        (Seq::empty(), slots)
    }
}

/// Per-subscription accumulation of matched records.
///
/// Each slot holds the records appended for its subscription since the last
/// drain, in the order they were appended.
pub struct MatchIndex {
    slots: IndexMap<SubscriptionID, Vec<EventPayLoad>>,
}

impl View for MatchIndex {
    type V = Map<SubscriptionID, Seq<PayloadView>>;

    closed spec fn view(&self) -> Map<SubscriptionID, Seq<PayloadView>> {
        Map::new(
            |id: SubscriptionID| slot_entries(self.slots).contains_key(id),
            |id: SubscriptionID| payload_views(slot_entries(self.slots)[id]),
        )
    }
}

impl MatchIndex {
    /// An index with no slot.
    pub fn new() -> (r: MatchIndex)
        ensures
            r@ == Map::<SubscriptionID, Seq<PayloadView>>::empty(),
    {
        let r = MatchIndex { slots: slots_new() };
        assert(r@ =~= Map::<SubscriptionID, Seq<PayloadView>>::empty());
        r
    }

    /// Whether `id` has a slot.
    pub fn contains(&self, id: &SubscriptionID) -> (r: bool)
        ensures
            r == self@.contains_key(*id),
    {
        slots_contains(&self.slots, id)
    }

    /// Gives `id` an empty slot; a slot that exists already is kept as it is.
    pub fn create_slot(&mut self, id: SubscriptionID)
        ensures
            final(self)@ == if old(self)@.contains_key(id) {
                old(self)@
            } else {
                old(self)@.insert(id, Seq::empty())
            },
    {
        if !slots_contains(&self.slots, &id) {
            slots_insert(&mut self.slots, id, Vec::new());
            proof { lemma_no_payload_views(); }
            assert(self@ =~= old(self)@.insert(id, Seq::empty()));
        }
    }

    /// Appends `event` to the slot of `id`; an `id` without a slot is ignored.
    pub fn append(&mut self, id: SubscriptionID, event: EventPayLoad)
        ensures
            final(self)@ == slot_appended(old(self)@, id, seq![event@]),
    {
        if slots_contains(&self.slots, &id) {
            let taken = slots_insert(&mut self.slots, id, Vec::new());
            match taken {
                Some(mut events) => {
                    let ghost before = events@;
                    events.push(event);
                    proof {
                        assert(payload_views(events@) =~= payload_views(before) + seq![event@]);
                    }
                    slots_insert(&mut self.slots, id, events);
                    assert(self@ =~= old(self)@.insert(id, old(self)@[id] + seq![event@]));
                },
                None => {},
            }
        }
    }

    /// Appends `events`, in order, to the slot of `id`; an `id` without a
    /// slot is ignored.
    pub fn append_all(&mut self, id: SubscriptionID, events: Vec<EventPayLoad>)
        ensures
            final(self)@ == slot_appended(old(self)@, id, payload_views(events@)),
    {
        let mut events = events;
        if slots_contains(&self.slots, &id) {
            let taken = slots_insert(&mut self.slots, id, Vec::new());
            match taken {
                Some(mut held) => {
                    let ghost before = held@;
                    let ghost added = events@;
                    held.append(&mut events);
                    proof {
                        assert(payload_views(held@) =~= payload_views(before) + payload_views(added));
                    }
                    slots_insert(&mut self.slots, id, held);
                    assert(self@ =~= old(self)@.insert(id, old(self)@[id] + payload_views(added)));
                },
                None => {},
            }
        }
    }

    /// Removes and returns every record of the slot of `id`, leaving the slot
    /// empty; an `id` without a slot gives no record and changes nothing.
    pub fn drain(&mut self, id: SubscriptionID) -> (r: Vec<EventPayLoad>)
        ensures
            (payload_views(r@), final(self)@) == slot_drained(old(self)@, id),
    {
        if slots_contains(&self.slots, &id) {
            let taken = slots_insert(&mut self.slots, id, Vec::new());
            proof { lemma_no_payload_views(); }
            assert(self@ =~= old(self)@.insert(id, Seq::empty()));
            match taken {
                Some(events) => events,
                None => Vec::new(),
            }
        } else {
            let r: Vec<EventPayLoad> = Vec::new();
            assert(payload_views(r@) =~= Seq::empty());
            r
        }
    }
}

} // verus!
