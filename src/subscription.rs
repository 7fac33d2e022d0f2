use crate::events::{EventManifest, EventManifests, ManifestView, manifest_views};
use crate::display::{hex_text, id_text};
use crate::match_index::SubscriptionID;
use vstd::prelude::*;

verus! {

/// Relies on `rand::random`: 32 bytes from the thread-local CSPRNG. Nothing is
/// known of their value.
#[verifier::external_body]
fn random_id() -> (r: SubscriptionID) {
    rand::random::<[u8; 32]>()
}

/// A client's registration: a fresh identifier and its ordered rules, neither
/// of which changes after creation.
#[derive(Clone, Debug)]
pub struct Subscription {
    id: SubscriptionID,
    events: EventManifests,
}

pub struct SubscriptionView {
    pub id: SubscriptionID,
    pub definitions: Seq<ManifestView>,
}

impl View for Subscription {
    type V = SubscriptionView;

    closed spec fn view(&self) -> SubscriptionView {
        SubscriptionView { id: self.id, definitions: self.events@ }
    }
}

/// The rules' names, separated by `, `.
pub open spec fn names_text(defs: Seq<ManifestView>) -> Seq<char>
    decreases defs.len(),
{
    if defs.len() == 0 {
        Seq::empty()
    } else if defs.len() == 1 {
        defs[0].name
    } else {
        names_text(defs.drop_last()) + seq![',', ' '] + defs.last().name
    }
}

/// `{"id:" <id in hexadecimal>, ":" [<rule names>]}`.
pub open spec fn subscription_text(s: SubscriptionView) -> Seq<char> {
    seq!['{', '"', 'i', 'd', ':', '"', ' '] + hex_text(s.id@) + seq![',', ' ', '"', ':', '"', ' ', '['] + names_text(
        s.definitions,
    ) + seq![']', '}']
}

impl Subscription {
    /// A subscription to `events` under an identifier drawn at random.
    pub fn new(events: EventManifests) -> (r: Subscription)
        ensures
            r@.definitions == events@,
    {
        Subscription { id: random_id(), events }
    }

    pub fn id(&self) -> (r: &SubscriptionID)
        ensures
            *r == self@.id,
    {
        &self.id
    }

    /// The subscription as text, for log lines.
    pub fn to_string(&self) -> (r: String)
        ensures
            r@ == subscription_text(self@),
    {
        let mut r = String::from_str("{\"id:\" ");
        r.append(id_text(&self.id).as_str());
        r.append(", \":\" [");
        proof {
            reveal_strlit("{\"id:\" ");
            reveal_strlit(", \":\" [");
            reveal_strlit(", ");
            reveal_strlit("]}");
        }
        let ghost head = r@;
        assert(head =~= seq!['{', '"', 'i', 'd', ':', '"', ' '] + hex_text(self@.id@) + seq![',', ' ', '"', ':', '"', ' ', '[']);
        let defs = self.events();
        let ghost mv = manifest_views(defs@);
        let mut i: usize = 0;
        while i < defs.len()
            invariant
                i <= defs.len(),
                mv == manifest_views(defs@),
                mv == self@.definitions,
                r@ == head + names_text(mv.take(i as int)),
                ", "@ == seq![',', ' '],
            decreases defs.len() - i,
        {
            if i > 0 {
                r.append(", ");
            }
            r.append(defs[i].name.as_str());
            proof {
                assert(mv.take(i + 1).drop_last() =~= mv.take(i as int));
                assert(mv[i as int].name == defs@[i as int].name@);
                if i == 0 {
                    assert(mv.take(1).len() == 1);
                    assert(names_text(mv.take(0)) =~= Seq::<char>::empty());
                    assert(r@ =~= head + names_text(mv.take(i + 1)));
                } else {
                    assert(r@ =~= head + names_text(mv.take(i + 1)));
                }
            }
            i = i + 1;
        }
        r.append("]}");
        assert(mv.take(defs.len() as int) =~= mv);
        assert(r@ =~= subscription_text(self@));
        r
    }

    pub fn events(&self) -> (r: &Vec<EventManifest>)
        ensures
            manifest_views(r@) == self@.definitions,
    {
        self.events.manifests()
    }
}

} // verus!
