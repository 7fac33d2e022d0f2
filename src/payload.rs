use crate::events::{EventManifest, ManifestView, manifest_views};
use crate::ledger::{Transaction, TransactionView, Transition, TransitionView, block_view};
use indexmap::IndexMap;
use vstd::prelude::*;

verus! {

/// A record of one transition that satisfied one rule of a subscription.
#[derive(Clone, Debug)]
pub struct EventPayLoad {
    /// The rule's name.
    pub event_type: String,
    /// The rule's description, as the subscriber's context.
    pub context: String,
    pub program: String,
    /// Height of the block the transition was found in.
    pub block_height: u32,
    pub function_id: String,
    pub transaction: String,
    pub transition: String,
    pub inputs: Option<IndexMap<u32, String>>,
    pub outputs: Option<IndexMap<u32, String>>,
}

pub struct PayloadView {
    pub event_type: Seq<char>,
    pub context: Seq<char>,
    pub program: Seq<char>,
    pub block_height: u32,
    pub function_id: Seq<char>,
    pub transaction: Seq<char>,
    pub transition: Seq<char>,
    pub inputs: Option<IndexMap<u32, String>>,
    pub outputs: Option<IndexMap<u32, String>>,
}

impl View for EventPayLoad {
    type V = PayloadView;

    open spec fn view(&self) -> PayloadView {
        PayloadView {
            event_type: self.event_type@,
            context: self.context@,
            program: self.program@,
            block_height: self.block_height,
            function_id: self.function_id@,
            transaction: self.transaction@,
            transition: self.transition@,
            inputs: self.inputs,
            outputs: self.outputs,
        }
    }
}

/// The views of a sequence of payloads, in order.
pub open spec fn payload_views(s: Seq<EventPayLoad>) -> Seq<PayloadView> {
    s.map_values(|p: EventPayLoad| p@)
}

impl EventPayLoad {
    #[allow(clippy::too_many_arguments)]
    pub fn new(
        event_type: String,
        context: String,
        program: String,
        block_height: u32,
        function_id: String,
        transaction: String,
        transition: String,
        inputs: Option<IndexMap<u32, String>>,
        outputs: Option<IndexMap<u32, String>>,
    ) -> (r: EventPayLoad)
        ensures
            r@ == (PayloadView {
                event_type: event_type@,
                context: context@,
                program: program@,
                block_height,
                function_id: function_id@,
                transaction: transaction@,
                transition: transition@,
                inputs,
                outputs,
            }),
    {
        EventPayLoad {
            event_type,
            context,
            program,
            block_height,
            function_id,
            transaction,
            transition,
            inputs,
            outputs,
        }
    }
}

/// A transition satisfies a rule when it calls the rule's function of the
/// rule's program.
pub open spec fn rule_matches(m: ManifestView, t: TransitionView) -> bool {
    m.program == t.program && m.function == t.function
}

/// The record of transition `t` of transaction `tx` at `height` matching rule `m`.
pub open spec fn payload_of(m: ManifestView, height: u32, tx: Seq<char>, t: TransitionView) -> PayloadView {
    PayloadView {
        event_type: m.name,
        context: m.description,
        program: m.program,
        block_height: height,
        function_id: m.function,
        transaction: tx,
        transition: t.id,
        inputs: None,
        outputs: None,
    }
}

/// One record per rule that the transition satisfies, in rule order.
pub open spec fn transition_matches(
    defs: Seq<ManifestView>,
    height: u32,
    tx: Seq<char>,
    t: TransitionView,
) -> Seq<PayloadView> {
    defs.filter(|m: ManifestView| rule_matches(m, t)).map_values(
        |m: ManifestView| payload_of(m, height, tx, t),
    )
}

/// The records of a transaction, transition after transition.
pub open spec fn transaction_matches(defs: Seq<ManifestView>, height: u32, tx: TransactionView) -> Seq<PayloadView> {
    tx.transitions.map_values(|t: TransitionView| transition_matches(defs, height, tx.id, t)).flatten()
}

/// The records of a block, transaction after transaction.
pub open spec fn block_matches(defs: Seq<ManifestView>, height: u32, txs: Seq<TransactionView>) -> Seq<PayloadView> {
    txs.map_values(|tx: TransactionView| transaction_matches(defs, height, tx)).flatten()
}

proof fn lemma_map_push<A, B>(s: Seq<A>, x: A, f: spec_fn(A) -> B)
    ensures
        s.push(x).map_values(f) == s.map_values(f).push(f(x)),
{
    assert(s.push(x).map_values(f) =~= s.map_values(f).push(f(x)));
}

proof fn lemma_map_take_succ<A, B>(s: Seq<A>, i: int, f: spec_fn(A) -> B)
    requires
        0 <= i < s.len(),
    ensures
        s.take(i + 1).map_values(f) == s.take(i).map_values(f).push(f(s[i])),
{
    assert(s.take(i + 1) =~= s.take(i).push(s[i]));
    lemma_map_push(s.take(i), s[i], f);
}

fn push_transition_matches(
    defs: &Vec<EventManifest>,
    height: u32,
    tx: &String,
    t: &Transition,
    out: &mut Vec<EventPayLoad>,
)
    ensures
        payload_views(final(out)@) == payload_views(old(out)@) + transition_matches(
            manifest_views(defs@),
            height,
            tx@,
            t@,
        ),
{
    let ghost mv = manifest_views(defs@);
    let ghost pred = |m: ManifestView| rule_matches(m, t@);
    let ghost f = |m: ManifestView| payload_of(m, height, tx@, t@);
    let ghost out0 = payload_views(out@);
    let mut i: usize = 0;
    while i < defs.len()
        invariant
            i <= defs.len(),
            mv == manifest_views(defs@),
            forall|m: ManifestView| #[trigger] f(m) == payload_of(m, height, tx@, t@),
            forall|m: ManifestView| #[trigger] pred(m) == rule_matches(m, t@),
            payload_views(out@) == out0 + mv.take(i as int).filter(pred).map_values(f),
        decreases defs.len() - i,
    {
        let d = &defs[i];
        proof {
            assert(mv.take(i + 1) =~= mv.take(i as int).push(mv[i as int]));
            mv.take(i as int).lemma_filter_push(mv[i as int], pred);
        }
        if d.program == t.program && d.function == t.function {
            let p = EventPayLoad::new(
                d.name.clone(),
                d.description.clone(),
                d.program.clone(),
                height,
                d.function.clone(),
                tx.clone(),
                t.id.clone(),
                None,
                None,
            );
            let ghost prev = out@;
            proof {
                lemma_map_push(out@, p, |p: EventPayLoad| p@);
                lemma_map_push(mv.take(i as int).filter(pred), mv[i as int], f);
                assert(p@ == f(mv[i as int]));
            }
            out.push(p);
            assert(payload_views(out@) == payload_views(prev).push(p@));
            assert(payload_views(out@) =~= out0 + mv.take(i + 1).filter(pred).map_values(f));
        } else {
            assert(!pred(mv[i as int]));
        }
        i = i + 1;
    }
    assert(mv.take(defs.len() as int) =~= mv);
}

fn push_transaction_matches(
    defs: &Vec<EventManifest>,
    height: u32,
    tx: &Transaction,
    out: &mut Vec<EventPayLoad>,
)
    ensures
        payload_views(final(out)@) == payload_views(old(out)@) + transaction_matches(
            manifest_views(defs@),
            height,
            tx@,
        ),
{
    let ghost mv = manifest_views(defs@);
    let ghost ts = tx@.transitions;
    let ghost f = |t: TransitionView| transition_matches(mv, height, tx@.id, t);
    let ghost out0 = payload_views(out@);
    let mut j: usize = 0;
    while j < tx.transitions.len()
        invariant
            j <= tx.transitions.len(),
            ts == tx@.transitions,
            mv == manifest_views(defs@),
            ts.len() == tx.transitions.len(),
            forall|t: TransitionView| #[trigger] f(t) == transition_matches(mv, height, tx@.id, t),
            payload_views(out@) == out0 + ts.take(j as int).map_values(f).flatten(),
        decreases tx.transitions.len() - j,
    {
        let ghost prev = payload_views(out@);
        push_transition_matches(defs, height, &tx.id, &tx.transitions[j], out);
        proof {
            assert(f(ts[j as int]) == transition_matches(mv, height, tx.id@, tx.transitions@[j as int]@));
            lemma_map_take_succ(ts, j as int, f);
            ts.take(j as int).map_values(f).lemma_flatten_push(f(ts[j as int]));
            assert(payload_views(out@) == prev + f(ts[j as int]));
            assert(out0 + ts.take(j as int).map_values(f).flatten() + f(ts[j as int])
                =~= out0 + (ts.take(j as int).map_values(f).flatten() + f(ts[j as int])));
        }
        j = j + 1;
    }
    assert(ts.take(ts.len() as int) =~= ts);
}

/// The records that one block yields for one subscription's rules: for each
/// transaction, each transition and each rule in order, one record per match.
pub fn matches_in_block(defs: &Vec<EventManifest>, height: u32, txs: &Vec<Transaction>) -> (r: Vec<EventPayLoad>)
    ensures
        payload_views(r@) == block_matches(manifest_views(defs@), height, block_view(txs@)),
{
    let ghost bv = block_view(txs@);
    let ghost f = |tx: TransactionView| transaction_matches(manifest_views(defs@), height, tx);
    let mut out: Vec<EventPayLoad> = Vec::new();
    let mut k: usize = 0;
    assert(payload_views(out@) =~= Seq::<PayloadView>::empty());
    while k < txs.len()
        invariant
            k <= txs.len(),
            bv == block_view(txs@),
            bv.len() == txs.len(),
            forall|tx: TransactionView| #[trigger] f(tx) == transaction_matches(manifest_views(defs@), height, tx),
            payload_views(out@) == bv.take(k as int).map_values(f).flatten(),
        decreases txs.len() - k,
    {
        push_transaction_matches(defs, height, &txs[k], &mut out);
        proof {
            assert(f(bv[k as int]) == transaction_matches(manifest_views(defs@), height, txs@[k as int]@));
            lemma_map_take_succ(bv, k as int, f);
            bv.take(k as int).map_values(f).lemma_flatten_push(f(bv[k as int]));
        }
        k = k + 1;
    }
    assert(bv.take(bv.len() as int) =~= bv);
    out
}

} // verus!
