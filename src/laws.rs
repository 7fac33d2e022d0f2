//! What holds of the monitor across sequences of calls.
use crate::events::ManifestView;
use crate::ledger::TransactionView;
use crate::match_index::{SubscriptionID, slot_appended, slot_drained};
use crate::monitor::{MonitorView, next_height_after};
use crate::payload::{PayloadView, block_matches, rule_matches, transaction_matches, transition_matches};
use crate::subscription::SubscriptionView;
use vstd::prelude::*;

verus! {

/// The state after registering `subs` in order.
pub open spec fn added_all(m: MonitorView, subs: Seq<SubscriptionView>) -> MonitorView
    decreases subs.len(),
{
    if subs.len() == 0 {
        m
    } else {
        added_all(m, subs.drop_last()).added(subs.last())
    }
}

/// The state after scanning `blocks`, the transactions of the heights that
/// follow the cursor, in order.
pub open spec fn scanned_all(m: MonitorView, blocks: Seq<Seq<TransactionView>>) -> MonitorView
    decreases blocks.len(),
{
    if blocks.len() == 0 {
        m
    } else {
        scanned_all(m, blocks.drop_last()).scanned(blocks.last())
    }
}

/// The records that rules `defs` yield over `blocks`, the blocks at heights
/// `start + 1`, `start + 2`, ..., in height order.
pub open spec fn matches_over(defs: Seq<ManifestView>, start: u32, blocks: Seq<Seq<TransactionView>>) -> Seq<PayloadView>
    decreases blocks.len(),
{
    if blocks.len() == 0 {
        Seq::empty()
    } else {
        matches_over(defs, start, blocks.drop_last()) + block_matches(
            defs,
            (start + blocks.len()) as u32,
            blocks.last(),
        )
    }
}

/// Identifiers of `subs` are pairwise distinct and none is live in `m`.
pub open spec fn fresh_ids(m: MonitorView, subs: Seq<SubscriptionView>) -> bool {
    &&& forall|j: int, k: int|
        0 <= j < subs.len() && 0 <= k < subs.len() && j != k ==> #[trigger] subs[j].id != #[trigger] subs[k].id
    &&& forall|j: int| 0 <= j < subs.len() ==> !m.slots.contains_key(#[trigger] subs[j].id)
}

proof fn lemma_live_follows_subscriptions(a: MonitorView, b: MonitorView)
    requires
        a.subscriptions == b.subscriptions,
    ensures
        forall|x: SubscriptionID| #[trigger] a.is_live(x) == b.is_live(x),
{
    assert forall|x: SubscriptionID| #[trigger] a.is_live(x) == b.is_live(x) by {
        if a.is_live(x) {
            let j = choose|j: int| 0 <= j < a.subscriptions.len() && #[trigger] a.subscriptions[j].id == x;
            assert(b.subscriptions[j].id == x);
        }
        if b.is_live(x) {
            let j = choose|j: int| 0 <= j < b.subscriptions.len() && #[trigger] b.subscriptions[j].id == x;
            assert(a.subscriptions[j].id == x);
        }
    }
}

/// Registering a subscription whose identifier is not live keeps the state
/// well formed, gives it an empty slot and its own rules, and leaves every
/// other slot and every other subscription's rules as they were.
pub proof fn lemma_added(m: MonitorView, s: SubscriptionView)
    requires
        m.wf(),
        !m.slots.contains_key(s.id),
    ensures
        m.added(s).wf(),
        m.added(s).slots.contains_key(s.id),
        m.added(s).slots[s.id] == Seq::<PayloadView>::empty(),
        m.added(s).definitions_of(s.id) == s.definitions,
        m.added(s).cursor == m.cursor,
        forall|id: SubscriptionID| #[trigger] m.slots.contains_key(id) ==> m.added(s).slots.contains_key(id)
            && m.added(s).slots[id] == m.slots[id] && m.added(s).definitions_of(id) == m.definitions_of(id),
{
    let a = m.added(s);
    let n = m.subscriptions.len() as int;
    assert(a.subscriptions[n] == s);
    assert(!m.is_live(s.id));
    assert forall|j: int, k: int|
        0 <= j < a.subscriptions.len() && 0 <= k < a.subscriptions.len() && j != k
            implies #[trigger] a.subscriptions[j].id != #[trigger] a.subscriptions[k].id by {
        if j == n {
            assert(m.subscriptions[k].id == a.subscriptions[k].id);
        } else if k == n {
            assert(m.subscriptions[j].id == a.subscriptions[j].id);
        } else {
            assert(m.subscriptions[j].id == a.subscriptions[j].id);
            assert(m.subscriptions[k].id == a.subscriptions[k].id);
        }
    }
    assert forall|x: SubscriptionID| #[trigger] a.slots.contains_key(x) <==> a.is_live(x) by {
        if a.slots.contains_key(x) && x != s.id {
            assert(m.slots.contains_key(x));
            let j = choose|j: int| 0 <= j < m.subscriptions.len() && #[trigger] m.subscriptions[j].id == x;
            assert(a.subscriptions[j].id == x);
        }
        if a.is_live(x) && x != s.id {
            let j = choose|j: int| 0 <= j < a.subscriptions.len() && #[trigger] a.subscriptions[j].id == x;
            assert(m.subscriptions[j].id == x);
            assert(m.is_live(x));
        }
        if x == s.id {
            assert(a.subscriptions[n].id == x);
        }
    }
    assert(a.is_live(s.id));
    let js = choose|j: int| 0 <= j < a.subscriptions.len() && #[trigger] a.subscriptions[j].id == s.id;
    assert(js == n);
    assert forall|id: SubscriptionID| #[trigger] m.slots.contains_key(id) implies a.slots.contains_key(id)
        && a.slots[id] == m.slots[id] && a.definitions_of(id) == m.definitions_of(id) by {
        assert(m.is_live(id));
        let j = choose|j: int| 0 <= j < m.subscriptions.len() && #[trigger] m.subscriptions[j].id == id;
        assert(a.subscriptions[j].id == id);
        let ja = choose|j: int| 0 <= j < a.subscriptions.len() && #[trigger] a.subscriptions[j].id == id;
        assert(ja == j);
    }
}

/// Scanning one block keeps the state well formed and the subscriptions as
/// they were, moves the cursor by one, and appends to each live slot exactly
/// the block's matches for that subscription's rules.
pub proof fn lemma_scanned(m: MonitorView, txs: Seq<TransactionView>)
    requires
        m.wf(),
        m.cursor < u32::MAX,
    ensures
        m.scanned(txs).wf(),
        m.scanned(txs).subscriptions == m.subscriptions,
        m.scanned(txs).cursor == m.cursor + 1,
        forall|id: SubscriptionID| #[trigger] m.scanned(txs).slots.contains_key(id) == m.slots.contains_key(id),
        forall|id: SubscriptionID| #[trigger] m.slots.contains_key(id) ==> m.scanned(txs).slots[id]
            == m.slots[id] + block_matches(m.definitions_of(id), (m.cursor + 1) as u32, txs),
{
    let r = m.scanned(txs);
    lemma_live_follows_subscriptions(r, m);
    assert forall|x: SubscriptionID| #[trigger] r.slots.contains_key(x) <==> r.is_live(x) by {
        assert(r.slots.contains_key(x) == m.slots.contains_key(x));
        assert(r.is_live(x) == m.is_live(x));
    }
}

/// Scanning any number of blocks appends to a live slot exactly the matches
/// of its subscription's rules over those blocks, in height order.
pub proof fn lemma_scanned_all(m: MonitorView, blocks: Seq<Seq<TransactionView>>, id: SubscriptionID)
    requires
        m.wf(),
        m.slots.contains_key(id),
        m.cursor + blocks.len() <= u32::MAX,
    ensures
        scanned_all(m, blocks).wf(),
        scanned_all(m, blocks).subscriptions == m.subscriptions,
        scanned_all(m, blocks).cursor == m.cursor + blocks.len(),
        scanned_all(m, blocks).slots.contains_key(id),
        scanned_all(m, blocks).slots[id] == m.slots[id] + matches_over(m.definitions_of(id), m.cursor, blocks),
    decreases blocks.len(),
{
    if blocks.len() == 0 {
        assert(m.slots[id] + Seq::<PayloadView>::empty() =~= m.slots[id]);
    } else {
        let p = blocks.drop_last();
        lemma_scanned_all(m, p, id);
        let q = scanned_all(m, p);
        lemma_scanned(q, blocks.last());
        assert(q.definitions_of(id) == m.definitions_of(id));
        let defs = m.definitions_of(id);
        let b = block_matches(defs, (m.cursor + blocks.len()) as u32, blocks.last());
        assert(m.slots[id] + matches_over(defs, m.cursor, p) + b =~= m.slots[id] + (matches_over(
            defs,
            m.cursor,
            p,
        ) + b));
    }
}

/// Registering subscriptions with fresh, distinct identifiers gives each an
/// empty slot and its own rules.
pub proof fn lemma_added_all(m: MonitorView, subs: Seq<SubscriptionView>)
    requires
        m.wf(),
        fresh_ids(m, subs),
    ensures
        added_all(m, subs).wf(),
        added_all(m, subs).cursor == m.cursor,
        forall|id: SubscriptionID| #[trigger] m.slots.contains_key(id) ==> added_all(m, subs).slots.contains_key(id)
            && added_all(m, subs).slots[id] == m.slots[id],
        forall|id: SubscriptionID|
            !m.slots.contains_key(id) && (forall|k: int| 0 <= k < subs.len() ==> #[trigger] subs[k].id != id)
                ==> !(#[trigger] added_all(m, subs).slots.contains_key(id)),
        forall|k: int| 0 <= k < subs.len() ==> added_all(m, subs).slots.contains_key(#[trigger] subs[k].id)
            && added_all(m, subs).slots[subs[k].id] == Seq::<PayloadView>::empty()
            && added_all(m, subs).definitions_of(subs[k].id) == subs[k].definitions,
    decreases subs.len(),
{
    if subs.len() > 0 {
        let p = subs.drop_last();
        let s = subs.last();
        assert forall|j: int, k: int| 0 <= j < p.len() && 0 <= k < p.len() && j != k implies #[trigger] p[j].id
            != #[trigger] p[k].id by {
            assert(subs[j].id != subs[k].id);
        }
        assert forall|j: int| 0 <= j < p.len() implies !m.slots.contains_key(#[trigger] p[j].id) by {
            assert(!m.slots.contains_key(subs[j].id));
        }
        lemma_added_all(m, p);
        let q = added_all(m, p);
        assert(!m.slots.contains_key(subs[subs.len() - 1].id));
        assert forall|k: int| 0 <= k < p.len() implies #[trigger] p[k].id != s.id by {
            assert(subs[k].id != subs[subs.len() - 1].id);
        }
        assert(!q.slots.contains_key(s.id));
        lemma_added(q, s);
        assert forall|id: SubscriptionID|
            !m.slots.contains_key(id) && (forall|k: int| 0 <= k < subs.len() ==> #[trigger] subs[k].id != id)
                implies !(#[trigger] added_all(m, subs).slots.contains_key(id)) by {
            assert forall|k: int| 0 <= k < p.len() implies #[trigger] p[k].id != id by {
                assert(subs[k].id != id);
            }
            assert(subs[subs.len() - 1].id != id);
        }
        assert forall|k: int| 0 <= k < subs.len() implies added_all(m, subs).slots.contains_key(#[trigger] subs[k].id)
            && added_all(m, subs).slots[subs[k].id] == Seq::<PayloadView>::empty()
            && added_all(m, subs).definitions_of(subs[k].id) == subs[k].definitions by {
            if k < p.len() {
                assert(p[k] == subs[k]);
                assert(q.slots.contains_key(p[k].id));
            }
        }
    }
}

/// Matching: once subscriptions with fresh, distinct identifiers are
/// registered and any number of blocks are scanned, draining one of them
/// returns exactly the records that its rules yield over those blocks, in
/// height, transaction, transition and rule order, and nothing else.
pub proof fn lemma_drain_after_adds_and_scans(
    m: MonitorView,
    subs: Seq<SubscriptionView>,
    blocks: Seq<Seq<TransactionView>>,
    k: int,
)
    requires
        m.wf(),
        fresh_ids(m, subs),
        0 <= k < subs.len(),
        m.cursor + blocks.len() <= u32::MAX,
    ensures
        scanned_all(added_all(m, subs), blocks).drained(subs[k].id).0 == matches_over(
            subs[k].definitions,
            m.cursor,
            blocks,
        ),
{
    lemma_added_all(m, subs);
    let a = added_all(m, subs);
    assert(a.slots.contains_key(subs[k].id));
    lemma_scanned_all(a, blocks, subs[k].id);
    assert(Seq::<PayloadView>::empty() + matches_over(subs[k].definitions, m.cursor, blocks) =~= matches_over(
        subs[k].definitions,
        m.cursor,
        blocks,
    ));
}

/// Draining twice in a row: the first call returns the whole slot, the second
/// returns nothing, so no record is returned twice.
pub proof fn lemma_drain_twice(m: MonitorView, id: SubscriptionID)
    requires
        m.wf(),
    ensures
        m.drained(id).0 == if m.slots.contains_key(id) {
            m.slots[id]
        } else {
            Seq::<PayloadView>::empty()
        },
        m.drained(id).1.wf(),
        m.drained(id).1.drained(id).0 == Seq::<PayloadView>::empty(),
{
    let r = m.drained(id).1;
    lemma_live_follows_subscriptions(r, m);
    assert forall|x: SubscriptionID| #[trigger] r.slots.contains_key(x) <==> r.is_live(x) by {
        assert(r.slots.contains_key(x) == m.slots.contains_key(x));
    }
}

/// Draining an identifier that was never registered returns nothing and
/// changes nothing.
pub proof fn lemma_drain_unregistered(m: MonitorView, id: SubscriptionID)
    requires
        m.wf(),
        !m.is_live(id),
    ensures
        m.drained(id) == (Seq::<PayloadView>::empty(), m),
{
}

/// How many blocks a polling cycle scans when it finds the ledger at
/// `ledger_height`: every height above the cursor, none when the ledger is
/// not ahead.
pub open spec fn cycle_length(cursor: u32, ledger_height: u32) -> nat {
    if cursor < ledger_height {
        (ledger_height - cursor) as nat
    } else {
        0
    }
}

/// The state after polling cycles that found the ledger at `heights`, cycle
/// `c` scanning the blocks `blocks[c]`.
pub open spec fn cycles_done(m: MonitorView, heights: Seq<u32>, blocks: Seq<Seq<Seq<TransactionView>>>) -> MonitorView
    decreases heights.len(),
{
    if heights.len() == 0 || blocks.len() != heights.len() {
        m
    } else {
        scanned_all(cycles_done(m, heights.drop_last(), blocks.drop_last()), blocks.last())
    }
}

/// Every cycle scanned exactly the blocks that the ledger height it found
/// called for.
pub open spec fn cycles_complete(m: MonitorView, heights: Seq<u32>, blocks: Seq<Seq<Seq<TransactionView>>>) -> bool
    decreases heights.len(),
{
    &&& blocks.len() == heights.len()
    &&& heights.len() > 0 ==> {
        &&& cycles_complete(m, heights.drop_last(), blocks.drop_last())
        &&& blocks.last().len() == cycle_length(
            cycles_done(m, heights.drop_last(), blocks.drop_last()).cursor,
            heights.last(),
        )
    }
}

/// The largest of `c` and `heights`.
pub open spec fn highest(c: u32, heights: Seq<u32>) -> u32
    decreases heights.len(),
{
    if heights.len() == 0 {
        c
    } else {
        let h = highest(c, heights.drop_last());
        if h < heights.last() {
            heights.last()
        } else {
            h
        }
    }
}

/// Scanning blocks keeps the state well formed and the subscriptions as they
/// were, and moves the cursor by one per block.
pub proof fn lemma_scanned_all_cursor(m: MonitorView, blocks: Seq<Seq<TransactionView>>)
    requires
        m.wf(),
        m.cursor + blocks.len() <= u32::MAX,
    ensures
        scanned_all(m, blocks).wf(),
        scanned_all(m, blocks).subscriptions == m.subscriptions,
        scanned_all(m, blocks).cursor == m.cursor + blocks.len(),
    decreases blocks.len(),
{
    if blocks.len() > 0 {
        lemma_scanned_all_cursor(m, blocks.drop_last());
        lemma_scanned(scanned_all(m, blocks.drop_last()), blocks.last());
    }
}

/// One polling cycle: the monitor asks for each height above the cursor in
/// turn, up to the ledger height it found, and then for none; the cursor ends
/// at that height, or stays where it was when the ledger was not ahead.
pub proof fn lemma_cycle(m: MonitorView, ledger_height: u32, blocks: Seq<Seq<TransactionView>>)
    requires
        m.wf(),
        blocks.len() == cycle_length(m.cursor, ledger_height),
    ensures
        forall|i: int|
            0 <= i < blocks.len() ==> next_height_after(#[trigger] scanned_all(m, blocks.take(i)).cursor, ledger_height)
                == Some((m.cursor + i + 1) as u32),
        next_height_after(scanned_all(m, blocks).cursor, ledger_height) == None::<u32>,
        scanned_all(m, blocks).wf(),
        scanned_all(m, blocks).cursor == if m.cursor < ledger_height {
            ledger_height
        } else {
            m.cursor
        },
{
    assert forall|i: int| 0 <= i < blocks.len() implies next_height_after(
        #[trigger] scanned_all(m, blocks.take(i)).cursor,
        ledger_height,
    ) == Some((m.cursor + i + 1) as u32) by {
        lemma_scanned_all_cursor(m, blocks.take(i));
    }
    lemma_scanned_all_cursor(m, blocks);
}

/// The cursor over many polling cycles: it never decreases, and after the
/// last cycle it stands at the highest ledger height any cycle found (or
/// where it started, if that is higher).
pub proof fn lemma_cycles(m: MonitorView, heights: Seq<u32>, blocks: Seq<Seq<Seq<TransactionView>>>)
    requires
        m.wf(),
        cycles_complete(m, heights, blocks),
    ensures
        cycles_done(m, heights, blocks).wf(),
        cycles_done(m, heights, blocks).cursor == highest(m.cursor, heights),
        cycles_done(m, heights, blocks).cursor >= m.cursor,
    decreases heights.len(),
{
    if heights.len() > 0 {
        lemma_cycles(m, heights.drop_last(), blocks.drop_last());
        lemma_cycle(cycles_done(m, heights.drop_last(), blocks.drop_last()), heights.last(), blocks.last());
    }
}

/// Over an append-only ledger, whose height never falls below the cursor or
/// an earlier reading, the cursor after the last cycle equals the height that
/// cycle found.
pub proof fn lemma_cycles_follow_ledger(m: MonitorView, heights: Seq<u32>, blocks: Seq<Seq<Seq<TransactionView>>>)
    requires
        m.wf(),
        cycles_complete(m, heights, blocks),
        heights.len() > 0,
        m.cursor <= heights[0],
        forall|i: int, j: int| 0 <= i <= j < heights.len() ==> heights[i] <= heights[j],
    ensures
        cycles_done(m, heights, blocks).cursor == heights.last(),
{
    lemma_cycles(m, heights, blocks);
    lemma_highest_of_rising(m.cursor, heights);
}

proof fn lemma_highest_of_rising(c: u32, heights: Seq<u32>)
    requires
        heights.len() > 0,
        c <= heights[0],
        forall|i: int, j: int| 0 <= i <= j < heights.len() ==> heights[i] <= heights[j],
    ensures
        highest(c, heights) == heights.last(),
    decreases heights.len(),
{
    if heights.len() > 1 {
        let p = heights.drop_last();
        assert forall|i: int, j: int| 0 <= i <= j < p.len() implies p[i] <= p[j] by {
            assert(heights[i] <= heights[j]);
        }
        lemma_highest_of_rising(c, p);
        assert(heights[heights.len() - 2] <= heights[heights.len() - 1]);
    } else {
        assert(highest(c, heights.drop_last()) == c);
    }
}

/// One operation on a slot: appending records, or draining it.
pub enum SlotOp {
    Append(Seq<PayloadView>),
    Drain,
}

/// Running `ops` in order on the slot of `id`: everything the drains
/// returned, one drain after another, and the slots at the end.
pub open spec fn run_slot_ops(slots: Map<SubscriptionID, Seq<PayloadView>>, id: SubscriptionID, ops: Seq<SlotOp>) -> (
    Seq<PayloadView>,
    Map<SubscriptionID, Seq<PayloadView>>,
)
    decreases ops.len(),
{
    if ops.len() == 0 {
        (Seq::empty(), slots)
    } else {
        let (returned, now) = run_slot_ops(slots, id, ops.drop_last());
        match ops.last() {
            SlotOp::Append(events) => (returned, slot_appended(now, id, events)),
            SlotOp::Drain => (returned + slot_drained(now, id).0, slot_drained(now, id).1),
        }
    }
}

/// The records that the appends of `ops` hand in, in order.
pub open spec fn appended_by(ops: Seq<SlotOp>) -> Seq<PayloadView>
    decreases ops.len(),
{
    if ops.len() == 0 {
        Seq::empty()
    } else {
        match ops.last() {
            SlotOp::Append(events) => appended_by(ops.drop_last()) + events,
            SlotOp::Drain => appended_by(ops.drop_last()),
        }
    }
}

/// Appends and drains interleaved on one live slot: what the drains returned,
/// followed by what is left in the slot, is exactly what was in it plus every
/// appended record, in append order. So no record is returned twice and none
/// is lost, and each drain returns what came in since the one before it.
pub proof fn lemma_slot_ops(slots: Map<SubscriptionID, Seq<PayloadView>>, id: SubscriptionID, ops: Seq<SlotOp>)
    requires
        slots.contains_key(id),
    ensures
        run_slot_ops(slots, id, ops).1.contains_key(id),
        run_slot_ops(slots, id, ops).0 + run_slot_ops(slots, id, ops).1[id] == slots[id] + appended_by(ops),
    decreases ops.len(),
{
    if ops.len() == 0 {
        assert(Seq::<PayloadView>::empty() + slots[id] =~= slots[id] + Seq::<PayloadView>::empty());
    } else {
        let p = ops.drop_last();
        lemma_slot_ops(slots, id, p);
        let (returned, now) = run_slot_ops(slots, id, p);
        match ops.last() {
            SlotOp::Append(events) => {
                assert(returned + (now[id] + events) =~= (returned + now[id]) + events);
                assert(slots[id] + appended_by(p) + events =~= slots[id] + (appended_by(p) + events));
            },
            SlotOp::Drain => {
                assert(returned + now[id] + Seq::<PayloadView>::empty() =~= returned + now[id]);
            },
        }
    }
}

/// Appending to an identifier without a slot changes nothing, so a later
/// drain of any identifier returns what it would have returned anyway.
pub proof fn lemma_append_unregistered(
    slots: Map<SubscriptionID, Seq<PayloadView>>,
    unknown: SubscriptionID,
    events: Seq<PayloadView>,
    id: SubscriptionID,
)
    requires
        !slots.contains_key(unknown),
    ensures
        slot_appended(slots, unknown, events) == slots,
        slot_drained(slot_appended(slots, unknown, events), id) == slot_drained(slots, id),
{
}

proof fn lemma_flatten_of_empties<A>(s: Seq<Seq<A>>)
    requires
        forall|i: int| 0 <= i < s.len() ==> (#[trigger] s[i]).len() == 0,
    ensures
        s.flatten() == Seq::<A>::empty(),
    decreases s.len(),
{
    if s.len() > 0 {
        lemma_flatten_of_empties(s.drop_first());
        assert(s.first() + Seq::<A>::empty() =~= Seq::<A>::empty());
    }
}

proof fn lemma_no_rule_matches(defs: Seq<ManifestView>, height: u32, tx: Seq<char>, t: crate::ledger::TransitionView)
    requires
        forall|k: int| 0 <= k < defs.len() ==> !rule_matches(#[trigger] defs[k], t),
    ensures
        transition_matches(defs, height, tx, t).len() == 0,
    decreases defs.len(),
{
    let pred = |m: ManifestView| rule_matches(m, t);
    if defs.len() == 0 {
        assert(defs.filter(pred) =~= Seq::<ManifestView>::empty()) by {
            reveal(Seq::filter);
        }
    } else {
        let p = defs.drop_last();
        lemma_no_rule_matches(p, height, tx, t);
        assert(defs =~= p.push(defs.last()));
        p.lemma_filter_push(defs.last(), pred);
    }
}

/// No transition of `blocks` satisfies any rule of `defs`.
pub open spec fn no_match_in(defs: Seq<ManifestView>, blocks: Seq<Seq<TransactionView>>) -> bool {
    forall|b: int, i: int, j: int, k: int|
        0 <= b < blocks.len() && 0 <= i < blocks[b].len() && 0 <= j < blocks[b][i].transitions.len() && 0 <= k
            < defs.len() ==> !rule_matches(#[trigger] defs[k], #[trigger] blocks[b][i].transitions[j])
}

proof fn lemma_matches_over_none(defs: Seq<ManifestView>, start: u32, blocks: Seq<Seq<TransactionView>>)
    requires
        no_match_in(defs, blocks),
    ensures
        matches_over(defs, start, blocks) == Seq::<PayloadView>::empty(),
    decreases blocks.len(),
{
    if blocks.len() > 0 {
        let p = blocks.drop_last();
        assert(no_match_in(defs, p)) by {
            assert forall|b: int, i: int, j: int, k: int|
                0 <= b < p.len() && 0 <= i < p[b].len() && 0 <= j < p[b][i].transitions.len() && 0 <= k < defs.len()
                    implies !rule_matches(#[trigger] defs[k], #[trigger] p[b][i].transitions[j]) by {
                assert(p[b] == blocks[b]);
            }
        }
        lemma_matches_over_none(defs, start, p);
        let b = blocks.len() - 1;
        let txs = blocks.last();
        let height = (start + blocks.len()) as u32;
        let ft = |tx: TransactionView| transaction_matches(defs, height, tx);
        assert forall|i: int| 0 <= i < txs.map_values(ft).len() implies (#[trigger] txs.map_values(ft)[i]).len() == 0 by {
            let tx = txs[i];
            let fm = |t: crate::ledger::TransitionView| transition_matches(defs, height, tx.id, t);
            assert forall|j: int| 0 <= j < tx.transitions.map_values(fm).len() implies (
            #[trigger] tx.transitions.map_values(fm)[j]).len() == 0 by {
                assert forall|k: int| 0 <= k < defs.len() implies !rule_matches(#[trigger] defs[k], tx.transitions[j]) by {
                    assert(blocks[b][i].transitions[j] == tx.transitions[j]);
                }
                lemma_no_rule_matches(defs, height, tx.id, tx.transitions[j]);
            }
            lemma_flatten_of_empties(tx.transitions.map_values(fm));
        }
        lemma_flatten_of_empties(txs.map_values(ft));
        assert(Seq::<PayloadView>::empty() + Seq::<PayloadView>::empty() =~= Seq::<PayloadView>::empty());
    }
}

/// Two subscriptions registered with fresh, distinct identifiers: when no
/// transition of the scanned blocks satisfies any rule of the second, draining
/// it returns nothing, while draining the first returns exactly its matches.
pub proof fn lemma_disjoint_subscriptions(
    m: MonitorView,
    first: SubscriptionView,
    second: SubscriptionView,
    blocks: Seq<Seq<TransactionView>>,
)
    requires
        m.wf(),
        fresh_ids(m, seq![first, second]),
        m.cursor + blocks.len() <= u32::MAX,
        no_match_in(second.definitions, blocks),
    ensures
        scanned_all(added_all(m, seq![first, second]), blocks).drained(second.id).0 == Seq::<PayloadView>::empty(),
        scanned_all(added_all(m, seq![first, second]), blocks).drained(first.id).0 == matches_over(
            first.definitions,
            m.cursor,
            blocks,
        ),
{
    lemma_drain_after_adds_and_scans(m, seq![first, second], blocks, 0);
    lemma_drain_after_adds_and_scans(m, seq![first, second], blocks, 1);
    lemma_matches_over_none(second.definitions, m.cursor, blocks);
}

} // verus!
