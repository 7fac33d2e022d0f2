use event_monitor::{
    fmt_id, id_text, parse_id_text, matches_in_block, ChainAction, EventManifest, EventManifests, EventPayLoad, MatchIndex, Monitor,
    Subscription, SubscriptionID, Transaction, Transition,
};

fn manifest(name: &str, program: &str, function: &str) -> EventManifest {
    EventManifest {
        name: name.to_string(),
        description: format!("Find {name}"),
        function: function.to_string(),
        program: program.to_string(),
        inputs: None,
        outputs: None,
        actions: vec![ChainAction::Notify],
    }
}

fn transition(id: &str, program: &str, function: &str) -> Transition {
    Transition { id: id.to_string(), program: program.to_string(), function: function.to_string() }
}

fn transaction(id: &str, transitions: Vec<Transition>) -> Transaction {
    Transaction { id: id.to_string(), transitions }
}

fn subscribe(monitor: &mut Monitor, manifests: Vec<EventManifest>) -> SubscriptionID {
    let subscription = Subscription::new(EventManifests::new(manifests));
    let id = *subscription.id();
    monitor.add(subscription);
    id
}

/// Runs one polling cycle against a ledger whose blocks are `blocks[0]` at
/// height 1, `blocks[1]` at height 2, and so on.
fn run_cycle(monitor: &mut Monitor, ledger_height: u32, blocks: &[Vec<Transaction>]) {
    while let Some(height) = monitor.next_height(ledger_height) {
        monitor.scan_next_block(&blocks[(height - 1) as usize]);
    }
}

fn payload(name: &str, height: u32) -> EventPayLoad {
    EventPayLoad::new(
        name.to_string(),
        String::new(),
        String::new(),
        height,
        String::new(),
        String::new(),
        String::new(),
        None,
        None,
    )
}

#[test]
fn test_item() {
    let manifest = EventManifest {
        name: "transferPublics".to_string(),
        description: "Find transfer publics".to_string(),
        function: "transfer_public".to_string(),
        program: "credits.aleo".to_string(),
        inputs: None,
        outputs: None,
        actions: vec![ChainAction::Notify],
    };
    let manifests = EventManifests::new(vec![manifest.clone()]);
    assert_eq!(manifests.manifests().len(), 1);
    assert_eq!(manifests.manifests()[0].name, "transferPublics");
    assert_eq!(manifests.manifests()[0].description, "Find transfer publics");
    assert_eq!(manifests.manifests()[0].function, "transfer_public");
    assert_eq!(manifests.manifests()[0].program, "credits.aleo");
    assert_eq!(manifests.manifests()[0].actions, vec![ChainAction::Notify]);
}

#[test]
fn single_transfer_is_matched_once() {
    let mut monitor = Monitor::new(0);
    let id = subscribe(&mut monitor, vec![manifest("transferPublics", "credits.aleo", "transfer_public")]);
    let blocks = vec![vec![transaction("at1", vec![transition("au1", "credits.aleo", "transfer_public")])]];
    run_cycle(&mut monitor, 1, &blocks);
    let (returned, events) = monitor.drain(id);
    assert_eq!(returned, id);
    assert_eq!(events.len(), 1);
    assert_eq!(events[0].block_height, 1);
    assert_eq!(events[0].event_type, "transferPublics");
    assert_eq!(events[0].context, "Find transferPublics");
    assert_eq!(events[0].program, "credits.aleo");
    assert_eq!(events[0].function_id, "transfer_public");
    assert_eq!(events[0].transaction, "at1");
    assert_eq!(events[0].transition, "au1");
    assert!(events[0].inputs.is_none());
    assert!(events[0].outputs.is_none());
}

#[test]
fn disjoint_subscriptions_get_only_their_matches() {
    let mut monitor = Monitor::new(0);
    let transfers = subscribe(&mut monitor, vec![manifest("t", "credits.aleo", "transfer_public")]);
    let bonds = subscribe(&mut monitor, vec![manifest("b", "credits.aleo", "bond_public")]);
    assert_ne!(transfers, bonds);
    let blocks = vec![vec![transaction("at1", vec![transition("au1", "credits.aleo", "transfer_public")])]];
    run_cycle(&mut monitor, 1, &blocks);
    assert!(monitor.drain(bonds).1.is_empty());
    assert_eq!(monitor.drain(transfers).1.len(), 1);
}

#[test]
fn append_to_unknown_id_changes_nothing() {
    let mut index = MatchIndex::new();
    let known: SubscriptionID = [1u8; 32];
    let unknown: SubscriptionID = [2u8; 32];
    index.create_slot(known);
    index.append(known, payload("a", 1));
    index.append(unknown, payload("x", 9));
    assert!(!index.contains(&unknown));
    assert!(index.drain(unknown).is_empty());
    let drained = index.drain(known);
    assert_eq!(drained.len(), 1);
    assert_eq!(drained[0].event_type, "a");
}

#[test]
fn second_drain_is_empty() {
    let mut monitor = Monitor::new(0);
    let id = subscribe(&mut monitor, vec![manifest("t", "credits.aleo", "transfer_public")]);
    let tx = transaction("at1", vec![transition("au1", "credits.aleo", "transfer_public")]);
    let blocks = vec![vec![tx.clone()], vec![tx]];
    run_cycle(&mut monitor, 2, &blocks);
    let first = monitor.drain(id).1;
    assert_eq!(first.len(), 2);
    assert!(monitor.drain(id).1.is_empty());
}

#[test]
fn drain_of_unregistered_id_is_empty() {
    let mut monitor = Monitor::new(5);
    let (id, events) = monitor.drain([7u8; 32]);
    assert_eq!(id, [7u8; 32]);
    assert!(events.is_empty());
}

#[test]
fn matches_come_in_height_transaction_transition_rule_order() {
    let mut monitor = Monitor::new(0);
    let id = subscribe(
        &mut monitor,
        vec![
            manifest("r1", "credits.aleo", "transfer_public"),
            manifest("r2", "token.aleo", "mint"),
            manifest("r3", "credits.aleo", "transfer_public"),
        ],
    );
    let blocks = vec![
        vec![
            transaction("at1", vec![transition("au1", "token.aleo", "mint"), transition("au2", "credits.aleo", "transfer_public")]),
            transaction("at2", vec![transition("au3", "other.aleo", "mint")]),
        ],
        vec![transaction("at3", vec![transition("au4", "token.aleo", "mint")])],
    ];
    run_cycle(&mut monitor, 2, &blocks);
    let events = monitor.drain(id).1;
    let seen: Vec<(u32, String, String)> =
        events.iter().map(|e| (e.block_height, e.transition.clone(), e.event_type.clone())).collect();
    assert_eq!(
        seen,
        vec![
            (1, "au1".to_string(), "r2".to_string()),
            (1, "au2".to_string(), "r1".to_string()),
            (1, "au2".to_string(), "r3".to_string()),
            (2, "au4".to_string(), "r2".to_string()),
        ]
    );
}

#[test]
fn program_and_function_must_both_match() {
    let defs = vec![manifest("r", "credits.aleo", "transfer_public")];
    let txs = vec![transaction(
        "at1",
        vec![transition("au1", "credits.aleo", "bond_public"), transition("au2", "token.aleo", "transfer_public")],
    )];
    assert!(matches_in_block(&defs, 3, &txs).is_empty());
    assert!(matches_in_block(&defs, 3, &vec![]).is_empty());
    assert!(matches_in_block(&vec![], 3, &txs).is_empty());
}

#[test]
fn cursor_follows_ledger_and_never_decreases() {
    let mut monitor = Monitor::new(0);
    let blocks: Vec<Vec<Transaction>> = vec![vec![], vec![], vec![], vec![]];
    assert_eq!(monitor.next_height(0), None);
    run_cycle(&mut monitor, 2, &blocks);
    assert_eq!(monitor.latest_block(), 2);
    run_cycle(&mut monitor, 2, &blocks);
    assert_eq!(monitor.latest_block(), 2);
    run_cycle(&mut monitor, 4, &blocks);
    assert_eq!(monitor.latest_block(), 4);
    // A ledger reporting a lower height scans nothing.
    assert_eq!(monitor.next_height(1), None);
    run_cycle(&mut monitor, 1, &blocks);
    assert_eq!(monitor.latest_block(), 4);
}

#[test]
fn next_height_at_the_largest_height() {
    let monitor = Monitor::new(u32::MAX);
    assert_eq!(monitor.next_height(u32::MAX), None);
    let monitor = Monitor::new(u32::MAX - 1);
    assert_eq!(monitor.next_height(u32::MAX), Some(u32::MAX));
}

#[test]
fn subscription_added_late_sees_only_later_blocks() {
    let mut monitor = Monitor::new(0);
    let tx = transaction("at1", vec![transition("au1", "credits.aleo", "transfer_public")]);
    let blocks = vec![vec![tx.clone()], vec![tx]];
    run_cycle(&mut monitor, 1, &blocks);
    let id = subscribe(&mut monitor, vec![manifest("t", "credits.aleo", "transfer_public")]);
    run_cycle(&mut monitor, 2, &blocks);
    let events = monitor.drain(id).1;
    assert_eq!(events.len(), 1);
    assert_eq!(events[0].block_height, 2);
}

#[test]
fn adding_a_live_subscription_again_keeps_its_slot() {
    let mut monitor = Monitor::new(0);
    let subscription = Subscription::new(EventManifests::new(vec![manifest("t", "credits.aleo", "transfer_public")]));
    let id = *subscription.id();
    monitor.add(subscription.clone());
    let blocks = vec![vec![transaction("at1", vec![transition("au1", "credits.aleo", "transfer_public")])]];
    run_cycle(&mut monitor, 1, &blocks);
    assert!(!monitor.add(subscription));
    let events = monitor.drain(id).1;
    assert_eq!(events.len(), 1);
}

#[test]
fn create_slot_twice_keeps_records() {
    let mut index = MatchIndex::new();
    let id: SubscriptionID = [3u8; 32];
    index.create_slot(id);
    index.append_all(id, vec![payload("a", 1), payload("b", 2)]);
    index.create_slot(id);
    let drained = index.drain(id);
    assert_eq!(drained.len(), 2);
    assert_eq!(drained[0].event_type, "a");
    assert_eq!(drained[1].event_type, "b");
}

#[test]
fn fresh_subscriptions_have_distinct_ids() {
    let a = Subscription::new(EventManifests::new(vec![]));
    let b = Subscription::new(EventManifests::new(vec![]));
    assert_ne!(a.id(), b.id());
    assert!(a.events().is_empty());
}

#[test]
fn fmt_id_truncates_long_ids() {
    assert_eq!(fmt_id("es1abcdefghijklmnopqrstuvwxyz"), "es1abcdefghijklm..");
    assert_eq!(fmt_id("0123456789abcdef"), "0123456789abcdef");
    assert_eq!(fmt_id("short"), "short");
    assert_eq!(fmt_id(""), "");
    assert_eq!(fmt_id("ééééééééééééééééé"), "éééééééééééééééé..");
}

#[test]
fn network_names() {
    assert_eq!(event_monitor::network_name(0), Some("mainnet"));
    assert_eq!(event_monitor::network_name(1), Some("testnet"));
    assert_eq!(event_monitor::network_name(2), Some("canary"));
    assert_eq!(event_monitor::network_name(3), None);
}

#[test]
fn add_reports_a_fresh_registration() {
    let mut monitor = Monitor::new(0);
    let subscription = Subscription::new(EventManifests::new(vec![]));
    assert!(monitor.add(subscription.clone()));
    assert!(!monitor.add(subscription));
}

#[test]
fn id_text_is_lower_case_hex() {
    let mut id: SubscriptionID = [0u8; 32];
    id[0] = 0xab;
    id[1] = 0x09;
    id[31] = 0xf0;
    let text = id_text(&id);
    assert_eq!(text.len(), 64);
    assert_eq!(&text[..4], "ab09");
    assert_eq!(&text[62..], "f0");
    assert_eq!(id_text(&[0xffu8; 32]), "f".repeat(64));
}

#[test]
fn subscription_text_lists_id_and_rule_names() {
    let subscription = Subscription::new(EventManifests::new(vec![
        manifest("transferPublics", "credits.aleo", "transfer_public"),
        manifest("mints", "token.aleo", "mint"),
    ]));
    let expected = format!("{{\"id:\" {}, \":\" [transferPublics, mints]}}", id_text(subscription.id()));
    assert_eq!(subscription.to_string(), expected);
    let empty = Subscription::new(EventManifests::new(vec![]));
    assert_eq!(empty.to_string(), format!("{{\"id:\" {}, \":\" []}}", id_text(empty.id())));
}

#[test]
fn manifests_keep_every_field() {
    let mut inputs = indexmap::IndexMap::new();
    inputs.insert(2usize, "5u64".to_string());
    inputs.insert(0usize, "aleo1xyz".to_string());
    let mut m = manifest("t", "credits.aleo", "transfer_public");
    m.inputs = Some(inputs.clone());
    let subscription = Subscription::new(EventManifests::new(vec![m]));
    let events = subscription.events();
    assert_eq!(events.len(), 1);
    assert_eq!(events[0].inputs, Some(inputs));
    assert!(events[0].outputs.is_none());
    assert_eq!(events[0].actions, vec![ChainAction::Notify]);
    let keys: Vec<usize> = events[0].inputs.as_ref().unwrap().keys().copied().collect();
    assert_eq!(keys, vec![2, 0]);
}

#[test]
fn id_text_parses_back() {
    let subscription = Subscription::new(EventManifests::new(vec![]));
    let id = *subscription.id();
    assert_eq!(parse_id_text(&id_text(&id)), Some(id));
    let mut id2: SubscriptionID = [0u8; 32];
    id2[0] = 0x1f;
    let text = format!("1f{}", "0".repeat(62));
    assert_eq!(parse_id_text(&text), Some(id2));
}

#[test]
fn malformed_id_text_is_rejected() {
    assert_eq!(parse_id_text(""), None);
    assert_eq!(parse_id_text(&"0".repeat(63)), None);
    assert_eq!(parse_id_text(&"0".repeat(65)), None);
    assert_eq!(parse_id_text(&"A".repeat(64)), None);
    assert_eq!(parse_id_text(&format!("{}g", "0".repeat(63))), None);
}
