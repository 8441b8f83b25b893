use exchange_gateway::error::GatewayError;
use exchange_gateway::storage::{CalendarItemRecord, ItemMap};
use exchange_gateway::sync::{
    build_sync_response, diff, fit_key, generate_server_id, next_step, perform_sync, BackendResource,
    CommandKind, CycleStatus, SyncCommand, SyncState, SyncStep,
};

const SECRET: &str = "secret";
const COLLECTION: &str = "https://dav.example/cal/u1/";

fn res(href: &str, etag: &str) -> BackendResource {
    BackendResource { href: href.to_string(), etag: etag.to_string(), uid: format!("uid-{href}") }
}

fn rec(href: &str, id: &str, etag: &str) -> CalendarItemRecord {
    CalendarItemRecord {
        owner: "u1".to_string(),
        caldav_collection_href: COLLECTION.to_string(),
        caldav_resource_href: href.to_string(),
        server_id: id.to_string(),
        uid: "uid".to_string(),
        etag: etag.to_string(),
        last_sync_timestamp: 10,
    }
}

fn summary(commands: &[SyncCommand]) -> Vec<(CommandKind, String, String)> {
    commands.iter().map(|c| (c.kind, c.server_id.clone(), c.resource_href.clone())).collect()
}

fn apply(map: &mut ItemMap, outcome: &exchange_gateway::sync::SyncOutcome) {
    for id in &outcome.changes.removals {
        map.delete_item_by_server_id(id);
    }
    for r in &outcome.changes.writes {
        map.upsert_item_map(r.duplicate());
    }
}

#[test]
fn requests_are_told_apart_by_their_key() {
    assert_eq!(next_step("0", "0"), SyncStep::Prime);
    assert_eq!(next_step("k1", "0"), SyncStep::Prime);
    assert_eq!(next_step("k1", "k1"), SyncStep::Diff);
    assert_eq!(next_step("k2", "k1"), SyncStep::Resync);
    assert_eq!(next_step("0", "k1"), SyncStep::Resync);
    assert_eq!(next_step("k1", ""), SyncStep::Resync);
}

#[test]
fn cold_start_then_one_addition_then_stale_key() {
    let mut map = ItemMap::new();
    let state = SyncState::initial("u1", "1");
    assert_eq!(state.sync_key, "0");

    // Cold start: a baseline is taken, nothing is reported.
    let listing = vec![res("/cal/a.ics", "e1"), res("/cal/b.ics", "e2")];
    let out = perform_sync(state, "0", &map.records, Ok(listing), "key-1".to_string(), SECRET, COLLECTION, 100);
    assert_eq!(out.status, CycleStatus::Done);
    assert_ne!(out.state.sync_key, "0");
    assert_eq!(out.state.sync_key, "key-1");
    assert_eq!(out.state.last_sync_timestamp, 100);
    assert!(out.changes.commands.is_empty());
    assert_eq!(out.changes.writes.len(), 2);
    assert!(out.response.contains("<SyncKey>key-1</SyncKey>"));
    assert!(out.response.contains("<Status>1</Status><Commands></Commands>"));
    apply(&mut map, &out);
    assert_eq!(map.records.len(), 2);

    // One backend addition since then: exactly one Add and a new key.
    let listing =
        vec![res("/cal/a.ics", "e1"), res("/cal/b.ics", "e2"), res("/cal/c.ics", "e3")];
    let out2 =
        perform_sync(out.state, "key-1", &map.records, Ok(listing), "key-2".to_string(), SECRET, COLLECTION, 200);
    assert_eq!(out2.status, CycleStatus::Done);
    assert_eq!(out2.state.sync_key, "key-2");
    assert_eq!(
        summary(&out2.changes.commands),
        vec![(CommandKind::Add, generate_server_id(SECRET, "/cal/c.ics"), "/cal/c.ics".to_string())]
    );
    assert_eq!(out2.changes.writes.len(), 1);
    assert_eq!(out2.changes.writes[0].etag, "e3");
    assert_eq!(out2.changes.writes[0].owner, "u1");
    assert_eq!(out2.changes.writes[0].caldav_collection_href, COLLECTION);
    assert_eq!(out2.changes.writes[0].last_sync_timestamp, 200);
    assert!(out2.changes.removals.is_empty());
    let id = generate_server_id(SECRET, "/cal/c.ics");
    assert!(out2.response.contains(&format!("<Commands><Add><ServerId>{id}</ServerId></Add></Commands>")));
    apply(&mut map, &out2);

    // The superseded key is refused and the stored state does not advance.
    let listing = vec![res("/cal/a.ics", "e1")];
    let out3 =
        perform_sync(out2.state, "key-1", &map.records, Ok(listing), "key-3".to_string(), SECRET, COLLECTION, 300);
    assert_eq!(out3.status, CycleStatus::Resync);
    assert_eq!(out3.state.sync_key, "key-2");
    assert_eq!(out3.state.last_sync_timestamp, 200);
    assert!(out3.changes.commands.is_empty());
    assert!(out3.changes.writes.is_empty());
    assert!(out3.changes.removals.is_empty());
    assert!(out3.response.contains("<SyncKey>0</SyncKey>"));
    assert!(out3.response.contains("<Status>3</Status>"));
}

#[test]
fn backend_failure_abandons_the_cycle() {
    let state = SyncState::initial("u1", "1");
    let prior = vec![rec("/cal/a.ics", "id-a", "e1")];
    for e in [GatewayError::Backend, GatewayError::Auth] {
        let st = SyncState { sync_key: "k".to_string(), ..SyncState::initial("u1", "1") };
        let out = perform_sync(st, "k", &prior, Err(e), "k2".to_string(), SECRET, COLLECTION, 5);
        assert_eq!(out.status, CycleStatus::Failed(e));
        assert_eq!(out.state.sync_key, "k");
        assert_eq!(out.state.last_sync_timestamp, 0);
        assert!(out.changes.commands.is_empty());
        assert!(out.changes.writes.is_empty());
        assert!(out.changes.removals.is_empty());
        assert_eq!(out.response, "");
    }
    let out = perform_sync(state, "0", &prior, Err(GatewayError::Backend), "k2".to_string(), SECRET, COLLECTION, 5);
    assert_eq!(out.status, CycleStatus::Failed(GatewayError::Backend));
    assert_eq!(out.state.sync_key, "0");
}

#[test]
fn a_candidate_that_cannot_be_issued_is_made_fit() {
    let st = SyncState { sync_key: "k".to_string(), ..SyncState::initial("u1", "1") };
    let out = perform_sync(st, "k", &vec![], Ok(vec![]), "k".to_string(), SECRET, COLLECTION, 5);
    assert_eq!(out.status, CycleStatus::Done);
    assert_eq!(out.state.sync_key, "k-");
    assert!(out.response.contains("<SyncKey>k-</SyncKey>"));
    let st = SyncState { sync_key: "k".to_string(), ..SyncState::initial("u1", "1") };
    let out = perform_sync(st, "k", &vec![], Ok(vec![]), "0".to_string(), SECRET, COLLECTION, 5);
    assert_eq!(out.status, CycleStatus::Done);
    assert_eq!(out.state.sync_key, "0-");
    let st = SyncState { sync_key: "0-".to_string(), ..SyncState::initial("u1", "1") };
    let out = perform_sync(st, "0-", &vec![], Ok(vec![]), "0".to_string(), SECRET, COLLECTION, 5);
    assert_eq!(out.state.sync_key, "0--");
    assert_eq!(fit_key("fresh".to_string(), "k"), "fresh");
    assert_eq!(fit_key("".to_string(), ""), "-");
    assert_eq!(fit_key("".to_string(), "0"), "");
}

#[test]
fn deletes_come_before_adds_and_changes() {
    let prior = vec![
        rec("/cal/gone1.ics", "id-g1", "e"),
        rec("/cal/kept.ics", "id-k", "e1"),
        rec("/cal/changed.ics", "id-c", "old"),
        rec("/cal/gone2.ics", "id-g2", "e"),
    ];
    let listing = vec![
        res("/cal/new.ics", "n1"),
        res("/cal/changed.ics", "new"),
        res("/cal/kept.ics", "e1"),
    ];
    let changes = diff(&prior, &listing, SECRET, "u1", COLLECTION, 50);
    assert_eq!(
        summary(&changes.commands),
        vec![
            (CommandKind::Delete, "id-g1".to_string(), "/cal/gone1.ics".to_string()),
            (CommandKind::Delete, "id-g2".to_string(), "/cal/gone2.ics".to_string()),
            (CommandKind::Add, generate_server_id(SECRET, "/cal/new.ics"), "/cal/new.ics".to_string()),
            (CommandKind::Change, "id-c".to_string(), "/cal/changed.ics".to_string()),
        ]
    );
    assert_eq!(changes.removals, vec!["id-g1".to_string(), "id-g2".to_string()]);
    assert_eq!(changes.writes.len(), 2);
    assert_eq!(changes.writes[0].caldav_resource_href, "/cal/new.ics");
    assert_eq!(changes.writes[0].server_id, generate_server_id(SECRET, "/cal/new.ics"));
    assert_eq!(changes.writes[0].uid, "uid-/cal/new.ics");
    assert_eq!(changes.writes[1].server_id, "id-c");
    assert_eq!(changes.writes[1].etag, "new");
    assert_eq!(changes.writes[1].last_sync_timestamp, 50);
}

#[test]
fn nothing_changed_means_no_commands() {
    let prior = vec![rec("/cal/a.ics", "id-a", "e1")];
    let changes = diff(&prior, &vec![res("/cal/a.ics", "e1")], SECRET, "u1", COLLECTION, 1);
    assert!(changes.commands.is_empty());
    assert!(changes.writes.is_empty());
    assert!(changes.removals.is_empty());
    let changes = diff(&vec![], &vec![], SECRET, "u1", COLLECTION, 1);
    assert!(changes.commands.is_empty());
}

#[test]
fn sync_response_markup() {
    let commands = vec![
        SyncCommand { kind: CommandKind::Delete, server_id: "d<1".to_string(), resource_href: "x".to_string() },
        SyncCommand { kind: CommandKind::Add, server_id: "a1".to_string(), resource_href: "y".to_string() },
        SyncCommand { kind: CommandKind::Change, server_id: "c1".to_string(), resource_href: "z".to_string() },
    ];
    assert_eq!(
        build_sync_response("col&1", "key", "1", &commands),
        "<?xml version=\"1.0\" encoding=\"utf-8\"?><Sync xmlns=\"AirSync:\"><Collections><Collection><Class>Calendar</Class><SyncKey>key</SyncKey><CollectionId>col&amp;1</CollectionId><Status>1</Status><Commands><Delete><ServerId>d&lt;1</ServerId></Delete><Add><ServerId>a1</ServerId></Add><Change><ServerId>c1</ServerId></Change></Commands></Collection></Collections></Sync>"
    );
    assert_eq!(
        build_sync_response("1", "0", "3", &vec![]),
        "<?xml version=\"1.0\" encoding=\"utf-8\"?><Sync xmlns=\"AirSync:\"><Collections><Collection><Class>Calendar</Class><SyncKey>0</SyncKey><CollectionId>1</CollectionId><Status>3</Status><Commands></Commands></Collection></Collections></Sync>"
    );
}

#[test]
fn store_updates_in_place_and_never_duplicates() {
    let mut map = ItemMap::new();
    map.upsert_item_map(rec("/cal/a.ics", "id-a", "e1"));
    map.upsert_item_map(rec("/cal/b.ics", "id-b", "e1"));
    map.upsert_item_map(rec("/cal/a.ics", "id-a", "e1"));
    assert_eq!(map.records.len(), 2);
    let mut again = rec("/cal/a2.ics", "id-a", "e2");
    again.owner = "someone-else".to_string();
    again.caldav_collection_href = "elsewhere".to_string();
    again.uid = "uid-2".to_string();
    again.last_sync_timestamp = 99;
    map.upsert_item_map(again);
    assert_eq!(map.records.len(), 2);
    let got = map.get_item_by_server_id("id-a").unwrap();
    assert_eq!(got.caldav_resource_href, "/cal/a2.ics");
    assert_eq!(got.etag, "e2");
    assert_eq!(got.uid, "uid-2");
    assert_eq!(got.last_sync_timestamp, 99);
    assert_eq!(got.owner, "u1");
    assert_eq!(got.caldav_collection_href, COLLECTION);
    assert_eq!(map.records[0].server_id, "id-a");
    assert!(map.get_item_by_server_id("id-x").is_none());
}

#[test]
fn store_deletes_and_lists_changes() {
    let mut map = ItemMap::new();
    let mut a = rec("/cal/a.ics", "id-a", "e1");
    a.last_sync_timestamp = 5;
    let mut b = rec("/cal/b.ics", "id-b", "e1");
    b.last_sync_timestamp = 10;
    let mut c = rec("/cal/c.ics", "id-c", "e1");
    c.last_sync_timestamp = 20;
    c.owner = "u2".to_string();
    let mut d = rec("/cal/d.ics", "id-d", "e1");
    d.last_sync_timestamp = 30;
    for r in [a, b, c, d] {
        map.upsert_item_map(r);
    }
    assert_eq!(
        map.list_changes_since("u1", 10),
        vec![
            ("id-b".to_string(), "/cal/b.ics".to_string()),
            ("id-d".to_string(), "/cal/d.ics".to_string())
        ]
    );
    assert_eq!(map.list_changes_since("u1", 31), vec![]);
    assert_eq!(map.list_changes_since("u3", 0), vec![]);
    map.delete_item_by_server_id("id-b");
    assert!(map.get_item_by_server_id("id-b").is_none());
    assert_eq!(map.records.len(), 3);
    map.delete_item_by_server_id("id-b");
    assert_eq!(map.records.len(), 3);
    assert_eq!(map.list_changes_since("u1", 0).len(), 2);
}
