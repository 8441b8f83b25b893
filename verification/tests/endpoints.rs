use exchange_gateway::caldav::{
    calendar_query_body, collection_url, delete_outcome, find_outcome, first_calendar,
    listing_from_events, load_config, put_answer, put_outcome, query_answer, query_outcome,
    resource_url, sync_window,
};
use exchange_gateway::eas::{
    build_eas_foldersync_response, eas_reply, handle_activesync, route_activesync, sync_reply, EasDecision,
};
use exchange_gateway::error::GatewayError;
use exchange_gateway::ews::{
    create_item_outcome, handle_create_item, handle_delete_item, handle_ews, handle_find_item,
    handle_get_item, handle_update_item, route_ews, CreateRequest, EwsDecision,
};
use exchange_gateway::operation::{eas_operation, element_content, ews_operation, Operation};
use exchange_gateway::sync::{change_key_at, generate_server_id, perform_sync, SyncState};
use exchange_gateway::utils::{ews_soap_envelope, text_reply};
use exchange_gateway::wbxml::Wbxml;
use exchange_gateway::xml::scan_xml;

const AUTH: &str = "Basic dXNlcjpwYXNz";

fn text(body: &[u8]) -> String {
    String::from_utf8(body.to_vec()).unwrap()
}

fn request() -> CreateRequest {
    CreateRequest {
        owner: "user".to_string(),
        password: "pass".to_string(),
        ics: "BEGIN:VCALENDAR".to_string(),
        resource_name: "abc.ics".to_string(),
    }
}

#[test]
fn failures_map_to_statuses() {
    assert_eq!(GatewayError::Format.http_status(), 400);
    assert_eq!(GatewayError::Auth.http_status(), 401);
    assert_eq!(GatewayError::Backend.http_status(), 502);
    assert_eq!(GatewayError::Conflict.http_status(), 409);
    assert_eq!(GatewayError::Rule.http_status(), 422);
    assert_eq!(GatewayError::Format.describe(), "malformed input");
    assert_eq!(GatewayError::Auth.describe(), "credentials rejected");
    assert_eq!(GatewayError::Backend.describe(), "backend failure");
    assert_eq!(GatewayError::Conflict.describe(), "write conflict");
    assert_eq!(GatewayError::Rule.describe(), "unparsable recurrence rule");
}

#[test]
fn soap_envelope_wraps_the_body() {
    assert_eq!(
        ews_soap_envelope("<x/>"),
        "<?xml version=\"1.0\" encoding=\"utf-8\"?>\n<s:Envelope xmlns:s=\"http://schemas.xmlsoap.org/soap/envelope/\">\n  <s:Body><x/></s:Body>\n</s:Envelope>"
    );
    let r = text_reply(418, "tea");
    assert_eq!((r.status, r.body), (418, b"tea".to_vec()));
}

#[test]
fn operations_are_named_by_local_name() {
    let soap = |inner: &str| {
        format!("<s:Envelope xmlns:s=\"e\"><s:Header/><s:Body>{inner}</s:Body></s:Envelope>")
    };
    let op = |xml: &str| ews_operation(&scan_xml(xml).events);
    assert_eq!(op(&soap("<m:CreateItem xmlns:m=\"m\"><x/></m:CreateItem>")), Operation::CreateItem);
    assert_eq!(op(&soap("<GetItem/>")), Operation::GetItem);
    assert_eq!(op(&soap("<m:UpdateItem xmlns:m=\"m\"/>")), Operation::UpdateItem);
    assert_eq!(op(&soap("<DeleteItem></DeleteItem>")), Operation::DeleteItem);
    assert_eq!(op(&soap("<a:FindItem xmlns:a=\"m\"><GetItem/></a:FindItem>")), Operation::FindItem);
    assert_eq!(op(&soap("<SendItem/>")), Operation::Unsupported);
    assert_eq!(op(&soap("<XCreateItem/>")), Operation::Unsupported);
    assert_eq!(op(&soap("<createitem/>")), Operation::Unsupported);
    assert_eq!(op(""), Operation::Unsupported);
    assert_eq!(op("<Sync/>"), Operation::Unsupported);
    let eas = |xml: &str| eas_operation(&scan_xml(xml).events);
    assert_eq!(eas("<?xml version=\"1.0\"?><FolderSync><SyncKey>0</SyncKey></FolderSync>"), Operation::FolderSync);
    assert_eq!(eas("<Sync xmlns=\"AirSync:\"/>"), Operation::Sync);
    assert_eq!(eas("<a:Sync xmlns:a=\"AirSync:\"></a:Sync>"), Operation::Sync);
    assert_eq!(eas("<Ping><Sync/></Ping>"), Operation::Unsupported);
    assert_eq!(eas("<ItemOperations/>"), Operation::Unsupported);
    assert_eq!(eas("<CreateItem/>"), Operation::Unsupported);
    assert_eq!(eas("just text"), Operation::Unsupported);
}

#[test]
fn element_content_is_read_by_local_name() {
    let scan = scan_xml("<Sync><Collections><Collection><SyncKey>k1</SyncKey><a:CollectionId xmlns:a=\"x\">7</a:CollectionId><SyncKey>k2</SyncKey></Collection></Collections></Sync>");
    assert_eq!(element_content(&scan.events, "SyncKey"), Some("k2".to_string()));
    assert_eq!(element_content(&scan.events, "CollectionId"), Some("7".to_string()));
    assert_eq!(element_content(&scan.events, "synckey"), None);
    assert_eq!(element_content(&scan.events, "Missing"), None);
}

#[test]
fn folder_sync_lists_the_one_calendar_folder() {
    let w = Wbxml::new();
    let d = handle_activesync(&w, Some(AUTH.to_string()), b"<FolderSync><SyncKey>0</SyncKey></FolderSync>");
    let reply = match d {
        EasDecision::Reply(r) => r,
        EasDecision::Sync(_) => panic!("no cycle is due"),
    };
    assert_eq!(reply.status, 200);
    let xml = text(&reply.body);
    assert_eq!(xml, build_eas_foldersync_response());
    assert_eq!(xml.matches("<Folder>").count(), 1);
    assert_eq!(xml.matches("</Folder>").count(), 1);
    assert!(xml.contains("<ServerId>1</ServerId>"));
    assert!(xml.contains("<Type>8</Type>"));
    assert!(xml.contains("<DisplayName>Calendar</DisplayName>"));
}

#[test]
fn activesync_requests_without_credentials_are_refused() {
    let w = Wbxml::new();
    for auth in [None, Some("Bearer x".to_string()), Some("Basic bm9jb2xvbg==".to_string())] {
        match handle_activesync(&w, auth, b"<FolderSync/>") {
            EasDecision::Reply(r) => assert_eq!((r.status, text(&r.body)), (401, "Unauthorized".to_string())),
            EasDecision::Sync(_) => panic!("no cycle is due"),
        }
    }
}

#[test]
fn activesync_bodies_that_do_not_decode_are_refused() {
    let w = Wbxml::new();
    for body in [&b""[..], &[0x03, 0x01][..], &[0x03, 0x01, 0x6a, 0x00, 0x01][..]] {
        match handle_activesync(&w, Some(AUTH.to_string()), body) {
            EasDecision::Reply(r) => {
                assert_eq!((r.status, text(&r.body)), (400, "Malformed request".to_string()))
            }
            EasDecision::Sync(_) => panic!("no cycle is due"),
        }
    }
}

#[test]
fn unsupported_activesync_command_is_refused() {
    let w = Wbxml::new();
    match handle_activesync(&w, Some(AUTH.to_string()), b"<Ping/>") {
        EasDecision::Reply(r) => {
            assert_eq!((r.status, text(&r.body)), (400, "Unsupported ActiveSync operation".to_string()))
        }
        EasDecision::Sync(_) => panic!("no cycle is due"),
    }
}

#[test]
fn sync_request_names_key_and_collection() {
    let w = Wbxml::new();
    let d = handle_activesync(
        &w,
        Some(AUTH.to_string()),
        b"<Sync><Collection><SyncKey>abc</SyncKey><CollectionId>9</CollectionId></Collection></Sync>",
    );
    match d {
        EasDecision::Sync(q) => {
            assert_eq!(q.user, "user");
            assert_eq!(q.password, "pass");
            assert_eq!(q.presented_key, "abc");
            assert_eq!(q.collection_id, "9");
            assert!(!q.binary);
        }
        EasDecision::Reply(_) => panic!("a cycle is due"),
    }
    match handle_activesync(&w, Some(AUTH.to_string()), b"<Sync/>") {
        EasDecision::Sync(q) => {
            assert_eq!(q.presented_key, "0");
            assert_eq!(q.collection_id, "1");
        }
        EasDecision::Reply(_) => panic!("a cycle is due"),
    }
}

#[test]
fn binary_sync_request_gets_a_binary_answer() {
    let w = Wbxml::new();
    let body = w.encode("<Sync><Collection><SyncKey>0</SyncKey><CollectionId>1</CollectionId></Collection></Sync>").unwrap();
    let q = match handle_activesync(&w, Some(AUTH.to_string()), &body) {
        EasDecision::Sync(q) => q,
        EasDecision::Reply(_) => panic!("a cycle is due"),
    };
    assert!(q.binary);
    assert_eq!(q.presented_key, "0");
    assert_eq!(q.collection_id, "1");
    let out = perform_sync(
        SyncState::initial(&q.user, &q.collection_id),
        &q.presented_key,
        &vec![],
        Ok(vec![]),
        "fresh".to_string(),
        "secret",
        "/cal/",
        1,
    );
    let reply = sync_reply(&w, &out, q.binary);
    assert_eq!(reply.status, 200);
    assert_eq!(reply.body, w.encode(&out.response).unwrap());
    assert_eq!(&reply.body[..4], &[0x03, 0x01, 0x6a, 0x00]);
    let plain = sync_reply(&w, &out, false);
    assert_eq!(text(&plain.body), out.response);
}

#[test]
fn failed_cycle_is_answered_with_the_status_of_the_failure() {
    let w = Wbxml::new();
    let out = perform_sync(
        SyncState::initial("u", "1"),
        "0",
        &vec![],
        Err(GatewayError::Backend),
        "fresh".to_string(),
        "secret",
        "/cal/",
        1,
    );
    let reply = sync_reply(&w, &out, true);
    assert_eq!((reply.status, text(&reply.body)), (502, "backend failure".to_string()));
}

#[test]
fn answers_follow_the_form_of_the_request() {
    let w = Wbxml::new();
    let r = eas_reply(&w, 200, "<Sync/>", true);
    assert_eq!((r.status, r.body), (200, vec![0x03, 0x01, 0x6a, 0x00, 0x05]));
    let r = eas_reply(&w, 200, "<Sync/>", false);
    assert_eq!((r.status, r.body), (200, b"<Sync/>".to_vec()));
    let r = eas_reply(&w, 200, "a\u{0}b", true);
    assert_eq!((r.status, r.body), (500, vec![]));
    match route_activesync(&w, "u".to_string(), "p".to_string(), &scan_xml("<FolderSync/>").events, true) {
        EasDecision::Reply(r) => {
            assert_eq!(r.status, 200);
            assert_eq!(r.body, w.encode(&build_eas_foldersync_response()).unwrap());
        }
        EasDecision::Sync(_) => panic!("no cycle is due"),
    }
}

#[test]
fn create_item_asks_for_one_write() {
    let xml = "<s:Envelope xmlns:s=\"e\"><s:Body><m:CreateItem xmlns:m=\"m\" xmlns:t=\"t\"><m:Items><t:CalendarItem><t:Subject>Standup</t:Subject></t:CalendarItem></m:Items></m:CreateItem></s:Body></s:Envelope>";
    let c = match handle_ews(Some(AUTH), xml) {
        EwsDecision::Create(c) => c,
        EwsDecision::Reply(_) => panic!("a write is due"),
    };
    assert_eq!(c.owner, "user");
    assert_eq!(c.password, "pass");
    assert!(c.ics.contains("\r\nSUMMARY:Standup\r\n"));
    assert!(c.resource_name.ends_with(".ics"));
    assert_eq!(c.resource_name.len(), 40);
    let c2 = match handle_ews(None, xml) {
        EwsDecision::Create(c) => c,
        EwsDecision::Reply(_) => panic!("a write is due"),
    };
    assert_eq!(c2.owner, "demo");
    assert_eq!(c2.password, "");
    assert_ne!(c.resource_name, c2.resource_name);
}

#[test]
fn created_item_is_answered_with_the_derived_identifier() {
    let req = request();
    let collection = "https://dav.example/cal/user//";
    let put_url = "https://dav.example/cal/user/abc.ics";
    assert_eq!(resource_url(collection, &req.resource_name), put_url);
    let (out, at) = handle_create_item("secret", collection, &req, Ok("\"e1\"".to_string()), 0);
    assert!(at > 0);
    assert_eq!(out.change_key, Some(change_key_at("\"e1\"", at)));
    assert_eq!(out.reply.status, 200);
    let body = text(&out.reply.body);
    let id = generate_server_id("secret", put_url);
    assert!(body.contains(&format!("<t:ItemId Id=\"{id}\" ChangeKey=\"")));
    assert!(body.contains("ResponseClass=\"Success\""));
    assert!(body.starts_with("<?xml version=\"1.0\" encoding=\"utf-8\"?>\n<s:Envelope"));
    let record = out.record.unwrap();
    assert_eq!(record.server_id, id);
    assert_eq!(record.caldav_resource_href, put_url);
    assert_eq!(record.caldav_collection_href, collection);
    assert_eq!(record.owner, "user");
    assert_eq!(record.etag, "\"e1\"");
    assert_eq!(record.uid, "uid-placeholder");
}

#[test]
fn create_item_outcome_at_a_given_instant() {
    let req = request();
    let out = create_item_outcome("secret", "/cal", &req, Ok("e".to_string()), 42, 7);
    let id = generate_server_id("secret", "/cal/abc.ics");
    let ck = change_key_at("e", 42);
    assert_eq!(
        text(&out.reply.body),
        ews_soap_envelope(&format!("<m:CreateItemResponse xmlns:m=\"http://schemas.microsoft.com/exchange/services/2006/messages\"><m:ResponseMessages><m:CreateItemResponseMessage ResponseClass=\"Success\"><m:Items><t:CalendarItem xmlns:t=\"http://schemas.microsoft.com/exchange/services/2006/types\"><t:ItemId Id=\"{id}\" ChangeKey=\"{ck}\"/></t:CalendarItem></m:Items></m:CreateItemResponseMessage></m:ResponseMessages></m:CreateItemResponse>"))
    );
    assert_eq!(out.record.unwrap().last_sync_timestamp, 7);
}

#[test]
fn refused_and_failed_writes_store_nothing() {
    let req = request();
    let (out, _) = handle_create_item("secret", "/cal", &req, Err(GatewayError::Conflict), 0);
    assert!(out.change_key.is_none());
    assert_eq!(out.reply.status, 200);
    assert!(text(&out.reply.body).contains("ResponseClass=\"Error\""));
    assert!(out.record.is_none());
    let (out, _) = handle_create_item("secret", "/cal", &req, Err(GatewayError::Backend), 0);
    assert_eq!((out.reply.status, text(&out.reply.body)), (502, "CalDAV put error".to_string()));
    assert!(out.record.is_none());
    let (out, _) = handle_create_item("secret", "/cal", &req, Err(GatewayError::Auth), 0);
    assert_eq!(out.reply.status, 401);
    assert!(out.record.is_none());
}

#[test]
fn other_ews_operations_are_answered_at_once() {
    let envelope = |name: &str| {
        ews_soap_envelope(&format!("<m:{name}Response xmlns:m=\"http://schemas.microsoft.com/exchange/services/2006/messages\"></m:{name}Response>"))
    };
    assert_eq!(text(&handle_get_item().body), envelope("GetItem"));
    assert_eq!(text(&handle_update_item().body), envelope("UpdateItem"));
    assert_eq!(text(&handle_delete_item().body), envelope("DeleteItem"));
    assert_eq!(text(&handle_find_item().body), envelope("FindItem"));
    assert_eq!(handle_get_item().status, 200);
    for (name, xml) in [("GetItem", "<GetItem/>"), ("FindItem", "<m:FindItem xmlns:m=\"m\"></m:FindItem>")] {
        match handle_ews(Some(AUTH), xml) {
            EwsDecision::Reply(r) => assert_eq!((r.status, text(&r.body)), (200, envelope(name))),
            EwsDecision::Create(_) => panic!("no write is due"),
        }
    }
    match handle_ews(Some(AUTH), "<SendItem/>") {
        EwsDecision::Reply(r) => {
            assert_eq!((r.status, text(&r.body)), (400, "Unsupported EWS operation".to_string()))
        }
        EwsDecision::Create(_) => panic!("no write is due"),
    }
    match handle_ews(Some(AUTH), "<CreateItem><Subject>x</CreateItem>") {
        EwsDecision::Reply(r) => {
            assert_eq!((r.status, text(&r.body)), (400, "Invalid EWS CalendarItem".to_string()))
        }
        EwsDecision::Create(_) => panic!("no write is due"),
    }
    match route_ews(Operation::CreateItem, "".to_string(), "p".to_string(), Ok("ICS".to_string()), "stem".to_string()) {
        EwsDecision::Create(c) => {
            assert_eq!((c.owner.as_str(), c.password.as_str(), c.ics.as_str(), c.resource_name.as_str()), ("demo", "p", "ICS", "stem.ics"))
        }
        EwsDecision::Reply(_) => panic!("a write is due"),
    }
    match route_ews(Operation::Sync, "u".to_string(), "p".to_string(), Ok("ICS".to_string()), "stem".to_string()) {
        EwsDecision::Reply(r) => assert_eq!(r.status, 400),
        EwsDecision::Create(_) => panic!("no write is due"),
    }
}

#[test]
fn backend_answers_are_judged_by_status() {
    assert_eq!(find_outcome(207), Ok(()));
    assert_eq!(find_outcome(401), Err(GatewayError::Auth));
    assert_eq!(find_outcome(500), Err(GatewayError::Auth));
    assert_eq!(find_outcome(199), Err(GatewayError::Auth));
    assert_eq!(query_outcome(207), Ok(()));
    assert_eq!(query_outcome(401), Err(GatewayError::Auth));
    assert_eq!(query_outcome(403), Err(GatewayError::Auth));
    assert_eq!(query_outcome(404), Err(GatewayError::Backend));
    assert_eq!(query_outcome(300), Err(GatewayError::Backend));
    assert_eq!(put_outcome(201), Ok(()));
    assert_eq!(put_outcome(204), Ok(()));
    assert_eq!(put_outcome(412), Err(GatewayError::Conflict));
    assert_eq!(put_outcome(409), Err(GatewayError::Conflict));
    assert_eq!(put_outcome(401), Err(GatewayError::Backend));
    assert_eq!(put_outcome(503), Err(GatewayError::Backend));
    assert_eq!(delete_outcome(204), Ok(()));
    assert_eq!(delete_outcome(200), Ok(()));
    assert_eq!(delete_outcome(299), Ok(()));
    assert_eq!(delete_outcome(404), Err(GatewayError::Backend));
}

#[test]
fn calendar_query_filters_events_by_time_range() {
    assert_eq!(
        calendar_query_body("20230116T100000Z", "20250113T100000Z"),
        "<?xml version=\"1.0\" encoding=\"utf-8\"?><c:calendar-query xmlns:d=\"DAV:\" xmlns:c=\"urn:ietf:params:xml:ns:caldav\"><d:prop><d:getetag/><c:calendar-data/></d:prop><c:filter><c:comp-filter name=\"VCALENDAR\"><c:comp-filter name=\"VEVENT\"><c:time-range start=\"20230116T100000Z\" end=\"20250113T100000Z\"/></c:comp-filter></c:comp-filter></c:filter></c:calendar-query>"
    );
    assert_eq!(
        sync_window(1705312800),
        Some(("20230116T100000Z".to_string(), "20250113T100000Z".to_string()))
    );
    assert_eq!(sync_window(i64::MAX), None);
    assert_eq!(sync_window(i64::MIN), None);
}

#[test]
fn resource_address_joins_with_one_slash() {
    assert_eq!(resource_url("https://h/cal/", "a.ics"), "https://h/cal/a.ics");
    assert_eq!(resource_url("https://h/cal", "a.ics"), "https://h/cal/a.ics");
    assert_eq!(resource_url("https://h//cal///", "a.ics"), "https://h//cal/a.ics");
    assert_eq!(resource_url("", "a.ics"), "/a.ics");
    assert_eq!(resource_url("///", ""), "/");
}

#[test]
fn multistatus_lists_resources_with_their_tokens() {
    let xml = "<?xml version=\"1.0\"?><d:multistatus xmlns:d=\"DAV:\" xmlns:c=\"urn:ietf:params:xml:ns:caldav\"><d:response><d:href>/cal/a.ics</d:href><d:propstat><d:prop><d:getetag>\"e1\"</d:getetag><c:calendar-data>BEGIN:VCALENDAR</c:calendar-data></d:prop><d:status>HTTP/1.1 200 OK</d:status></d:propstat></d:response><d:response><d:href>/cal/b%20c.ics</d:href><d:propstat><d:prop><d:getetag>W/\"e2\"</d:getetag></d:prop></d:propstat></d:response><d:response><d:propstat/></d:response><d:response><d:href>/cal/d.ics</d:href></d:response></d:multistatus>";
    let scan = scan_xml(xml);
    assert!(scan.complete);
    let got: Vec<(String, String, String)> =
        listing_from_events(&scan.events).into_iter().map(|r| (r.href, r.etag, r.uid)).collect();
    assert_eq!(
        got,
        vec![
            ("/cal/a.ics".to_string(), "\"e1\"".to_string(), String::new()),
            ("/cal/b%20c.ics".to_string(), "W/\"e2\"".to_string(), String::new()),
            ("/cal/d.ics".to_string(), String::new(), String::new()),
        ]
    );
    assert!(listing_from_events(&scan_xml("<d:multistatus xmlns:d=\"DAV:\"/>").events).is_empty());
}

#[test]
fn default_settings() {
    let cfg = load_config("/nowhere");
    assert_eq!(cfg.bind, "0.0.0.0:8443");
    assert_eq!(cfg.caldav_url, "https://stalwart/dav/cal/");
    assert_eq!(cfg.tls_cert, "/etc/exchange-gateway/cert.pem");
    assert_eq!(cfg.tls_key, "/etc/exchange-gateway/key.pem");
}

#[test]
fn backend_answers_are_turned_into_values() {
    assert_eq!(collection_url("https://h/dav/cal/", "u1"), "https://h/dav/cal/u1/");
    assert_eq!(collection_url("https://h/dav/cal", "u1"), "https://h/dav/cal/u1/");
    assert_eq!(first_calendar(Ok(vec!["a".to_string(), "b".to_string()])), Ok("a".to_string()));
    assert_eq!(first_calendar(Ok(vec![])), Err(GatewayError::Backend));
    assert_eq!(first_calendar(Err(GatewayError::Auth)), Err(GatewayError::Auth));
    assert_eq!(put_answer(201, Some("\"e\"".to_string())), Ok("\"e\"".to_string()));
    assert_eq!(put_answer(204, None), Ok(String::new()));
    assert_eq!(put_answer(412, Some("\"e\"".to_string())), Err(GatewayError::Conflict));
    assert_eq!(put_answer(500, None), Err(GatewayError::Backend));
    let body = "<d:multistatus xmlns:d=\"DAV:\"><d:response><d:href>/a.ics</d:href><d:propstat><d:prop><d:getetag>e1</d:getetag></d:prop></d:propstat></d:response></d:multistatus>";
    let got: Vec<(String, String)> =
        query_answer(207, body).unwrap().into_iter().map(|r| (r.href, r.etag)).collect();
    assert_eq!(got, vec![("/a.ics".to_string(), "e1".to_string())]);
    assert!(matches!(query_answer(401, body), Err(GatewayError::Auth)));
    assert!(matches!(query_answer(500, body), Err(GatewayError::Backend)));
    assert!(matches!(query_answer(207, "<d:multistatus><d:response></d:multistatus>"), Err(GatewayError::Backend)));
}

#[test]
fn change_keys_of_successive_writes_differ() {
    let req = request();
    // The last key was given out far ahead of the clock: the next instant is taken.
    let last = i64::MAX - 3;
    let (first, at1) = handle_create_item("secret", "/cal", &req, Ok("e".to_string()), last);
    assert_eq!(at1, last + 1);
    let (second, at2) = handle_create_item("secret", "/cal", &req, Ok("e".to_string()), at1);
    assert_eq!(at2, last + 2);
    assert_eq!(first.change_key, Some(change_key_at("e", at1)));
    assert_eq!(second.change_key, Some(change_key_at("e", at2)));
    assert_ne!(first.change_key, second.change_key);
    assert!(text(&second.reply.body).contains(&format!("ChangeKey=\"{}\"", change_key_at("e", at2))));
    // Started from the clock, a chain of writes never repeats a key.
    let mut last = i64::MIN;
    let mut keys = std::collections::HashSet::new();
    for _ in 0..100 {
        let (out, at) = handle_create_item("secret", "/cal", &req, Ok("e".to_string()), last);
        assert!(at > last);
        assert!(keys.insert(out.change_key.unwrap()));
        last = at;
    }
}

#[test]
fn server_identifier_has_the_url_safe_form() {
    for href in ["", "/cal/a.ics", "https://dav.example/cal/u1/\u{e4}.ics"] {
        let id = generate_server_id("secret", href);
        assert_eq!(id.len(), 43);
        assert!(id.chars().all(|c| c.is_ascii_alphanumeric() || c == '-' || c == '_'));
    }
}
