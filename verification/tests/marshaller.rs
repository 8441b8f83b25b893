use exchange_gateway::error::GatewayError;
use exchange_gateway::ews_marshaller::{
    event_from_fields, event_to_ics, ews_calendaritem_to_ics, ics_to_ews_calendaritem, ics_to_item,
    item_fields, item_to_xml, xml_to_item, CalendarEvent, ItemFields,
};
use exchange_gateway::text::xml_escape;
use exchange_gateway::xml::{event_text, local_name, scan_xml, take_event, ScanNext, XmlEvent};

const ITEM: &str = "<m:CreateItem xmlns:m=\"http://schemas.microsoft.com/exchange/services/2006/messages\" xmlns:t=\"http://schemas.microsoft.com/exchange/services/2006/types\"><m:Items><t:CalendarItem><t:Subject>Standup</t:Subject><t:Location>Room 1 &amp; 2</t:Location><t:Body>Daily sync, bring notes</t:Body><t:Start>2024-01-15T10:00:00Z</t:Start><t:End>2024-01-15T11:30:00+00:00</t:End></t:CalendarItem></m:Items></m:CreateItem>";

fn event(summary: Option<&str>, description: Option<&str>, location: Option<&str>) -> CalendarEvent {
    CalendarEvent {
        uid: "uid-1".to_string(),
        summary: summary.map(|s| s.to_string()),
        description: description.map(|s| s.to_string()),
        location: location.map(|s| s.to_string()),
        start: 1705312800,
        end: 1705318200,
    }
}

#[test]
fn escape_of_markup_characters() {
    assert_eq!(xml_escape("a & b < c > d"), "a &amp; b &lt; c &gt; d");
    assert_eq!(xml_escape(""), "");
    assert_eq!(xml_escape("plain \"text\" 'here'"), "plain \"text\" 'here'");
    assert_eq!(xml_escape("&&"), "&amp;&amp;");
    assert_eq!(xml_escape("h\u{e9}llo \u{1f600} <"), "h\u{e9}llo \u{1f600} &lt;");
}

#[test]
fn scan_reports_events_in_order() {
    let scan = scan_xml("<?xml version=\"1.0\"?><a:root><b>  x &lt; y  </b><c/><!-- n --></a:root>");
    assert!(scan.complete);
    assert_eq!(
        scan.events,
        vec![
            XmlEvent::Other,
            XmlEvent::Start(b"a:root".to_vec()),
            XmlEvent::Start(b"b".to_vec()),
            XmlEvent::Text(b"x &lt; y".to_vec()),
            XmlEvent::End,
            XmlEvent::Empty(b"c".to_vec()),
            XmlEvent::Other,
            XmlEvent::End,
        ]
    );
}

#[test]
fn scan_stops_at_malformed_markup() {
    let scan = scan_xml("<a><b></a>");
    assert!(!scan.complete);
    assert_eq!(scan.events, vec![XmlEvent::Start(b"a".to_vec()), XmlEvent::Start(b"b".to_vec())]);
    let scan = scan_xml("");
    assert!(scan.complete);
    assert_eq!(scan.events, vec![]);
}

#[test]
fn scan_marks_unresolved_entities() {
    let scan = scan_xml("<a>&nosuch;</a>");
    assert!(scan.complete);
    assert_eq!(
        scan.events,
        vec![XmlEvent::Start(b"a".to_vec()), XmlEvent::Text(b"&nosuch;".to_vec()), XmlEvent::End]
    );
    let scan = scan_xml("<Subject>&nosuch;</Subject>");
    assert_eq!(item_fields(&scan.events).subject, None);
}

#[test]
fn entities_of_character_data_are_resolved() {
    assert_eq!(event_text(b"x &lt; y &amp;&gt; &quot;z&apos; &#65;&#x42;"), Some("x < y &> \"z' AB".to_string()));
    assert_eq!(event_text(b"plain"), Some("plain".to_string()));
    assert_eq!(event_text(b""), Some(String::new()));
    assert_eq!(event_text(b"&nosuch;"), None);
    assert_eq!(event_text(b"a & b"), None);
    assert_eq!(event_text(&[0xff, 0xfe]), None);
}

#[test]
fn local_name_drops_the_prefix() {
    assert_eq!(local_name(b"t:Subject"), b"Subject".to_vec());
    assert_eq!(local_name(b"Subject"), b"Subject".to_vec());
    assert_eq!(local_name(b"a:b:c"), b"b:c".to_vec());
    assert_eq!(local_name(b":"), b"".to_vec());
    assert_eq!(local_name(b""), b"".to_vec());
}

#[test]
fn fields_are_matched_by_local_name_in_any_case() {
    let scan = scan_xml("<x:CalendarItem xmlns:x=\"u\"><x:SUBJECT>S</x:SUBJECT><Location>L</Location><y:body xmlns:y=\"v\">B</y:body><Start>st</Start><END>en</END><Other>o</Other></x:CalendarItem>");
    assert!(scan.complete);
    let f = item_fields(&scan.events);
    assert_eq!(f.subject.as_deref(), Some("S"));
    assert_eq!(f.location.as_deref(), Some("L"));
    assert_eq!(f.body.as_deref(), Some("B"));
    assert_eq!(f.start.as_deref(), Some("st"));
    assert_eq!(f.end.as_deref(), Some("en"));
}

#[test]
fn last_value_of_a_field_stands_and_missing_fields_are_none() {
    let scan = scan_xml("<i><Subject>one</Subject><Subject>two</Subject></i>");
    let f = item_fields(&scan.events);
    assert_eq!(f.subject.as_deref(), Some("two"));
    assert_eq!(f.location, None);
    assert_eq!(f.body, None);
    assert_eq!(f.start, None);
    assert_eq!(f.end, None);
}

#[test]
fn text_after_a_closing_tag_belongs_to_no_field() {
    let scan = scan_xml("<Subject><b>x</b>tail</Subject>");
    let f = item_fields(&scan.events);
    assert_eq!(f.subject, None);
}

#[test]
fn times_default_to_now_and_one_hour_later() {
    let none = ItemFields { subject: None, location: None, body: None, start: None, end: None };
    let ev = event_from_fields(none, 1000, "u".to_string());
    assert_eq!((ev.start, ev.end), (1000, 4600));
    assert_eq!(ev.uid, "u");
    let bad = ItemFields {
        subject: Some("s".to_string()),
        location: None,
        body: Some("b".to_string()),
        start: Some("tomorrow".to_string()),
        end: Some("later".to_string()),
    };
    let ev = event_from_fields(bad, 2000, "u".to_string());
    assert_eq!((ev.start, ev.end), (2000, 5600));
    assert_eq!(ev.summary.as_deref(), Some("s"));
    assert_eq!(ev.description.as_deref(), Some("b"));
    let only_start = ItemFields {
        subject: None,
        location: None,
        body: None,
        start: Some("2024-01-15T12:00:00+02:00".to_string()),
        end: None,
    };
    let ev = event_from_fields(only_start, 5, "u".to_string());
    assert_eq!((ev.start, ev.end), (1705312800, 1705316400));
    let only_end = ItemFields {
        subject: None,
        location: None,
        body: None,
        start: None,
        end: Some("2024-01-15T11:30:00Z".to_string()),
    };
    let ev = event_from_fields(only_end, 7, "u".to_string());
    assert_eq!((ev.start, ev.end), (7, 1705318200));
    let late = ItemFields { subject: None, location: None, body: None, start: None, end: None };
    let ev = event_from_fields(late, i64::MAX - 10, "u".to_string());
    assert_eq!((ev.start, ev.end), (i64::MAX - 10, i64::MAX));
}

#[test]
fn item_is_read_from_ews_markup() {
    let ev = xml_to_item(ITEM).unwrap();
    assert_eq!(ev.summary.as_deref(), Some("Standup"));
    assert_eq!(ev.location.as_deref(), Some("Room 1 & 2"));
    assert_eq!(ev.description.as_deref(), Some("Daily sync, bring notes"));
    assert_eq!(ev.start, 1705312800);
    assert_eq!(ev.end, 1705318200);
    assert_eq!(ev.uid.len(), 36);
    let other = xml_to_item(ITEM).unwrap();
    assert_ne!(ev.uid, other.uid);
}

#[test]
fn malformed_item_is_a_format_error() {
    assert!(matches!(xml_to_item("<a><b></a>"), Err(GatewayError::Format)));
    assert_eq!(ews_calendaritem_to_ics("<a><b></a>"), Err(GatewayError::Format));
}

#[test]
fn event_is_written_as_a_single_vevent() {
    let ics = event_to_ics(&event(Some("Standup; daily, really"), Some("line1\nline2"), Some("Room\\1")), 1709251200)
        .unwrap();
    let lines: Vec<&str> = ics.split("\r\n").collect();
    assert_eq!(lines[0], "BEGIN:VCALENDAR");
    assert!(lines.contains(&"BEGIN:VEVENT"));
    assert!(lines.contains(&"END:VEVENT"));
    assert!(lines.contains(&"END:VCALENDAR"));
    assert_eq!(lines.iter().filter(|l| **l == "BEGIN:VEVENT").count(), 1);
    assert!(lines.contains(&"UID:uid-1"));
    assert!(lines.contains(&"DTSTAMP:20240301T000000Z"));
    assert!(lines.contains(&"DTSTART:20240115T100000Z"));
    assert!(lines.contains(&"DTEND:20240115T113000Z"));
    assert!(lines.contains(&"SUMMARY:Standup\\; daily\\, really"));
    assert!(lines.contains(&"DESCRIPTION:line1\\nline2"));
    assert!(lines.contains(&"LOCATION:Room\\\\1"));
    assert_eq!(lines.iter().filter(|l| l.starts_with("DTSTAMP")).count(), 1);
    assert_eq!(lines.iter().filter(|l| l.starts_with("UID")).count(), 1);
}

#[test]
fn absent_fields_are_not_written() {
    let ics = event_to_ics(&event(None, None, None), 0).unwrap();
    assert!(!ics.contains("SUMMARY"));
    assert!(!ics.contains("DESCRIPTION"));
    assert!(!ics.contains("LOCATION"));
    assert!(ics.contains("DTSTAMP:19700101T000000Z\r\n"));
    let again = event_to_ics(&event(None, None, None), 0).unwrap();
    assert_eq!(ics, again);
}

#[test]
fn instants_outside_the_calendar_are_refused() {
    let mut ev = event(None, None, None);
    assert_eq!(event_to_ics(&ev, i64::MAX), Err(GatewayError::Format));
    ev.end = i64::MIN;
    assert_eq!(event_to_ics(&ev, 0), Err(GatewayError::Format));
    assert_eq!(item_to_xml(&ev, "i", "c"), Err(GatewayError::Format));
    ev.end = 0;
    ev.start = i64::MAX;
    assert_eq!(event_to_ics(&ev, 0), Err(GatewayError::Format));
    assert_eq!(item_to_xml(&ev, "i", "c"), Err(GatewayError::Format));
}

#[test]
fn calendar_item_becomes_ics() {
    let ics = ews_calendaritem_to_ics(ITEM).unwrap();
    assert!(ics.starts_with("BEGIN:VCALENDAR\r\n"));
    assert!(ics.contains("\r\nSUMMARY:Standup\r\n"));
    assert!(ics.contains("\r\nLOCATION:Room 1 & 2\r\n"));
    assert!(ics.contains("\r\nDESCRIPTION:Daily sync\\, bring notes\r\n"));
    assert!(ics.contains("\r\nDTSTART:20240115T100000Z\r\n"));
    assert!(ics.contains("\r\nDTEND:20240115T113000Z\r\n"));
    assert!(ics.contains("\r\nUID:"));
    assert!(ics.contains("\r\nDTSTAMP:"));
}

#[test]
fn event_is_written_as_calendar_item() {
    let xml = item_to_xml(&event(Some("A < B"), Some("x & y"), Some("Room")), "ID1", "CK1").unwrap();
    assert_eq!(
        xml,
        "<t:CalendarItem xmlns:t=\"http://schemas.microsoft.com/exchange/services/2006/types\"><t:ItemId Id=\"ID1\" ChangeKey=\"CK1\"/><t:Subject>A &lt; B</t:Subject><t:Location>Room</t:Location><t:Body>x &amp; y</t:Body><t:Start>2024-01-15T10:00:00+00:00</t:Start><t:End>2024-01-15T11:30:00+00:00</t:End></t:CalendarItem>"
    );
    let bare = item_to_xml(&event(None, None, None), "", "").unwrap();
    assert_eq!(
        bare,
        "<t:CalendarItem xmlns:t=\"http://schemas.microsoft.com/exchange/services/2006/types\"><t:ItemId Id=\"\" ChangeKey=\"\"/><t:Start>2024-01-15T10:00:00+00:00</t:Start><t:End>2024-01-15T11:30:00+00:00</t:End></t:CalendarItem>"
    );
}

#[test]
fn item_markup_round_trips_ascii_text() {
    let first = xml_to_item(ITEM).unwrap();
    let xml = item_to_xml(&first, "id", "ck").unwrap();
    assert!(xml.contains("<t:Subject>Standup</t:Subject>"));
    assert!(xml.contains("<t:Location>Room 1 &amp; 2</t:Location>"));
    assert!(xml.contains("<t:Body>Daily sync, bring notes</t:Body>"));
    let second = xml_to_item(&xml).unwrap();
    assert_eq!(second.summary, first.summary);
    assert_eq!(second.location, first.location);
    assert_eq!(second.description, first.description);
    assert_eq!(second.start, first.start);
    assert_eq!(second.end, first.end);
    let again = item_to_xml(&second, "id", "ck").unwrap();
    assert_eq!(again, xml);
}

const ICS: &str = "BEGIN:VCALENDAR\r\nVERSION:2.0\r\nPRODID:test\r\nBEGIN:VEVENT\r\nUID:u1\r\nDTSTAMP:20240101T000000Z\r\nDTSTART:20240101T100000Z\r\nDTEND:20240101T110000Z\r\nSUMMARY:A < B\\, C\r\nLOCATION:Room & Co\r\nDESCRIPTION:line1\\nline2\r\nEND:VEVENT\r\nEND:VCALENDAR\r\n";

#[test]
fn event_is_read_from_ics() {
    let ev = ics_to_item(ICS).unwrap();
    assert_eq!(ev.uid, "u1");
    assert_eq!(ev.summary.as_deref(), Some("A < B, C"));
    assert_eq!(ev.location.as_deref(), Some("Room & Co"));
    assert_eq!(ev.description.as_deref(), Some("line1\nline2"));
    assert_eq!(ev.start, 1704103200);
    assert_eq!(ev.end, 1704106800);
    let bare = ics_to_item("BEGIN:VCALENDAR\r\nBEGIN:VEVENT\r\nDTSTART:20240101T100000Z\r\nDTEND:20240101T110000Z\r\nEND:VEVENT\r\nEND:VCALENDAR\r\n").unwrap();
    assert_eq!(bare.uid, "");
    assert_eq!(bare.summary, None);
    assert_eq!(bare.location, None);
    assert_eq!(bare.description, None);
}

#[test]
fn ics_becomes_a_calendar_item() {
    let xml = ics_to_ews_calendaritem(ICS, "ID", "CK").unwrap();
    assert_eq!(
        xml,
        "<t:CalendarItem xmlns:t=\"http://schemas.microsoft.com/exchange/services/2006/types\"><t:ItemId Id=\"ID\" ChangeKey=\"CK\"/><t:Subject>A &lt; B, C</t:Subject><t:Location>Room &amp; Co</t:Location><t:Body>line1\nline2</t:Body><t:Start>2024-01-01T10:00:00+00:00</t:Start><t:End>2024-01-01T11:00:00+00:00</t:End></t:CalendarItem>"
    );
    assert_eq!(xml, item_to_xml(&ics_to_item(ICS).unwrap(), "ID", "CK").unwrap());
}

#[test]
fn ics_without_a_readable_event_is_a_format_error() {
    for ics in [
        "",
        "not a calendar",
        "BEGIN:VCALENDAR\r\nVERSION:2.0\r\nEND:VCALENDAR\r\n",
        "BEGIN:VCALENDAR\r\nBEGIN:VTODO\r\nUID:t\r\nEND:VTODO\r\nEND:VCALENDAR\r\n",
        "BEGIN:VCALENDAR\r\nBEGIN:VEVENT\r\nUID:u\r\nDTEND:20240101T110000Z\r\nEND:VEVENT\r\nEND:VCALENDAR\r\n",
        "BEGIN:VCALENDAR\r\nBEGIN:VEVENT\r\nUID:u\r\nDTSTART:20240101T100000Z\r\nEND:VEVENT\r\nEND:VCALENDAR\r\n",
        "BEGIN:VCALENDAR\r\nBEGIN:VEVENT\r\nDTSTART:20240101T100000\r\nDTEND:20240101T110000Z\r\nEND:VEVENT\r\nEND:VCALENDAR\r\n",
        "BEGIN:VCALENDAR\r\nBEGIN:VEVENT\r\nDTSTART;VALUE=DATE:20240101\r\nDTEND;VALUE=DATE:20240102\r\nEND:VEVENT\r\nEND:VCALENDAR\r\n",
    ] {
        assert_eq!(ics_to_ews_calendaritem(ics, "i", "c"), Err(GatewayError::Format), "{ics:?}");
        assert!(ics_to_item(ics).is_none());
    }
}

#[test]
fn first_event_of_several_is_read() {
    let ics = "BEGIN:VCALENDAR\r\nBEGIN:VTODO\r\nUID:todo\r\nEND:VTODO\r\nBEGIN:VEVENT\r\nUID:first\r\nDTSTART:20240101T100000Z\r\nDTEND:20240101T110000Z\r\nEND:VEVENT\r\nBEGIN:VEVENT\r\nUID:second\r\nDTSTART:20240102T100000Z\r\nDTEND:20240102T110000Z\r\nEND:VEVENT\r\nEND:VCALENDAR\r\n";
    assert_eq!(ics_to_item(ics).unwrap().uid, "first");
    // Only the first event counts: where it cannot be read, no later one is taken.
    let ics = "BEGIN:VCALENDAR\r\nBEGIN:VEVENT\r\nUID:first\r\nEND:VEVENT\r\nBEGIN:VEVENT\r\nUID:second\r\nDTSTART:20240102T100000Z\r\nDTEND:20240102T110000Z\r\nEND:VEVENT\r\nEND:VCALENDAR\r\n";
    assert!(ics_to_item(ics).is_none());
}

#[test]
fn item_survives_the_way_through_ics() {
    let ics = ews_calendaritem_to_ics(ITEM).unwrap();
    let back = ics_to_ews_calendaritem(&ics, "id", "ck").unwrap();
    assert!(back.contains("<t:Subject>Standup</t:Subject>"));
    assert!(back.contains("<t:Location>Room 1 &amp; 2</t:Location>"));
    assert!(back.contains("<t:Body>Daily sync, bring notes</t:Body>"));
    assert!(back.contains("<t:Start>2024-01-15T10:00:00+00:00</t:Start>"));
    assert!(back.contains("<t:End>2024-01-15T11:30:00+00:00</t:End>"));
    assert!(back.contains("<t:ItemId Id=\"id\" ChangeKey=\"ck\"/>"));
    let again = ews_calendaritem_to_ics(&back).unwrap();
    let item = ics_to_item(&again).unwrap();
    assert_eq!(item.summary.as_deref(), Some("Standup"));
    assert_eq!(item.location.as_deref(), Some("Room 1 & 2"));
    assert_eq!(item.description.as_deref(), Some("Daily sync, bring notes"));
    assert_eq!((item.start, item.end), (1705312800, 1705318200));
}

#[test]
fn written_event_is_read_back() {
    let ev = event(Some("Standup; daily, really"), Some("line1\nline2"), Some("Room\\1"));
    let ics = event_to_ics(&ev, 1709251200).unwrap();
    let back = ics_to_item(&ics).unwrap();
    assert_eq!(back.uid, ev.uid);
    assert_eq!(back.summary, ev.summary);
    assert_eq!(back.description, ev.description);
    assert_eq!(back.location, ev.location);
    assert_eq!((back.start, back.end), (ev.start, ev.end));
}

#[test]
fn events_are_taken_until_the_scan_ends() {
    let mut events = vec![XmlEvent::Other];
    assert_eq!(take_event(&mut events, XmlEvent::Start(b"a".to_vec()), 2), ScanNext::More);
    assert_eq!(events, vec![XmlEvent::Other, XmlEvent::Start(b"a".to_vec())]);
    // No room is left: the scan stops and records nothing more.
    assert_eq!(take_event(&mut events, XmlEvent::End, 2), ScanNext::Stopped);
    assert_eq!(events.len(), 2);
    assert_eq!(take_event(&mut events, XmlEvent::Failure, 9), ScanNext::Stopped);
    assert_eq!(take_event(&mut events, XmlEvent::Eof, 9), ScanNext::Complete);
    assert_eq!(take_event(&mut events, XmlEvent::Eof, 0), ScanNext::Complete);
    assert_eq!(events.len(), 2);
    let mut none = vec![];
    assert_eq!(take_event(&mut none, XmlEvent::Text(b"t".to_vec()), 0), ScanNext::Stopped);
    assert_eq!(none, vec![]);
}
