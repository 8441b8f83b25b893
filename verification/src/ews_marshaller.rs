//! Marshalling between EWS calendar items and iCalendar events.

use vstd::prelude::*;
use vstd::string::*;
use vstd::utf8::*;
use crate::clock::{
    add_hour, clock_reading, hour_after, parse_rfc3339, parse_utc_basic, rfc3339_form,
    rfc3339_instant, rfc3339_text, utc_basic_form, utc_basic_instant, utc_basic_text,
};
use crate::error::GatewayError;
use crate::identity::fresh_uuid;
use crate::ical::{
    calendar_text, event_props, new_event, no_props, parse_events, parsed_events, property_value,
    set_property, vcalendar_text,
};
use crate::text::{escape_chars, lowercase, lowercased, string_from_utf8, text_eq, xml_escape};
use crate::xml::{
    event_text, local_name, local_part, scan_xml, scanned, text_of_raw, well_formed, XmlEvent,
};

verus! {

/// The text that an optional string holds.
pub open spec fn text_of(o: Option<String>) -> Option<Seq<char>> {
    match o {
        Some(s) => Some(s@),
        None => None,
    }
}

/// The fields that a calendar item carries as text.
pub struct ItemFields {
    pub subject: Option<String>,
    pub location: Option<String>,
    pub body: Option<String>,
    pub start: Option<String>,
    pub end: Option<String>,
}

/// The texts of the fields of a calendar item.
pub struct ItemTexts {
    pub subject: Option<Seq<char>>,
    pub location: Option<Seq<char>>,
    pub body: Option<Seq<char>>,
    pub start: Option<Seq<char>>,
    pub end: Option<Seq<char>>,
}

impl View for ItemFields {
    type V = ItemTexts;

    open spec fn view(&self) -> ItemTexts {
        ItemTexts {
            subject: text_of(self.subject),
            location: text_of(self.location),
            body: text_of(self.body),
            start: text_of(self.start),
            end: text_of(self.end),
        }
    }
}

/// A calendar event in the shape that the protocols exchange.
pub struct CalendarEvent {
    pub uid: String,
    pub summary: Option<String>,
    pub description: Option<String>,
    pub location: Option<String>,
    /// Start, in seconds since the epoch.
    pub start: i64,
    /// End, in seconds since the epoch.
    pub end: i64,
}

/// The contents of a calendar event.
pub struct EventView {
    pub uid: Seq<char>,
    pub summary: Option<Seq<char>>,
    pub description: Option<Seq<char>>,
    pub location: Option<Seq<char>>,
    pub start: i64,
    pub end: i64,
}

impl View for CalendarEvent {
    type V = EventView;

    open spec fn view(&self) -> EventView {
        EventView {
            uid: self.uid@,
            summary: text_of(self.summary),
            description: text_of(self.description),
            location: text_of(self.location),
            start: self.start,
            end: self.end,
        }
    }
}

/// What has been gathered from the events read so far: the lower-cased local
/// name of the element whose content is being read, and the fields found.
pub struct Gathered {
    pub element: Option<Seq<char>>,
    pub fields: ItemTexts,
}

/// The lower-cased local name of an opening tag, where the local part of the
/// qualified name is valid UTF-8.
pub open spec fn element_of(name: Seq<u8>) -> Option<Seq<char>> {
    if valid_utf8(local_part(name)) {
        Some(lowercased(decode_utf8(local_part(name))))
    } else {
        None
    }
}

/// The fields after a text inside the element `element`.
pub open spec fn with_text(fields: ItemTexts, element: Seq<char>, text: Seq<char>) -> ItemTexts {
    if element == "t:subject"@ || element == "subject"@ {
        ItemTexts { subject: Some(text), ..fields }
    } else if element == "t:location"@ || element == "location"@ {
        ItemTexts { location: Some(text), ..fields }
    } else if element == "t:body"@ || element == "body"@ {
        ItemTexts { body: Some(text), ..fields }
    } else if element == "t:start"@ || element == "start"@ {
        ItemTexts { start: Some(text), ..fields }
    } else if element == "t:end"@ || element == "end"@ {
        ItemTexts { end: Some(text), ..fields }
    } else {
        fields
    }
}

/// What is gathered after one more event: an opening tag with a readable
/// name becomes the current element, a closing tag ends it, and a text whose
/// entities resolve is stored where the current element names a field.
pub open spec fn gather_step(g: Gathered, e: XmlEvent) -> Gathered {
    match e {
        XmlEvent::Start(name) => match element_of(name@) {
            Some(el) => Gathered { element: Some(el), ..g },
            None => g,
        },
        XmlEvent::Text(raw) => match (g.element, text_of_raw(raw@)) {
            (Some(el), Some(text)) => Gathered { fields: with_text(g.fields, el, text), ..g },
            _ => g,
        },
        XmlEvent::End => Gathered { element: None, ..g },
        _ => g,
    }
}

/// Nothing gathered yet.
pub open spec fn gather_none() -> Gathered {
    Gathered {
        element: None,
        fields: ItemTexts { subject: None, location: None, body: None, start: None, end: None },
    }
}

/// What is gathered from a sequence of events.
pub open spec fn gather(events: Seq<XmlEvent>) -> Gathered
    decreases events.len(),
{
    if events.len() == 0 {
        gather_none()
    } else {
        gather_step(gather(events.drop_last()), events.last())
    }
}

/// Extracts Subject, Location, Body, Start and End from the events of a
/// calendar item. Elements are matched by local name, whatever their prefix
/// and case; of several values for one field the last one stands.
pub fn item_fields(events: &Vec<XmlEvent>) -> (fields: ItemFields)
    ensures
        fields@ == gather(events@).fields,
{
    let mut fields = ItemFields { subject: None, location: None, body: None, start: None, end: None };
    let mut element: Option<String> = None;
    let mut i: usize = 0;
    assert(events@.take(0) =~= Seq::<XmlEvent>::empty());
    while i < events.len()
        invariant
            i <= events@.len(),
            fields@ == gather(events@.take(i as int)).fields,
            text_of(element) == gather(events@.take(i as int)).element,
        decreases events@.len() - i,
    {
        proof {
            assert(events@.take(i + 1).drop_last() =~= events@.take(i as int));
            assert(events@.take(i + 1).last() == events@[i as int]);
        }
        match &events[i] {
            XmlEvent::Start(name) => {
                let local = local_name(name.as_slice());
                match string_from_utf8(local) {
                    Some(s) => {
                        proof {
                            encode_utf8_decode_utf8(s@);
                        }
                        element = Some(lowercase(s.as_str()));
                    },
                    None => {},
                }
            },
            XmlEvent::Text(raw) => {
                match (&element, event_text(raw.as_slice())) {
                    (Some(el), Some(text)) => {
                        let el = el.as_str();
                        if text_eq(el, "t:subject") || text_eq(el, "subject") {
                            fields.subject = Some(text);
                        } else if text_eq(el, "t:location") || text_eq(el, "location") {
                            fields.location = Some(text);
                        } else if text_eq(el, "t:body") || text_eq(el, "body") {
                            fields.body = Some(text);
                        } else if text_eq(el, "t:start") || text_eq(el, "start") {
                            fields.start = Some(text);
                        } else if text_eq(el, "t:end") || text_eq(el, "end") {
                            fields.end = Some(text);
                        }
                    },
                    _ => {},
                }
            },
            XmlEvent::End => {
                element = None;
            },
            _ => {},
        }
        i += 1;
    }
    assert(events@.take(events@.len() as int) =~= events@);
    fields
}

/// The instant a Start field denotes: what the text says where it is in the
/// RFC 3339 format, else `now`.
pub open spec fn start_of(text: Option<Seq<char>>, now: i64) -> i64 {
    match text {
        Some(t) => match rfc3339_instant(t) {
            Some(at) => at,
            None => now,
        },
        None => now,
    }
}

/// The instant an End field denotes: what the text says where it is in the
/// RFC 3339 format, else one hour after the start.
pub open spec fn end_of(text: Option<Seq<char>>, start: i64) -> i64 {
    match text {
        Some(t) => match rfc3339_instant(t) {
            Some(at) => at,
            None => hour_after(start),
        },
        None => hour_after(start),
    }
}

/// The event that fields stand for, given the present instant and an
/// identifier for the event.
pub open spec fn event_of(fields: ItemTexts, now: i64, uid: Seq<char>) -> EventView {
    EventView {
        uid,
        summary: fields.subject,
        description: fields.body,
        location: fields.location,
        start: start_of(fields.start, now),
        end: end_of(fields.end, start_of(fields.start, now)),
    }
}

/// Builds the event that the fields of a calendar item stand for. A Start
/// that is missing or not in the RFC 3339 format becomes `now`; an End that
/// is missing or not in that format becomes one hour after the start.
pub fn event_from_fields(fields: ItemFields, now: i64, uid: String) -> (ev: CalendarEvent)
    ensures
        ev@ == event_of(fields@, now, uid@),
{
    let start = match &fields.start {
        Some(t) => match parse_rfc3339(t.as_str()) {
            Some(at) => at,
            None => now,
        },
        None => now,
    };
    let end = match &fields.end {
        Some(t) => match parse_rfc3339(t.as_str()) {
            Some(at) => at,
            None => add_hour(start),
        },
        None => add_hour(start),
    };
    CalendarEvent {
        uid,
        summary: fields.subject,
        description: fields.body,
        location: fields.location,
        start,
        end,
    }
}

/// The properties of an event with one more text property, where it has it.
pub open spec fn with_optional(
    props: Map<Seq<char>, Seq<char>>,
    key: Seq<char>,
    value: Option<Seq<char>>,
) -> Map<Seq<char>, Seq<char>> {
    match value {
        Some(v) => props.insert(key, v),
        None => props,
    }
}

/// The iCalendar properties of an event written at the instant whose text is
/// `stamp`, with `start` and `end` the texts of its start and end.
pub open spec fn ical_props(ev: EventView, start: Seq<char>, end: Seq<char>, stamp: Seq<char>) -> Map<
    Seq<char>,
    Seq<char>,
> {
    with_optional(
        with_optional(with_optional(no_props(), "SUMMARY"@, ev.summary), "DESCRIPTION"@, ev.description),
        "LOCATION"@,
        ev.location,
    ).insert("DTSTART"@, start).insert("DTEND"@, end).insert("UID"@, ev.uid).insert("DTSTAMP"@, stamp)
}

/// The iCalendar text of an event written at the instant `stamp`, or nothing
/// where one of the three instants lies outside the calendar's range.
pub open spec fn ics_of(ev: EventView, stamp: i64) -> Option<Seq<char>> {
    match (utc_basic_form(ev.start), utc_basic_form(ev.end), utc_basic_form(stamp)) {
        (Some(s), Some(e), Some(t)) => Some(vcalendar_text(ical_props(ev, s, e, t))),
        _ => None,
    }
}

/// Writes an event as a calendar with a single VEVENT that carries UID,
/// DTSTAMP, DTSTART and DTEND in UTC and, where the event has them, SUMMARY,
/// DESCRIPTION and LOCATION. Fails with a format error where an instant lies
/// outside the calendar's range.
pub fn event_to_ics(ev: &CalendarEvent, stamp: i64) -> (r: Result<String, GatewayError>)
    ensures
        match ics_of(ev@, stamp) {
            Some(text) => r matches Ok(s) && s@ == text,
            None => r == Err::<String, GatewayError>(GatewayError::Format),
        },
{
    let start = match utc_basic_text(ev.start) {
        Some(t) => t,
        None => { return Err(GatewayError::Format); },
    };
    let end = match utc_basic_text(ev.end) {
        Some(t) => t,
        None => { return Err(GatewayError::Format); },
    };
    let written = match utc_basic_text(stamp) {
        Some(t) => t,
        None => { return Err(GatewayError::Format); },
    };
    let mut out = new_event();
    if let Some(s) = &ev.summary {
        set_property(&mut out, "SUMMARY", s.as_str());
    }
    if let Some(d) = &ev.description {
        set_property(&mut out, "DESCRIPTION", d.as_str());
    }
    if let Some(l) = &ev.location {
        set_property(&mut out, "LOCATION", l.as_str());
    }
    set_property(&mut out, "DTSTART", start.as_str());
    set_property(&mut out, "DTEND", end.as_str());
    set_property(&mut out, "UID", ev.uid.as_str());
    set_property(&mut out, "DTSTAMP", written.as_str());
    assert(event_props(out) == ical_props(ev@, start@, end@, written@));
    assert(event_props(out).dom().contains("UID"@));
    Ok(calendar_text(out))
}

/// The fields that the markup of a calendar item carries.
pub open spec fn fields_of(xml: Seq<char>) -> ItemTexts {
    gather(scanned(xml)).fields
}

/// Reads a calendar item out of EWS markup. Fails with a format error
/// exactly where the markup is not well-formed. Otherwise the event is the
/// one that the fields of the markup stand for at the instant of reading,
/// under a fresh random identifier.
pub fn xml_to_item(xml: &str) -> (r: Result<CalendarEvent, GatewayError>)
    ensures
        if well_formed(xml@) {
            r matches Ok(ev) && exists|now: i64| ev@ == #[trigger] event_of(fields_of(xml@), now, ev@.uid)
        } else {
            r matches Err(e) && e == GatewayError::Format
        },
{
    let scan = scan_xml(xml);
    if !scan.complete {
        return Err(GatewayError::Format);
    }
    let fields = item_fields(&scan.events);
    let (now, _) = clock_reading();
    let ev = event_from_fields(fields, now, fresh_uuid());
    assert(ev@ == event_of(fields_of(xml@), now, ev@.uid));
    Ok(ev)
}

/// What the conversion of a calendar item gives where the clock shows `now`
/// and the fresh identifier is `uid`: the iCalendar text of the event that
/// the fields of the markup stand for, stamped with `now`; nothing where an
/// instant lies outside the calendar's range.
pub open spec fn converted(xml: Seq<char>, now: i64, uid: Seq<char>) -> Option<Seq<char>> {
    ics_of(event_of(fields_of(xml), now, uid), now)
}

/// Whether a result is what a conversion gives for some reading of the
/// clock and some identifier: the text, or a format error where there is
/// none.
pub open spec fn is_conversion(xml: Seq<char>, r: Result<String, GatewayError>) -> bool {
    exists|now: i64, uid: Seq<char>|
        match #[trigger] converted(xml, now, uid) {
            Some(text) => r matches Ok(s) && s@ == text,
            None => r == Err::<String, GatewayError>(GatewayError::Format),
        }
}

/// Converts an EWS calendar item into iCalendar text: the item is read as by
/// `xml_to_item` and written as by `event_to_ics`, stamped with the instant
/// of reading. Fails with a format error where the markup is not
/// well-formed; where it is, only where an instant lies outside the
/// calendar's range.
pub fn ews_calendaritem_to_ics(xml: &str) -> (r: Result<String, GatewayError>)
    ensures
        if well_formed(xml@) {
            is_conversion(xml@, r)
        } else {
            r == Err::<String, GatewayError>(GatewayError::Format)
        },
{
    let scan = scan_xml(xml);
    if !scan.complete {
        return Err(GatewayError::Format);
    }
    let fields = item_fields(&scan.events);
    let (now, _) = clock_reading();
    let ev = event_from_fields(fields, now, fresh_uuid());
    let r = match event_to_ics(&ev, now) {
        Ok(ics) => Ok(ics),
        Err(_) => Err(GatewayError::Format),
    };
    proof {
        let witness = converted(xml@, now, ev@.uid);
        assert(match witness {
            Some(text) => r matches Ok(s) && s@ == text,
            None => r == Err::<String, GatewayError>(GatewayError::Format),
        });
    }
    r
}

/// An element with escaped text content, or nothing where there is no text.
pub open spec fn element_text(open: Seq<char>, value: Option<Seq<char>>, close: Seq<char>) -> Seq<
    char,
> {
    match value {
        Some(v) => open + escape_chars(v) + close,
        None => Seq::empty(),
    }
}

/// Writes an element with escaped text content where there is a text.
fn push_element(out: &mut String, open: &str, value: &Option<String>, close: &str)
    ensures
        final(out)@ == old(out)@ + element_text(open@, text_of(*value), close@),
{
    match value {
        Some(v) => {
            out.append(open);
            let escaped = xml_escape(v.as_str());
            out.append(escaped.as_str());
            out.append(close);
            assert(out@ =~= old(out)@ + (open@ + escape_chars(v@) + close@));
        },
        None => {
            assert(out@ =~= old(out)@ + Seq::<char>::empty());
        },
    }
}

/// The opening of a CalendarItem element up to and including its ItemId.
pub open spec fn item_head(item_id: Seq<char>, change_key: Seq<char>) -> Seq<char> {
    "<t:CalendarItem xmlns:t=\"http://schemas.microsoft.com/exchange/services/2006/types\"><t:ItemId Id=\""@
        + item_id + "\" ChangeKey=\""@ + change_key + "\"/>"@
}

/// The CalendarItem markup of an event: an ItemId with the server identifier
/// and the change key, then Subject, Location and Body where the event has
/// them, escaped, then Start and End in the RFC 3339 format. Nothing where
/// an instant lies outside the calendar's range.
pub open spec fn item_xml(ev: EventView, item_id: Seq<char>, change_key: Seq<char>) -> Option<
    Seq<char>,
> {
    match (rfc3339_form(ev.start), rfc3339_form(ev.end)) {
        (Some(s), Some(e)) => Some(
            item_head(item_id, change_key) + element_text(
                "<t:Subject>"@,
                ev.summary,
                "</t:Subject>"@,
            ) + element_text("<t:Location>"@, ev.location, "</t:Location>"@) + element_text(
                "<t:Body>"@,
                ev.description,
                "</t:Body>"@,
            ) + "<t:Start>"@ + s + "</t:Start><t:End>"@ + e + "</t:End></t:CalendarItem>"@,
        ),
        _ => None,
    }
}

/// Writes an event as EWS CalendarItem markup. Fails with a format error
/// where an instant lies outside the calendar's range.
pub fn item_to_xml(ev: &CalendarEvent, item_id: &str, change_key: &str) -> (r: Result<
    String,
    GatewayError,
>)
    ensures
        match item_xml(ev@, item_id@, change_key@) {
            Some(text) => r matches Ok(s) && s@ == text,
            None => r == Err::<String, GatewayError>(GatewayError::Format),
        },
{
    let start = match rfc3339_text(ev.start) {
        Some(t) => t,
        None => { return Err(GatewayError::Format); },
    };
    let end = match rfc3339_text(ev.end) {
        Some(t) => t,
        None => { return Err(GatewayError::Format); },
    };
    let mut out = String::new();
    out.append(
        "<t:CalendarItem xmlns:t=\"http://schemas.microsoft.com/exchange/services/2006/types\"><t:ItemId Id=\"",
    );
    out.append(item_id);
    out.append("\" ChangeKey=\"");
    out.append(change_key);
    out.append("\"/>");
    assert(out@ =~= item_head(item_id@, change_key@));
    push_element(&mut out, "<t:Subject>", &ev.summary, "</t:Subject>");
    push_element(&mut out, "<t:Location>", &ev.location, "</t:Location>");
    push_element(&mut out, "<t:Body>", &ev.description, "</t:Body>");
    out.append("<t:Start>");
    out.append(start.as_str());
    out.append("</t:Start><t:End>");
    out.append(end.as_str());
    out.append("</t:End></t:CalendarItem>");
    Ok(out)
}

/// The value of a property, where there is one.
pub open spec fn prop(props: Map<Seq<char>, Seq<char>>, key: Seq<char>) -> Option<Seq<char>> {
    if props.dom().contains(key) {
        Some(props[key])
    } else {
        None
    }
}

/// The instant that a property denotes in the `YYYYMMDDTHHMMSSZ` form.
pub open spec fn prop_instant(props: Map<Seq<char>, Seq<char>>, key: Seq<char>) -> Option<i64> {
    match prop(props, key) {
        Some(text) => utc_basic_instant(text),
        None => None,
    }
}

/// The text that an optional text stands for: nothing counts as empty.
pub open spec fn text_or_empty(t: Option<Seq<char>>) -> Seq<char> {
    match t {
        Some(s) => s,
        None => Seq::empty(),
    }
}

/// The event that the properties of a VEVENT stand for: SUMMARY,
/// DESCRIPTION and LOCATION where they are there, UID or an empty
/// identifier, and DTSTART and DTEND as instants. Nothing where DTSTART or
/// DTEND is missing or not in the `YYYYMMDDTHHMMSSZ` form.
pub open spec fn event_in(props: Map<Seq<char>, Seq<char>>) -> Option<EventView> {
    match (prop_instant(props, "DTSTART"@), prop_instant(props, "DTEND"@)) {
        (Some(start), Some(end)) => Some(
            EventView {
                uid: text_or_empty(prop(props, "UID"@)),
                summary: prop(props, "SUMMARY"@),
                description: prop(props, "DESCRIPTION"@),
                location: prop(props, "LOCATION"@),
                start,
                end,
            },
        ),
        _ => None,
    }
}

/// The event that iCalendar text holds: that of the properties of its first
/// VEVENT. Nothing where the text is no calendar or holds no event.
pub open spec fn event_of_ics(ics: Seq<char>) -> Option<EventView> {
    match parsed_events(ics) {
        Some(list) => if list.len() > 0 {
            event_in(list[0])
        } else {
            None
        },
        None => None,
    }
}

/// Reads the instant of a property.
fn read_instant(ev: &icalendar::Event, key: &str) -> (r: Option<i64>)
    ensures
        r == prop_instant(event_props(*ev), key@),
{
    match property_value(ev, key) {
        Some(text) => parse_utc_basic(text.as_str()),
        None => None,
    }
}

/// Reads the first event out of iCalendar text. Gives nothing where the
/// text is no calendar, holds no event, or the event has no DTSTART or
/// DTEND in the `YYYYMMDDTHHMMSSZ` form.
pub fn ics_to_item(ics: &str) -> (r: Option<CalendarEvent>)
    ensures
        match event_of_ics(ics@) {
            Some(ev) => r matches Some(got) && got@ == ev,
            None => r is None,
        },
{
    let events = match parse_events(ics) {
        Some(list) => list,
        None => { return None; },
    };
    if events.len() == 0 {
        return None;
    }
    let parsed = &events[0];
    let start = match read_instant(parsed, "DTSTART") {
        Some(t) => t,
        None => { return None; },
    };
    let end = match read_instant(parsed, "DTEND") {
        Some(t) => t,
        None => { return None; },
    };
    let uid = match property_value(parsed, "UID") {
        Some(u) => u,
        None => String::new(),
    };
    Some(
        CalendarEvent {
            uid,
            summary: property_value(parsed, "SUMMARY"),
            description: property_value(parsed, "DESCRIPTION"),
            location: property_value(parsed, "LOCATION"),
            start,
            end,
        },
    )
}

/// The CalendarItem markup of iCalendar text: that of the event which the
/// text holds. Nothing where the text holds no readable event or an instant
/// of the event lies outside the calendar's range.
pub open spec fn calendar_item_of(ics: Seq<char>, item_id: Seq<char>, change_key: Seq<char>) -> Option<
    Seq<char>,
> {
    match event_of_ics(ics) {
        Some(ev) => item_xml(ev, item_id, change_key),
        None => None,
    }
}

/// Converts iCalendar text into an EWS CalendarItem: the first event of the
/// text is read and written as by `item_to_xml`, with its Subject, Location,
/// Body, Start and End, under the given identifier and change key. Fails
/// with a format error where the text holds no readable event.
pub fn ics_to_ews_calendaritem(ics: &str, item_id: &str, change_key: &str) -> (r: Result<
    String,
    GatewayError,
>)
    ensures
        match calendar_item_of(ics@, item_id@, change_key@) {
            Some(text) => r matches Ok(s) && s@ == text,
            None => r == Err::<String, GatewayError>(GatewayError::Format),
        },
{
    match ics_to_item(ics) {
        Some(ev) => item_to_xml(&ev, item_id, change_key),
        None => Err(GatewayError::Format),
    }
}

/// The markup of an item keeps the item's texts: the CalendarItem written
/// for the event that fields stand for holds, between the ItemId and the
/// Start element, the Subject, Location and Body of the fields, each in its
/// element with `&`, `<` and `>` as entities, and none where the field is
/// missing.
pub proof fn law_item_keeps_texts(
    fields: ItemTexts,
    now: i64,
    uid: Seq<char>,
    item_id: Seq<char>,
    change_key: Seq<char>,
)
    ensures
        item_xml(event_of(fields, now, uid), item_id, change_key) matches Some(xml) ==> exists|
            tail: Seq<char>,
        |
            xml == item_head(item_id, change_key) + element_text(
                "<t:Subject>"@,
                fields.subject,
                "</t:Subject>"@,
            ) + element_text("<t:Location>"@, fields.location, "</t:Location>"@) + element_text(
                "<t:Body>"@,
                fields.body,
                "</t:Body>"@,
            ) + #[trigger] ("<t:Start>"@ + tail),
{
    let ev = event_of(fields, now, uid);
    if let Some(xml) = item_xml(ev, item_id, change_key) {
        let s = rfc3339_form(ev.start)->0;
        let e = rfc3339_form(ev.end)->0;
        let tail = s + "</t:Start><t:End>"@ + e + "</t:End></t:CalendarItem>"@;
        let front = item_head(item_id, change_key) + element_text(
            "<t:Subject>"@,
            fields.subject,
            "</t:Subject>"@,
        ) + element_text("<t:Location>"@, fields.location, "</t:Location>"@) + element_text(
            "<t:Body>"@,
            fields.body,
            "</t:Body>"@,
        );
        assert(xml =~= front + ("<t:Start>"@ + tail));
    }
}

} // verus!
