//! Writing a calendar event as iCalendar text, and reading one from it.

use vstd::prelude::*;
use vstd::string::*;

verus! {

/// `icalendar::Event`: a VEVENT component under construction. What it holds
/// is spoken of through `event_props`.
#[verifier::external_type_specification]
#[verifier::external_body]
pub struct ExIcalEvent(icalendar::Event);

/// The single-valued properties that an event holds, by key.
pub uninterp spec fn event_props(ev: icalendar::Event) -> Map<Seq<char>, Seq<char>>;

/// Whether an event holds nothing but single-valued properties without
/// parameters: no property with several values, no alarm or other component
/// inside it.
pub uninterp spec fn plain_event(ev: icalendar::Event) -> bool;

/// The single-valued properties of every event of a calendar text, event
/// by event in the order of the text, as the `icalendar` parser reads them,
/// each value with its escapes resolved; nothing where the text is no
/// calendar.
pub uninterp spec fn parsed_events(ics: Seq<char>) -> Option<Seq<Map<Seq<char>, Seq<char>>>>;

/// The text of a calendar that holds one event with the given properties, as
/// `icalendar::Calendar` writes it: the calendar's own header lines, the
/// event's properties ordered by key, text values escaped, long lines folded.
pub uninterp spec fn vcalendar_text(props: Map<Seq<char>, Seq<char>>) -> Seq<char>;

/// No properties at all.
pub open spec fn no_props() -> Map<Seq<char>, Seq<char>> {
    Map::empty()
}

/// `icalendar::Event::new`: an event without properties.
#[verifier::external_body]
pub(crate) fn new_event() -> (ev: icalendar::Event)
    ensures
        event_props(ev) == no_props(),
        plain_event(ev),
{
    icalendar::Event::new()
}

/// `icalendar::Component::add_property`: sets the property `key` to `val`,
/// replacing the value the key had. The crate's `summary`, `description`,
/// `location`, `uid`, `timestamp`, `starts` and `ends` are this call with the
/// keys SUMMARY, DESCRIPTION, LOCATION, UID, DTSTAMP, DTSTART and DTEND, the
/// last three with the instant in the `YYYYMMDDTHHMMSSZ` form. The property
/// is set without parameters, so a plain event stays plain.
#[verifier::external_body]
pub(crate) fn set_property(ev: &mut icalendar::Event, key: &str, val: &str)
    ensures
        event_props(*final(ev)) == event_props(*old(ev)).insert(key@, val@),
        plain_event(*old(ev)) ==> plain_event(*final(ev)),
{
    icalendar::Component::add_property(ev, key, val);
}

/// `icalendar::Calendar::push` on a new calendar, written out with
/// `to_string`. An event without `DTSTAMP` or `UID` would get the time of
/// writing and a random identifier, so both must be set; and the text is
/// that of the single-valued properties only where the event is plain.
#[verifier::external_body]
pub(crate) fn calendar_text(ev: icalendar::Event) -> (text: String)
    requires
        plain_event(ev),
        event_props(ev).dom().contains("DTSTAMP"@),
        event_props(ev).dom().contains("UID"@),
    ensures
        text@ == vcalendar_text(event_props(ev)),
{
    icalendar::Calendar::new().push(ev).done().to_string()
}

/// `str::parse` into an `icalendar::Calendar`, then `Calendar::events`: the
/// events of the calendar in the order of the text.
#[verifier::external_body]
pub(crate) fn parse_events(ics: &str) -> (r: Option<Vec<icalendar::Event>>)
    ensures
        match parsed_events(ics@) {
            Some(list) => r matches Some(v) && v@.len() == list.len() && forall|i: int|
                0 <= i < list.len() ==> event_props(#[trigger] v@[i]) == list[i],
            None => r is None,
        },
{
    Some(ics.parse::<icalendar::Calendar>().ok()?.events().cloned().collect())
}

/// `icalendar::Component::property_value`: the value of the single-valued
/// property `key`, where the event holds one.
#[verifier::external_body]
pub(crate) fn property_value(ev: &icalendar::Event, key: &str) -> (r: Option<String>)
    ensures
        match r {
            Some(v) => event_props(*ev).dom().contains(key@) && event_props(*ev)[key@] == v@,
            None => !event_props(*ev).dom().contains(key@),
        },
{
    icalendar::Component::property_value(ev, key).map(|v| v.to_owned())
}

} // verus!
