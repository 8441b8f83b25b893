//! Reading markup as a sequence of parse events.

use vstd::prelude::*;
use vstd::string::*;
use vstd::utf8::*;
use crate::wbxml::{find_byte, find_from, lemma_find_byte};
use crate::text::{push_all, push_range, string_from_utf8};

verus! {

/// `quick_xml::Reader`: a pull parser over a source of bytes. Nothing of its
/// state is visible here.
#[verifier::external_type_specification]
#[verifier::external_body]
#[verifier::reject_recursive_types(R)]
pub struct ExXmlReader<R>(quick_xml::Reader<R>);

/// What the gateway reads of one parse event.
#[derive(Debug, PartialEq, Eq)]
pub enum XmlEvent {
    /// An opening tag, with its qualified name as it stands in the input.
    Start(Vec<u8>),
    /// Character data as it stands in the input, without the whitespace
    /// around it.
    Text(Vec<u8>),
    /// A closing tag.
    End,
    /// An element without content, with its qualified name.
    Empty(Vec<u8>),
    /// Any other well-formed event: a comment, a declaration, a processing
    /// instruction, a document type, a CDATA section.
    Other,
    /// The end of the input.
    Eof,
    /// The input is not well-formed at this point.
    Failure,
}

/// The events of a document up to its end or to its first malformed place.
pub struct XmlScan {
    /// The events read, in order; none is `Eof` or `Failure`.
    pub events: Vec<XmlEvent>,
    /// Whether the end of the input was reached.
    pub complete: bool,
}

/// The events that a reader has yet to give, in order, up to and including
/// the end of its input or its first failure; none once it has given that.
pub uninterp spec fn pending(reader: quick_xml::Reader<&[u8]>) -> Seq<XmlEvent>;

/// The events that `quick_xml` reads from a text, with the whitespace
/// around character data dropped: every event in order, up to and including
/// the end of the input or the first failure.
pub uninterp spec fn events_of(xml: Seq<char>) -> Seq<XmlEvent>;

/// Whether an event ends a reading: the end of the input, or a failure.
pub open spec fn terminal(e: XmlEvent) -> bool {
    e is Eof || e is Failure
}

/// Whether a sequence of events is a whole reading: it ends with the end of
/// the input or a failure, and holds neither before.
pub open spec fn ended(events: Seq<XmlEvent>) -> bool {
    &&& events.len() > 0
    &&& terminal(events.last())
    &&& forall|i: int| 0 <= i < events.len() - 1 ==> !terminal(#[trigger] events[i])
}

/// `quick_xml::Reader::from_str` followed by `trim_text(true)`: a reader over
/// the text that drops leading and trailing whitespace of character data.
/// What it will read depends on the text alone, and every reading of a
/// text comes to the end of the input or to a failure, since each other
/// event takes at least one byte of the input.
#[verifier::external_body]
fn open_reader<'a>(xml: &'a str) -> (reader: quick_xml::Reader<&'a [u8]>)
    ensures
        pending(reader) == events_of(xml@),
        ended(pending(reader)),
{
    let mut reader = quick_xml::Reader::from_str(xml);
    reader.trim_text(true);
    reader
}

/// `quick_xml::Reader::read_event`: the next event of the input, reduced to
/// what the gateway reads of it. It is the first of the events that the
/// reader had yet to give, and the reader is left with the rest.
#[verifier::external_body]
fn next_event<'a>(reader: &mut quick_xml::Reader<&'a [u8]>) -> (e: XmlEvent)
    ensures
        pending(*old(reader)).len() > 0 ==> e == pending(*old(reader))[0] && pending(*final(reader))
            == pending(*old(reader)).skip(1),
{
    match reader.read_event() {
        Ok(quick_xml::events::Event::Start(e)) => XmlEvent::Start(e.name().as_ref().to_vec()),
        Ok(quick_xml::events::Event::Text(t)) => XmlEvent::Text(t.into_inner().into_owned()),
        Ok(quick_xml::events::Event::End(_)) => XmlEvent::End,
        Ok(quick_xml::events::Event::Empty(e)) => XmlEvent::Empty(e.name().as_ref().to_vec()),
        Ok(quick_xml::events::Event::Eof) => XmlEvent::Eof,
        Ok(_) => XmlEvent::Other,
        Err(_) => XmlEvent::Failure,
    }
}

/// The text that character data stands for once its entities are resolved,
/// as `quick_xml::escape::unescape` resolves them; nothing where an entity is
/// unknown or malformed.
pub uninterp spec fn unescaped(raw: Seq<char>) -> Option<Seq<char>>;

/// `quick_xml::escape::unescape`: character data with every `&...;` replaced
/// by what it stands for, or nothing where that fails.
#[verifier::external_body]
fn unescape(raw: &str) -> (r: Option<String>)
    ensures
        match unescaped(raw@) {
            Some(t) => r matches Some(s) && s@ == t,
            None => r is None,
        },
{
    quick_xml::escape::unescape(raw).ok().map(|s| s.into_owned())
}

/// The text of character data: its bytes read as UTF-8, entities resolved.
/// Nothing where the bytes are not valid UTF-8 or an entity does not
/// resolve.
pub open spec fn text_of_raw(raw: Seq<u8>) -> Option<Seq<char>> {
    if valid_utf8(raw) {
        unescaped(decode_utf8(raw))
    } else {
        None
    }
}

/// Reads the text of character data.
pub fn event_text(raw: &[u8]) -> (r: Option<String>)
    ensures
        match text_of_raw(raw@) {
            Some(t) => r matches Some(s) && s@ == t,
            None => r is None,
        },
{
    let mut bytes: Vec<u8> = Vec::new();
    push_all(&mut bytes, raw);
    assert(bytes@ =~= raw@);
    match string_from_utf8(bytes) {
        Some(s) => {
            proof {
                encode_utf8_decode_utf8(s@);
            }
            unescape(s.as_str())
        },
        None => None,
    }
}

/// Whether an event is one that a scan records.
pub open spec fn recorded(e: XmlEvent) -> bool {
    !(e is Eof) && !(e is Failure)
}

/// The events that a scan records of a whole reading, where it records at
/// most `limit` events: those before the end of the reading, or the first
/// `limit` of them where there are more.
pub open spec fn recorded_of(all: Seq<XmlEvent>, limit: nat) -> Seq<XmlEvent> {
    if all.len() - 1 <= limit {
        all.take(all.len() - 1)
    } else {
        all.take(limit as int)
    }
}

/// Whether a scan of a whole reading is complete: the reading ends with the
/// end of the input, and the scan had room for every event before it.
pub open spec fn completes(all: Seq<XmlEvent>, limit: nat) -> bool {
    all.len() - 1 <= limit && all.last() is Eof
}

/// The events that a scan of a text records: what `quick_xml` reads from it
/// before the end of the input or the first failure, and no more events than
/// the text has bytes.
pub open spec fn scanned(xml: Seq<char>) -> Seq<XmlEvent> {
    recorded_of(events_of(xml), encode_utf8(xml).len())
}

/// Whether a text is read to its end without a failure.
pub open spec fn well_formed(xml: Seq<char>) -> bool {
    completes(events_of(xml), encode_utf8(xml).len())
}

/// Reads a document event by event. The scan stops at the end of the input,
/// at the first malformed place, or once it has read more events than the
/// input has bytes; only in the first case is it complete.
pub fn scan_xml(xml: &str) -> (r: XmlScan)
    ensures
        r.events@ == scanned(xml@),
        r.complete == well_formed(xml@),
        r.events@.len() <= xml.spec_bytes().len(),
        forall|i: int| 0 <= i < r.events@.len() ==> recorded(#[trigger] r.events@[i]),
{
    let limit = xml.as_bytes().len();
    let mut reader = open_reader(xml);
    let ghost all = events_of(xml@);
    let mut events: Vec<XmlEvent> = Vec::new();
    let mut complete = false;
    let mut running = true;
    assert(all.skip(0) =~= all);
    assert(events@ =~= all.take(0));
    while running
        invariant
            ended(all),
            events@.len() <= limit,
            forall|i: int| 0 <= i < events@.len() ==> recorded(#[trigger] events@[i]),
            running ==> !complete,
            running ==> events@.len() < all.len() && events@ == all.take(events@.len() as int)
                && pending(reader) == all.skip(events@.len() as int),
            !running ==> events@ == recorded_of(all, limit as nat) && complete == completes(
                all,
                limit as nat,
            ),
        decreases limit - events@.len() + if running { 1int } else { 0int },
    {
        let ghost k = events@.len() as int;
        let e = next_event(&mut reader);
        assert(e == all[k]);
        assert(all.skip(k).skip(1) =~= all.skip(k + 1));
        match take_event(&mut events, e, limit) {
            ScanNext::More => {
                assert(events@ =~= all.take(k + 1));
            },
            ScanNext::Complete => {
                complete = true;
                running = false;
                proof {
                    if k < all.len() - 1 {
                        assert(!terminal(all[k]));
                    }
                }
            },
            ScanNext::Stopped => {
                running = false;
                assert(events@ =~= all.take(k));
                proof {
                    if terminal(all[k]) && k < all.len() - 1 {
                        assert(!terminal(all[k]));
                    }
                }
            },
        }
    }
    XmlScan { events, complete }
}

/// How a scan goes on after an event.
#[derive(Clone, Copy, Debug, PartialEq, Eq, Structural)]
pub enum ScanNext {
    /// The event was recorded and the scan reads on.
    More,
    /// The input has ended: the scan is complete.
    Complete,
    /// The scan ends here, incomplete.
    Stopped,
}

/// How a scan that has recorded `seen` events goes on after the event `e`,
/// where it records at most `limit` events: the end of the input completes
/// it, malformed input stops it, and any other event is recorded while there
/// is room and stops the scan once there is none.
pub open spec fn next_of(e: XmlEvent, seen: nat, limit: nat) -> ScanNext {
    match e {
        XmlEvent::Eof => ScanNext::Complete,
        XmlEvent::Failure => ScanNext::Stopped,
        _ => if seen < limit {
            ScanNext::More
        } else {
            ScanNext::Stopped
        },
    }
}

/// Takes the next event of a scan: records it where the scan goes on, and
/// says how the scan goes on.
pub fn take_event(events: &mut Vec<XmlEvent>, e: XmlEvent, limit: usize) -> (next: ScanNext)
    ensures
        next == next_of(e, old(events)@.len(), limit as nat),
        final(events)@ == if next == ScanNext::More {
            old(events)@.push(e)
        } else {
            old(events)@
        },
{
    match e {
        XmlEvent::Eof => ScanNext::Complete,
        XmlEvent::Failure => ScanNext::Stopped,
        _ => {
            if events.len() < limit {
                events.push(e);
                ScanNext::More
            } else {
                ScanNext::Stopped
            }
        },
    }
}

/// The local part of a qualified name: what follows its first `:`, or the
/// whole name where it has none.
pub open spec fn local_part(name: Seq<u8>) -> Seq<u8> {
    match find_byte(name, 0x3a) {
        Some(i) => if 0 <= i < name.len() {
            name.skip(i + 1)
        } else {
            name
        },
        None => name,
    }
}

/// Cuts the namespace prefix off a qualified name.
pub fn local_name(name: &[u8]) -> (r: Vec<u8>)
    ensures
        r@ == local_part(name@),
{
    let mut out: Vec<u8> = Vec::new();
    assert(name@.skip(0) =~= name@);
    proof {
        lemma_find_byte(name@, 0x3a);
    }
    let n = name.len();
    match find_from(name, 0, 0x3a) {
        Some(i) => {
            push_range(&mut out, name, i + 1, n);
            assert(name@.subrange(i + 1, name@.len() as int) =~= name@.skip(i + 1));
        },
        None => {
            push_range(&mut out, name, 0, n);
            assert(name@.subrange(0, name@.len() as int) =~= name@);
        },
    }
    out
}

} // verus!
