//! Telling which operation a request asks for.

use vstd::prelude::*;
use vstd::string::*;
use crate::text::bytes_eq;
use crate::xml::{event_text, local_name, local_part, text_of_raw, XmlEvent};

verus! {

/// The operations that the gateway tells apart.
#[derive(Clone, Copy, Debug, PartialEq, Eq, Structural)]
pub enum Operation {
    CreateItem,
    GetItem,
    UpdateItem,
    DeleteItem,
    FindItem,
    FolderSync,
    Sync,
    Unsupported,
}

/// The qualified name of the element that an event opens, if it opens one.
pub open spec fn opened(e: XmlEvent) -> Option<Seq<u8>> {
    match e {
        XmlEvent::Start(name) => Some(name@),
        XmlEvent::Empty(name) => Some(name@),
        _ => None,
    }
}

/// The EWS operation that a local name stands for.
pub open spec fn ews_named(local: Seq<u8>) -> Operation {
    if local == "CreateItem".spec_bytes() {
        Operation::CreateItem
    } else if local == "GetItem".spec_bytes() {
        Operation::GetItem
    } else if local == "UpdateItem".spec_bytes() {
        Operation::UpdateItem
    } else if local == "DeleteItem".spec_bytes() {
        Operation::DeleteItem
    } else if local == "FindItem".spec_bytes() {
        Operation::FindItem
    } else {
        Operation::Unsupported
    }
}

/// The ActiveSync command that a local name stands for.
pub open spec fn eas_named(local: Seq<u8>) -> Operation {
    if local == "FolderSync".spec_bytes() {
        Operation::FolderSync
    } else if local == "Sync".spec_bytes() {
        Operation::Sync
    } else {
        Operation::Unsupported
    }
}

/// The EWS operation of a request: that of the first element, at or after
/// `from`, whose local name is the name of an operation.
pub open spec fn ews_operation_from(events: Seq<XmlEvent>, from: int) -> Operation
    decreases events.len() - from,
{
    if from < 0 || from >= events.len() {
        Operation::Unsupported
    } else {
        match opened(events[from]) {
            Some(name) => if ews_named(local_part(name)) != Operation::Unsupported {
                ews_named(local_part(name))
            } else {
                ews_operation_from(events, from + 1)
            },
            None => ews_operation_from(events, from + 1),
        }
    }
}

/// The ActiveSync command of a request: that of its root element, the first
/// element at or after `from`.
pub open spec fn eas_operation_from(events: Seq<XmlEvent>, from: int) -> Operation
    decreases events.len() - from,
{
    if from < 0 || from >= events.len() {
        Operation::Unsupported
    } else {
        match opened(events[from]) {
            Some(name) => eas_named(local_part(name)),
            None => eas_operation_from(events, from + 1),
        }
    }
}

/// Names the EWS operation of a local name.
fn name_ews(local: &[u8]) -> (op: Operation)
    ensures
        op == ews_named(local@),
{
    if bytes_eq(local, "CreateItem".as_bytes()) {
        Operation::CreateItem
    } else if bytes_eq(local, "GetItem".as_bytes()) {
        Operation::GetItem
    } else if bytes_eq(local, "UpdateItem".as_bytes()) {
        Operation::UpdateItem
    } else if bytes_eq(local, "DeleteItem".as_bytes()) {
        Operation::DeleteItem
    } else if bytes_eq(local, "FindItem".as_bytes()) {
        Operation::FindItem
    } else {
        Operation::Unsupported
    }
}

/// Names the ActiveSync command of a local name.
fn name_eas(local: &[u8]) -> (op: Operation)
    ensures
        op == eas_named(local@),
{
    if bytes_eq(local, "FolderSync".as_bytes()) {
        Operation::FolderSync
    } else if bytes_eq(local, "Sync".as_bytes()) {
        Operation::Sync
    } else {
        Operation::Unsupported
    }
}

/// Finds the EWS operation that a request asks for: CreateItem, GetItem,
/// UpdateItem, DeleteItem or FindItem, matched by local name whatever the
/// namespace prefix; `Unsupported` where no element names one.
pub fn ews_operation(events: &Vec<XmlEvent>) -> (op: Operation)
    ensures
        op == ews_operation_from(events@, 0),
        op != Operation::FolderSync && op != Operation::Sync,
{
    let mut i: usize = 0;
    while i < events.len()
        invariant
            i <= events@.len(),
            ews_operation_from(events@, 0) == ews_operation_from(events@, i as int),
        decreases events@.len() - i,
    {
        let found = match &events[i] {
            XmlEvent::Start(name) => name_ews(local_name(name.as_slice()).as_slice()),
            XmlEvent::Empty(name) => name_ews(local_name(name.as_slice()).as_slice()),
            _ => Operation::Unsupported,
        };
        if found != Operation::Unsupported {
            return found;
        }
        i += 1;
    }
    Operation::Unsupported
}

/// Finds the ActiveSync command that a request asks for: FolderSync or
/// Sync, by the local name of the root element; `Unsupported` otherwise.
pub fn eas_operation(events: &Vec<XmlEvent>) -> (op: Operation)
    ensures
        op == eas_operation_from(events@, 0),
        op == Operation::FolderSync || op == Operation::Sync || op == Operation::Unsupported,
{
    let mut i: usize = 0;
    while i < events.len()
        invariant
            i <= events@.len(),
            eas_operation_from(events@, 0) == eas_operation_from(events@, i as int),
        decreases events@.len() - i,
    {
        match &events[i] {
            XmlEvent::Start(name) => {
                return name_eas(local_name(name.as_slice()).as_slice());
            },
            XmlEvent::Empty(name) => {
                return name_eas(local_name(name.as_slice()).as_slice());
            },
            _ => {},
        }
        i += 1;
    }
    Operation::Unsupported
}

/// What has been read of the content of a named element: the local name of
/// the element being read, and the text found so far.
pub struct Content {
    pub element: Option<Seq<u8>>,
    pub text: Option<Seq<char>>,
}

/// What is read after one more event.
pub open spec fn content_step(c: Content, e: XmlEvent, name: Seq<u8>) -> Content {
    match e {
        XmlEvent::Start(q) => Content { element: Some(local_part(q@)), ..c },
        XmlEvent::Text(raw) => match text_of_raw(raw@) {
            Some(t) => if c.element == Some(name) {
                Content { text: Some(t), ..c }
            } else {
                c
            },
            None => c,
        },
        XmlEvent::End => Content { element: None, ..c },
        _ => c,
    }
}

/// What is read of the content of the elements named `name`.
pub open spec fn content_of(events: Seq<XmlEvent>, name: Seq<u8>) -> Content
    decreases events.len(),
{
    if events.len() == 0 {
        Content { element: None, text: None }
    } else {
        content_step(content_of(events.drop_last(), name), events.last(), name)
    }
}

/// Reads the text content of the elements with the given local name; of
/// several texts the last stands.
pub fn element_content(events: &Vec<XmlEvent>, name: &str) -> (r: Option<String>)
    ensures
        crate::ews_marshaller::text_of(r) == content_of(events@, name.spec_bytes()).text,
{
    let mut element: Option<Vec<u8>> = None;
    let mut text: Option<String> = None;
    let mut i: usize = 0;
    assert(events@.take(0) =~= Seq::<XmlEvent>::empty());
    while i < events.len()
        invariant
            i <= events@.len(),
            crate::ews_marshaller::text_of(text) == content_of(events@.take(i as int), name.spec_bytes()).text,
            match element {
                Some(v) => content_of(events@.take(i as int), name.spec_bytes()).element == Some(v@),
                None => content_of(events@.take(i as int), name.spec_bytes()).element is None,
            },
        decreases events@.len() - i,
    {
        proof {
            assert(events@.take(i + 1).drop_last() =~= events@.take(i as int));
            assert(events@.take(i + 1).last() == events@[i as int]);
        }
        match &events[i] {
            XmlEvent::Start(q) => {
                element = Some(local_name(q.as_slice()));
            },
            XmlEvent::Text(raw) => {
                let inside = match &element {
                    Some(v) => bytes_eq(v.as_slice(), name.as_bytes()),
                    None => false,
                };
                if inside {
                    match event_text(raw.as_slice()) {
                        Some(t) => {
                            text = Some(t);
                        },
                        None => {},
                    }
                }
            },
            XmlEvent::End => {
                element = None;
            },
            _ => {},
        }
        i += 1;
    }
    assert(events@.take(events@.len() as int) =~= events@);
    text
}

} // verus!
