//! The EWS endpoint: what a request asks for and what is answered.

use vstd::prelude::*;
use vstd::string::*;
use vstd::utf8::*;
use crate::auth::{basic_credentials, header_credentials};
use crate::caldav::{resource_address, resource_url};
use crate::error::{status_of, GatewayError};
use crate::ews_marshaller::{converted, ews_calendaritem_to_ics};
use crate::identity::fresh_uuid;
use crate::operation::{ews_operation, ews_operation_from, Operation};
use crate::storage::{CalendarItemRecord, RecordView};
use crate::sync::{
    change_key_at, change_key_of, generate_server_id, key_of_instant, later_instant, later_of,
    server_id_of,
};
use crate::utils::{ews_soap_envelope, soap_envelope, text_reply, Reply};
use crate::xml::{scan_xml, scanned, well_formed};

verus! {

/// The credentials that an authorization header carries, if it is there and
/// well-formed.
pub open spec fn credentials_of(header: Option<&str>) -> Option<(Seq<char>, Seq<char>)> {
    match header {
        Some(h) => header_credentials(h@, true),
        None => None,
    }
}

/// Reads user and password out of a Basic authorization header.
pub fn parse_basic_auth(header: Option<&str>) -> (r: Option<(String, String)>)
    ensures
        match credentials_of(header) {
            Some((u, p)) => r matches Some(pair) && pair.0@ == u && pair.1@ == p,
            None => r is None,
        },
{
    match header {
        Some(h) => basic_credentials(h, true),
        None => None,
    }
}

/// A CreateItem request that is ready for the backend.
pub struct CreateRequest {
    pub owner: String,
    pub password: String,
    /// The item as iCalendar text.
    pub ics: String,
    /// The name of the resource to write.
    pub resource_name: String,
}

/// What is to be done with an EWS request.
pub enum EwsDecision {
    /// Answer at once.
    Reply(Reply),
    /// Write the item to the backend.
    Create(CreateRequest),
}

/// The owner on whose behalf a request acts: the user of the credentials,
/// or `demo` where there is none.
pub open spec fn owner_of(user: Seq<char>) -> Seq<char> {
    if user.len() > 0 {
        user
    } else {
        "demo"@
    }
}

/// The empty response message of an operation.
pub open spec fn empty_response(op: Operation) -> Seq<char> {
    match op {
        Operation::GetItem => "<m:GetItemResponse xmlns:m=\"http://schemas.microsoft.com/exchange/services/2006/messages\"></m:GetItemResponse>"@,
        Operation::UpdateItem => "<m:UpdateItemResponse xmlns:m=\"http://schemas.microsoft.com/exchange/services/2006/messages\"></m:UpdateItemResponse>"@,
        Operation::DeleteItem => "<m:DeleteItemResponse xmlns:m=\"http://schemas.microsoft.com/exchange/services/2006/messages\"></m:DeleteItemResponse>"@,
        _ => "<m:FindItemResponse xmlns:m=\"http://schemas.microsoft.com/exchange/services/2006/messages\"></m:FindItemResponse>"@,
    }
}

/// A reply with status 200 whose body is a response message in a SOAP
/// envelope.
fn soap_reply(message: &str) -> (r: Reply)
    ensures
        r.status == 200,
        r.body@ == encode_utf8(soap_envelope(message@)),
{
    let soap = ews_soap_envelope(message);
    text_reply(200, soap.as_str())
}

/// Answers GetItem.
pub fn handle_get_item() -> (r: Reply)
    ensures
        r.status == 200,
        r.body@ == encode_utf8(soap_envelope(empty_response(Operation::GetItem))),
{
    soap_reply(
        "<m:GetItemResponse xmlns:m=\"http://schemas.microsoft.com/exchange/services/2006/messages\"></m:GetItemResponse>",
    )
}

/// Answers UpdateItem.
pub fn handle_update_item() -> (r: Reply)
    ensures
        r.status == 200,
        r.body@ == encode_utf8(soap_envelope(empty_response(Operation::UpdateItem))),
{
    soap_reply(
        "<m:UpdateItemResponse xmlns:m=\"http://schemas.microsoft.com/exchange/services/2006/messages\"></m:UpdateItemResponse>",
    )
}

/// Answers DeleteItem.
pub fn handle_delete_item() -> (r: Reply)
    ensures
        r.status == 200,
        r.body@ == encode_utf8(soap_envelope(empty_response(Operation::DeleteItem))),
{
    soap_reply(
        "<m:DeleteItemResponse xmlns:m=\"http://schemas.microsoft.com/exchange/services/2006/messages\"></m:DeleteItemResponse>",
    )
}

/// Answers FindItem.
pub fn handle_find_item() -> (r: Reply)
    ensures
        r.status == 200,
        r.body@ == encode_utf8(soap_envelope(empty_response(Operation::FindItem))),
{
    soap_reply(
        "<m:FindItemResponse xmlns:m=\"http://schemas.microsoft.com/exchange/services/2006/messages\"></m:FindItemResponse>",
    )
}

/// Decides what to do with an EWS request whose operation is known.
/// CreateItem with a readable item asks for a write under the resource name
/// `stem` with the ending `.ics`; CreateItem with an unreadable item is
/// refused with status 400; GetItem, UpdateItem, DeleteItem and FindItem are
/// answered at once; anything else is refused with status 400.
pub fn route_ews(
    op: Operation,
    user: String,
    password: String,
    item: Result<String, GatewayError>,
    stem: String,
) -> (d: EwsDecision)
    ensures
        match op {
            Operation::CreateItem => match item {
                Ok(ics) => d matches EwsDecision::Create(c) && c.owner@ == owner_of(user@) && c.password@
                    == password@ && c.ics@ == ics@ && c.resource_name@ == stem@ + ".ics"@,
                Err(_) => d matches EwsDecision::Reply(r) && r.status == 400 && r.body@
                    == "Invalid EWS CalendarItem".spec_bytes(),
            },
            Operation::GetItem | Operation::UpdateItem | Operation::DeleteItem | Operation::FindItem => d matches EwsDecision::Reply(
                r,
            ) && r.status == 200 && r.body@ == encode_utf8(soap_envelope(empty_response(op))),
            _ => d matches EwsDecision::Reply(r) && r.status == 400 && r.body@
                == "Unsupported EWS operation".spec_bytes(),
        },
{
    match op {
        Operation::CreateItem => match item {
            Ok(ics) => {
                let owner = if user.as_str().unicode_len() > 0 {
                    user
                } else {
                    "demo".to_owned()
                };
                let mut resource_name = stem;
                resource_name.append(".ics");
                EwsDecision::Create(CreateRequest { owner, password, ics, resource_name })
            },
            Err(_) => EwsDecision::Reply(text_reply(400, "Invalid EWS CalendarItem")),
        },
        Operation::GetItem => EwsDecision::Reply(handle_get_item()),
        Operation::UpdateItem => EwsDecision::Reply(handle_update_item()),
        Operation::DeleteItem => EwsDecision::Reply(handle_delete_item()),
        Operation::FindItem => EwsDecision::Reply(handle_find_item()),
        _ => EwsDecision::Reply(text_reply(400, "Unsupported EWS operation")),
    }
}

/// The user and password of a request: those of the header, or empty texts
/// where the header carries none.
pub open spec fn user_of(header: Option<&str>) -> (Seq<char>, Seq<char>) {
    match credentials_of(header) {
        Some(c) => c,
        None => (Seq::empty(), Seq::empty()),
    }
}

/// Whether a resource name is some stem with the ending `.ics`.
pub open spec fn named_ics(name: Seq<char>) -> bool {
    exists|stem: Seq<char>| name == #[trigger] (stem + ".ics"@)
}

/// Whether a decision is what a CreateItem request with well-formed markup
/// comes to for some reading of the clock and some fresh identifier: a write
/// of the converted item on behalf of the user, or a refusal with status 400
/// where the item has no conversion.
pub open spec fn is_create_decision(
    xml: Seq<char>,
    user: Seq<char>,
    password: Seq<char>,
    d: EwsDecision,
) -> bool {
    exists|now: i64, uid: Seq<char>|
        match #[trigger] converted(xml, now, uid) {
            Some(text) => d matches EwsDecision::Create(c) && c.owner@ == owner_of(user) && c.password@
                == password && c.ics@ == text && named_ics(c.resource_name@),
            None => d matches EwsDecision::Reply(r) && r.status == 400 && r.body@
                == "Invalid EWS CalendarItem".spec_bytes(),
        }
}

/// Decides what to do with an EWS request: the operation is the one that
/// the events of the markup name, and it is routed as by `route_ews`.
/// CreateItem asks for a write of the converted item on behalf of the user
/// of the header, under a fresh random resource name, and is refused with
/// status 400 where the markup is not well-formed or has no conversion.
pub fn handle_ews(auth: Option<&str>, xml: &str) -> (d: EwsDecision)
    ensures
        match ews_operation_from(scanned(xml@), 0) {
            Operation::CreateItem => if well_formed(xml@) {
                is_create_decision(xml@, user_of(auth).0, user_of(auth).1, d)
            } else {
                d matches EwsDecision::Reply(r) && r.status == 400 && r.body@
                    == "Invalid EWS CalendarItem".spec_bytes()
            },
            Operation::GetItem | Operation::UpdateItem | Operation::DeleteItem | Operation::FindItem => d matches EwsDecision::Reply(
                r,
            ) && r.status == 200 && r.body@ == encode_utf8(
                soap_envelope(empty_response(ews_operation_from(scanned(xml@), 0))),
            ),
            _ => d matches EwsDecision::Reply(r) && r.status == 400 && r.body@
                == "Unsupported EWS operation".spec_bytes(),
        },
{
    let (user, password) = match parse_basic_auth(auth) {
        Some(pair) => pair,
        None => (String::new(), String::new()),
    };
    let scan = scan_xml(xml);
    let op = ews_operation(&scan.events);
    let item = if op == Operation::CreateItem {
        ews_calendaritem_to_ics(xml)
    } else {
        Err(GatewayError::Format)
    };
    let stem = fresh_uuid();
    let ghost stem_text = stem@;
    let ghost given = item;
    let d = route_ews(op, user, password, item, stem);
    proof {
        if op == Operation::CreateItem && well_formed(xml@) {
            let (now, uid) = choose|now: i64, uid: Seq<char>|
                match #[trigger] converted(xml@, now, uid) {
                    Some(text) => given matches Ok(s) && s@ == text,
                    None => given == Err::<String, GatewayError>(GatewayError::Format),
                };
            if let EwsDecision::Create(c) = &d {
                assert(c.resource_name@ == stem_text + ".ics"@);
                assert(named_ics(c.resource_name@));
            }
            assert(match converted(xml@, now, uid) {
                Some(text) => d matches EwsDecision::Create(c) && c.owner@ == owner_of(user_of(auth).0)
                    && c.password@ == user_of(auth).1 && c.ics@ == text && named_ics(
                    c.resource_name@,
                ),
                None => d matches EwsDecision::Reply(r) && r.status == 400 && r.body@
                    == "Invalid EWS CalendarItem".spec_bytes(),
            });
        }
    }
    d
}

/// The response message of a successful CreateItem.
pub open spec fn created_message(item_id: Seq<char>, change_key: Seq<char>) -> Seq<char> {
    "<m:CreateItemResponse xmlns:m=\"http://schemas.microsoft.com/exchange/services/2006/messages\"><m:ResponseMessages><m:CreateItemResponseMessage ResponseClass=\"Success\"><m:Items><t:CalendarItem xmlns:t=\"http://schemas.microsoft.com/exchange/services/2006/types\"><t:ItemId Id=\""@
        + item_id + "\" ChangeKey=\""@ + change_key
        + "\"/></t:CalendarItem></m:Items></m:CreateItemResponseMessage></m:ResponseMessages></m:CreateItemResponse>"@
}

/// The response message of a CreateItem that the backend refused.
pub open spec fn refused_message() -> Seq<char> {
    "<m:CreateItemResponse xmlns:m=\"http://schemas.microsoft.com/exchange/services/2006/messages\"><m:ResponseMessages><m:CreateItemResponseMessage ResponseClass=\"Error\"><m:ResponseCode>ErrorIrresolvableConflict</m:ResponseCode></m:CreateItemResponseMessage></m:ResponseMessages></m:CreateItemResponse>"@
}

/// What a CreateItem ends with: the answer and, where the write succeeded,
/// the change key that the answer carries and the record to store.
pub struct CreateOutcome {
    pub reply: Reply,
    pub change_key: Option<String>,
    pub record: Option<CalendarItemRecord>,
}

/// The record of an item just written.
pub open spec fn created_record(
    secret: Seq<char>,
    collection: Seq<char>,
    owner: Seq<char>,
    name: Seq<char>,
    etag: Seq<char>,
    now: i64,
) -> RecordView {
    RecordView {
        owner,
        caldav_collection_href: collection,
        caldav_resource_href: resource_address(collection, name),
        server_id: server_id_of(secret, resource_address(collection, name)),
        uid: "uid-placeholder"@,
        etag,
        last_sync_timestamp: now,
    }
}

/// Whether an outcome is what a CreateItem ends with where the clock shows
/// the instant `nanos`, in nanoseconds, and `now`, in seconds. A successful
/// write is answered with an ItemId that carries the identifier derived from
/// the address written to and the change key of the version token at
/// `nanos`, and its record is to be stored. A refused write is answered
/// with an unsuccessful response class, any other failure with its status
/// and a plain text; neither stores a record.
pub open spec fn is_outcome(
    secret: Seq<char>,
    collection: Seq<char>,
    request: CreateRequest,
    put: Result<String, GatewayError>,
    nanos: i64,
    now: i64,
    out: CreateOutcome,
) -> bool {
    match put {
        Ok(etag) => {
            &&& out.reply.status == 200
            &&& out.reply.body@ == encode_utf8(
                soap_envelope(
                    created_message(
                        server_id_of(secret, resource_address(collection, request.resource_name@)),
                        change_key_of(etag@, nanos),
                    ),
                ),
            )
            &&& out.change_key matches Some(key)
            &&& key_of_instant(key@, etag@, nanos)
            &&& out.record matches Some(rec)
            &&& rec@ == created_record(
                secret,
                collection,
                request.owner@,
                request.resource_name@,
                etag@,
                now,
            )
        },
        Err(GatewayError::Conflict) => out.reply.status == 200 && out.reply.body@ == encode_utf8(
            soap_envelope(refused_message()),
        ) && out.change_key is None && out.record is None,
        Err(e) => out.reply.status == status_of(e) && out.reply.body@
            == "CalDAV put error".spec_bytes() && out.change_key is None && out.record is None,
    }
}

/// Concludes a CreateItem from the answer of the backend to the write. A
/// successful write is answered with an ItemId whose identifier is the one
/// derived from the address written to and whose change key belongs to the
/// version token at the instant `nanos`, and its record is to be stored. A
/// refused write is answered with an unsuccessful response class; any other
/// failure with its status. Neither stores anything.
pub fn create_item_outcome(
    secret: &str,
    collection: &str,
    request: &CreateRequest,
    put: Result<String, GatewayError>,
    nanos: i64,
    now: i64,
) -> (out: CreateOutcome)
    ensures
        is_outcome(secret@, collection@, *request, put, nanos, now, out),
{
    match put {
        Ok(etag) => {
            let href = resource_url(collection, request.resource_name.as_str());
            let server_id = generate_server_id(secret, href.as_str());
            let change_key = change_key_at(etag.as_str(), nanos);
            let mut message = String::new();
            message.append(
                "<m:CreateItemResponse xmlns:m=\"http://schemas.microsoft.com/exchange/services/2006/messages\"><m:ResponseMessages><m:CreateItemResponseMessage ResponseClass=\"Success\"><m:Items><t:CalendarItem xmlns:t=\"http://schemas.microsoft.com/exchange/services/2006/types\"><t:ItemId Id=\"",
            );
            message.append(server_id.as_str());
            message.append("\" ChangeKey=\"");
            message.append(change_key.as_str());
            message.append(
                "\"/></t:CalendarItem></m:Items></m:CreateItemResponseMessage></m:ResponseMessages></m:CreateItemResponse>",
            );
            assert(message@ =~= created_message(server_id@, change_key@));
            let reply = soap_reply(message.as_str());
            let record = CalendarItemRecord {
                owner: request.owner.clone(),
                caldav_collection_href: collection.to_owned(),
                caldav_resource_href: href,
                server_id,
                uid: "uid-placeholder".to_owned(),
                etag,
                last_sync_timestamp: now,
            };
            CreateOutcome { reply, change_key: Some(change_key), record: Some(record) }
        },
        Err(GatewayError::Conflict) => {
            let reply = soap_reply(
                "<m:CreateItemResponse xmlns:m=\"http://schemas.microsoft.com/exchange/services/2006/messages\"><m:ResponseMessages><m:CreateItemResponseMessage ResponseClass=\"Error\"><m:ResponseCode>ErrorIrresolvableConflict</m:ResponseCode></m:CreateItemResponseMessage></m:ResponseMessages></m:CreateItemResponse>",
            );
            CreateOutcome { reply, change_key: None, record: None }
        },
        Err(e) => CreateOutcome {
            reply: text_reply(e.http_status(), "CalDAV put error"),
            change_key: None,
            record: None,
        },
    }
}

/// Concludes a CreateItem at the present instant: as `create_item_outcome`
/// at an instant later than `last`, the instant of the change key given out
/// before, which the clock fixes where it shows a later one. The instant
/// used is handed back for the next call. So the change key of a successful
/// write differs from the one given out before, whatever the clock shows,
/// unless `last` is the last instant there is.
pub fn handle_create_item(
    secret: &str,
    collection: &str,
    request: &CreateRequest,
    put: Result<String, GatewayError>,
    last: i64,
) -> (r: (CreateOutcome, i64))
    ensures
        r.1 > last || last == i64::MAX,
        exists|reading: i64| r.1 == #[trigger] later_of(reading, last),
        exists|now: i64| #[trigger] is_outcome(secret@, collection@, *request, put, r.1, now, r.0),
        match r.0.change_key {
            Some(key) => last < i64::MAX ==> forall|token: Seq<char>|
                key@ != #[trigger] change_key_of(token, last),
            None => put is Err,
        },
{
    let (at, seconds) = later_instant(last);
    let out = create_item_outcome(secret, collection, request, put, at, seconds);
    let r = (out, at);
    assert(is_outcome(secret@, collection@, *request, put, r.1, seconds, r.0));
    r
}

/// The answer to a CreateItem carries the identifier of what was written: a
/// successful write to a collection, under any reading of the clock, is
/// answered with status 200 and a successful response message whose ItemId
/// holds the identifier derived from the secret and the address written to,
/// and the record to store holds the same identifier.
pub proof fn law_created_identifier(
    secret: Seq<char>,
    collection: Seq<char>,
    request: CreateRequest,
    etag: String,
    nanos: i64,
    now: i64,
    out: CreateOutcome,
)
    requires
        is_outcome(secret, collection, request, Ok(etag), nanos, now, out),
    ensures
        out.reply.status == 200,
        out.reply.body@ == encode_utf8(
            soap_envelope(
                created_message(
                    server_id_of(secret, resource_address(collection, request.resource_name@)),
                    change_key_of(etag@, nanos),
                ),
            ),
        ),
        out.record matches Some(rec) && rec@.server_id == server_id_of(
            secret,
            rec@.caldav_resource_href,
        ) && rec@.caldav_resource_href == resource_address(collection, request.resource_name@),
{
}

} // verus!
