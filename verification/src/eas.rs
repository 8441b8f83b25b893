//! The ActiveSync endpoint: what a request asks for and what is answered.

use vstd::prelude::*;
use vstd::string::*;
use vstd::utf8::*;
use crate::auth::{basic_credentials, header_credentials};
use crate::error::{name_of_failure, status_of};
use crate::operation::{content_of, eas_operation, eas_operation_from, element_content, Operation};
use crate::sync::{CycleStatus, SyncOutcome};
use crate::utils::{text_reply, Reply};
use crate::wbxml::{decode_spec, encode_spec, Wbxml};
use crate::xml::{scan_xml, scanned, XmlEvent};

verus! {

/// The credentials that an authorization header carries, if it is there and
/// well-formed.
pub open spec fn credentials_of(header: Option<String>) -> Option<(Seq<char>, Seq<char>)> {
    match header {
        Some(h) => header_credentials(h@, false),
        None => None,
    }
}

/// Reads user and password out of a Basic authorization header.
pub fn parse_basic(header: Option<String>) -> (r: Result<(String, String), ()>)
    ensures
        match credentials_of(header) {
            Some((u, p)) => r matches Ok(pair) && pair.0@ == u && pair.1@ == p,
            None => r is Err,
        },
{
    match header {
        Some(h) => match basic_credentials(h.as_str(), false) {
            Some(pair) => Ok(pair),
            None => Err(()),
        },
        None => Err(()),
    }
}

/// The answer to FolderSync: the one folder that the gateway serves, the
/// calendar, with server identifier 1 and type 8.
pub open spec fn folder_sync_xml() -> Seq<char> {
    "<?xml version=\"1.0\" encoding=\"utf-8\"?><FolderSync xmlns=\"FolderHierarchy:\"><Status>1</Status><SyncKey>1</SyncKey><Folders><Folder><ServerId>1</ServerId><ParentId>0</ParentId><DisplayName>Calendar</DisplayName><Type>8</Type></Folder></Folders></FolderSync>"@
}

/// Builds the answer to FolderSync.
pub fn build_eas_foldersync_response() -> (r: String)
    ensures
        r@ == folder_sync_xml(),
{
    "<?xml version=\"1.0\" encoding=\"utf-8\"?><FolderSync xmlns=\"FolderHierarchy:\"><Status>1</Status><SyncKey>1</SyncKey><Folders><Folder><ServerId>1</ServerId><ParentId>0</ParentId><DisplayName>Calendar</DisplayName><Type>8</Type></Folder></Folders></FolderSync>".to_owned()
}

/// What a Sync request asks for.
pub struct SyncRequest {
    pub user: String,
    pub password: String,
    /// The key that the client presents; "0" where it presents none.
    pub presented_key: String,
    /// The collection to synchronise; "1" where the request names none.
    pub collection_id: String,
    /// Whether the request came as WBXML, so that the answer goes as WBXML.
    pub binary: bool,
}

/// What is to be done with an ActiveSync request.
pub enum EasDecision {
    /// Answer at once.
    Reply(Reply),
    /// Run a Sync cycle.
    Sync(SyncRequest),
}

/// The body of an answer: the markup itself, or its WBXML document where the
/// request came as WBXML. Markup that cannot be encoded is answered with
/// status 500 and no body.
pub open spec fn eas_reply_of(page: u8, status: u16, xml: Seq<char>, binary: bool) -> (u16, Seq<u8>) {
    if binary {
        match encode_spec(page, encode_utf8(xml)) {
            Some(doc) => (status, doc),
            None => (500, Seq::empty()),
        }
    } else {
        (status, encode_utf8(xml))
    }
}

/// Builds an answer from markup, in the form in which the request came.
pub fn eas_reply(codec: &Wbxml, status: u16, xml: &str, binary: bool) -> (r: Reply)
    ensures
        (r.status, r.body@) == eas_reply_of(codec.codepage, status, xml@, binary),
{
    if binary {
        match codec.encode(xml) {
            Ok(doc) => Reply { status, body: doc },
            Err(_) => Reply { status: 500, body: Vec::new() },
        }
    } else {
        text_reply(status, xml)
    }
}

/// The text that an optional text stands for, or a default.
pub open spec fn or_default(t: Option<Seq<char>>, default: Seq<char>) -> Seq<char> {
    match t {
        Some(s) => s,
        None => default,
    }
}

/// Decides what to do with an ActiveSync request whose credentials and
/// events are known: FolderSync is answered at once with the folder list,
/// Sync asks for a cycle with the key and collection that the request names,
/// and anything else is refused with status 400.
pub fn route_activesync(
    codec: &Wbxml,
    user: String,
    password: String,
    events: &Vec<XmlEvent>,
    binary: bool,
) -> (d: EasDecision)
    ensures
        is_routed(codec.codepage, user@, password@, events@, binary, d),
{
    match eas_operation(events) {
        Operation::FolderSync => {
            let xml = build_eas_foldersync_response();
            EasDecision::Reply(eas_reply(codec, 200, xml.as_str(), binary))
        },
        Operation::Sync => {
            let presented_key = match element_content(events, "SyncKey") {
                Some(k) => k,
                None => "0".to_owned(),
            };
            let collection_id = match element_content(events, "CollectionId") {
                Some(c) => c,
                None => "1".to_owned(),
            };
            EasDecision::Sync(SyncRequest { user, password, presented_key, collection_id, binary })
        },
        _ => EasDecision::Reply(text_reply(400, "Unsupported ActiveSync operation")),
    }
}

/// Whether a payload decodes to markup that is valid text.
pub open spec fn decodes(page: u8, body: Seq<u8>) -> bool {
    decode_spec(page, body) matches Some(xml) && valid_utf8(xml)
}

/// The markup that a payload decodes to, as text.
pub open spec fn decoded_text(page: u8, body: Seq<u8>) -> Seq<char> {
    decode_utf8(decode_spec(page, body)->0)
}

/// Whether a decision is the one for a request with the given credentials
/// and events: FolderSync is answered at once with the folder list, Sync
/// asks for a cycle with the key and collection that the request names, and
/// anything else is refused with status 400.
pub open spec fn is_routed(
    page: u8,
    user: Seq<char>,
    password: Seq<char>,
    events: Seq<XmlEvent>,
    binary: bool,
    d: EasDecision,
) -> bool {
    match eas_operation_from(events, 0) {
        Operation::FolderSync => d matches EasDecision::Reply(r) && (r.status, r.body@) == eas_reply_of(
            page,
            200,
            folder_sync_xml(),
            binary,
        ),
        Operation::Sync => d matches EasDecision::Sync(q) && q.user@ == user && q.password@ == password
            && q.binary == binary && q.presented_key@ == or_default(
            content_of(events, "SyncKey".spec_bytes()).text,
            "0"@,
        ) && q.collection_id@ == or_default(
            content_of(events, "CollectionId".spec_bytes()).text,
            "1"@,
        ),
        _ => d matches EasDecision::Reply(r) && r.status == 400 && r.body@
            == "Unsupported ActiveSync operation".spec_bytes(),
    }
}

/// Decides what to do with an ActiveSync request. A request without
/// well-formed Basic credentials is answered with status 401, one whose body
/// does not decode with status 400; otherwise the events of the decoded
/// markup are routed as by `route_activesync`, with the credentials of the
/// header, and the answer goes as WBXML where the request came as WBXML.
pub fn handle_activesync(codec: &Wbxml, auth: Option<String>, body: &[u8]) -> (d: EasDecision)
    ensures
        match credentials_of(auth) {
            None => d matches EasDecision::Reply(r) && r.status == 401 && r.body@
                == "Unauthorized".spec_bytes(),
            Some(c) => if !decodes(codec.codepage, body@) {
                d matches EasDecision::Reply(r) && r.status == 400 && r.body@
                    == "Malformed request".spec_bytes()
            } else {
                is_routed(
                    codec.codepage,
                    c.0,
                    c.1,
                    scanned(decoded_text(codec.codepage, body@)),
                    body@[0] != 0x3c,
                    d,
                )
            },
        },
{
    let (user, password) = match parse_basic(auth) {
        Ok(pair) => pair,
        Err(_) => {
            return EasDecision::Reply(text_reply(401, "Unauthorized"));
        },
    };
    let xml = match codec.decode(body) {
        Ok(x) => x,
        Err(_) => {
            return EasDecision::Reply(text_reply(400, "Malformed request"));
        },
    };
    proof {
        encode_utf8_decode_utf8(xml@);
    }
    let binary = body[0] != 0x3c;
    let scan = scan_xml(xml.as_str());
    route_activesync(codec, user, password, &scan.events, binary)
}

/// The answer to a Sync request once its cycle is decided: the response of
/// the cycle with status 200, or the status of the failure that abandoned
/// the cycle with the failure's name.
pub fn sync_reply(codec: &Wbxml, outcome: &SyncOutcome, binary: bool) -> (r: Reply)
    ensures
        match outcome.status {
            CycleStatus::Failed(e) => r.status == status_of(e) && r.body@ == encode_utf8(
                name_of_failure(e),
            ),
            _ => (r.status, r.body@) == eas_reply_of(codec.codepage, 200, outcome.response@, binary),
        },
{
    match outcome.status {
        CycleStatus::Failed(e) => {
            let what = e.describe();
            text_reply(e.http_status(), what.as_str())
        },
        _ => eas_reply(codec, 200, outcome.response.as_str(), binary),
    }
}

} // verus!
