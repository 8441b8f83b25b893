//! What the gateway says to the CalDAV backend and what it makes of the
//! answers. Sending and receiving is left to the caller.

use vstd::prelude::*;
use vstd::string::*;
use vstd::std_specs::iter::IteratorSpec;
use crate::clock::{utc_basic_form, utc_basic_text};
use crate::error::GatewayError;
use crate::ews_marshaller::text_of;
use crate::sync::{resource_views, BackendResource, ResourceView};
use crate::text::{bytes_eq, escape_chars, xml_escape};
use crate::xml::{
    event_text, local_name, local_part, scan_xml, scanned, text_of_raw, well_formed, XmlEvent,
};

verus! {

/// How to reach the backend and where to listen.
#[derive(Clone)]
pub struct Config {
    pub bind: String,
    pub caldav_url: String,
    pub tls_cert: String,
    pub tls_key: String,
}

/// The settings that a gateway starts with. They are the same whatever file
/// `path` names: the file is left to the caller to read.
pub fn load_config(path: &str) -> (cfg: Config)
    ensures
        cfg.bind@ == "0.0.0.0:8443"@,
        cfg.caldav_url@ == "https://stalwart/dav/cal/"@,
        cfg.tls_cert@ == "/etc/exchange-gateway/cert.pem"@,
        cfg.tls_key@ == "/etc/exchange-gateway/key.pem"@,
{
    Config {
        bind: "0.0.0.0:8443".to_owned(),
        caldav_url: "https://stalwart/dav/cal/".to_owned(),
        tls_cert: "/etc/exchange-gateway/cert.pem".to_owned(),
        tls_key: "/etc/exchange-gateway/key.pem".to_owned(),
    }
}

/// Whether a status says that a request succeeded.
pub open spec fn is_success(status: u16) -> bool {
    200 <= status < 300
}

/// What the answer to a discovery request means: anything but success is a
/// rejection of the credentials.
pub open spec fn find_result(status: u16) -> Result<(), GatewayError> {
    if is_success(status) {
        Ok(())
    } else {
        Err(GatewayError::Auth)
    }
}

/// What the answer to a query means.
pub open spec fn query_result(status: u16) -> Result<(), GatewayError> {
    if is_success(status) {
        Ok(())
    } else if status == 401 || status == 403 {
        Err(GatewayError::Auth)
    } else {
        Err(GatewayError::Backend)
    }
}

/// What the answer to a write means: a precondition or conflict status says
/// that the backend refused the write.
pub open spec fn put_result(status: u16) -> Result<(), GatewayError> {
    if is_success(status) {
        Ok(())
    } else if status == 409 || status == 412 {
        Err(GatewayError::Conflict)
    } else {
        Err(GatewayError::Backend)
    }
}

/// What the answer to a removal means.
pub open spec fn delete_result(status: u16) -> Result<(), GatewayError> {
    if is_success(status) {
        Ok(())
    } else {
        Err(GatewayError::Backend)
    }
}

/// Judges the answer to a discovery request.
pub fn find_outcome(status: u16) -> (r: Result<(), GatewayError>)
    ensures
        r == find_result(status),
{
    if 200 <= status && status < 300 {
        Ok(())
    } else {
        Err(GatewayError::Auth)
    }
}

/// Judges the answer to a query.
pub fn query_outcome(status: u16) -> (r: Result<(), GatewayError>)
    ensures
        r == query_result(status),
{
    if 200 <= status && status < 300 {
        Ok(())
    } else if status == 401 || status == 403 {
        Err(GatewayError::Auth)
    } else {
        Err(GatewayError::Backend)
    }
}

/// Judges the answer to a write.
pub fn put_outcome(status: u16) -> (r: Result<(), GatewayError>)
    ensures
        r == put_result(status),
{
    if 200 <= status && status < 300 {
        Ok(())
    } else if status == 409 || status == 412 {
        Err(GatewayError::Conflict)
    } else {
        Err(GatewayError::Backend)
    }
}

/// Judges the answer to a removal.
pub fn delete_outcome(status: u16) -> (r: Result<(), GatewayError>)
    ensures
        r == delete_result(status),
{
    if 200 <= status && status < 300 {
        Ok(())
    } else {
        Err(GatewayError::Backend)
    }
}

/// The body of a calendar-query REPORT that asks for the events of a
/// collection in a time range.
pub open spec fn calendar_query(start: Seq<char>, end: Seq<char>) -> Seq<char> {
    "<?xml version=\"1.0\" encoding=\"utf-8\"?><c:calendar-query xmlns:d=\"DAV:\" xmlns:c=\"urn:ietf:params:xml:ns:caldav\"><d:prop><d:getetag/><c:calendar-data/></d:prop><c:filter><c:comp-filter name=\"VCALENDAR\"><c:comp-filter name=\"VEVENT\"><c:time-range start=\""@
        + escape_chars(start) + "\" end=\""@ + escape_chars(end)
        + "\"/></c:comp-filter></c:comp-filter></c:filter></c:calendar-query>"@
}

/// Builds the body of a calendar-query REPORT for a time range given in the
/// `YYYYMMDDTHHMMSSZ` form.
pub fn calendar_query_body(start: &str, end: &str) -> (r: String)
    ensures
        r@ == calendar_query(start@, end@),
{
    let from = xml_escape(start);
    let to = xml_escape(end);
    let mut out = String::new();
    out.append(
        "<?xml version=\"1.0\" encoding=\"utf-8\"?><c:calendar-query xmlns:d=\"DAV:\" xmlns:c=\"urn:ietf:params:xml:ns:caldav\"><d:prop><d:getetag/><c:calendar-data/></d:prop><c:filter><c:comp-filter name=\"VCALENDAR\"><c:comp-filter name=\"VEVENT\"><c:time-range start=\"",
    );
    out.append(from.as_str());
    out.append("\" end=\"");
    out.append(to.as_str());
    out.append("\"/></c:comp-filter></c:comp-filter></c:filter></c:calendar-query>");
    assert(out@ =~= calendar_query(start@, end@));
    out
}

/// Fifty-two weeks, in seconds.
pub const WINDOW: i64 = 31_449_600;

/// The start of the window around an instant, limited to what 64 bits hold.
pub open spec fn window_start(now: i64) -> i64 {
    if now < i64::MIN + WINDOW {
        i64::MIN
    } else {
        (now - WINDOW) as i64
    }
}

/// The end of the window around an instant, limited to what 64 bits hold.
pub open spec fn window_end(now: i64) -> i64 {
    if now > i64::MAX - WINDOW {
        i64::MAX
    } else {
        (now + WINDOW) as i64
    }
}

/// The window that a Sync cycle queries: fifty-two weeks to either side of
/// the present, both ends in the `YYYYMMDDTHHMMSSZ` form; nothing where an
/// end lies outside the calendar's range.
pub fn sync_window(now: i64) -> (r: Option<(String, String)>)
    ensures
        match (utc_basic_form(window_start(now)), utc_basic_form(window_end(now))) {
            (Some(s), Some(e)) => r matches Some(w) && w.0@ == s && w.1@ == e,
            _ => r is None,
        },
{
    let from = if now < i64::MIN + WINDOW {
        i64::MIN
    } else {
        now - WINDOW
    };
    let to = if now > i64::MAX - WINDOW {
        i64::MAX
    } else {
        now + WINDOW
    };
    let start = match utc_basic_text(from) {
        Some(s) => s,
        None => { return None; },
    };
    let end = match utc_basic_text(to) {
        Some(e) => e,
        None => { return None; },
    };
    Some((start, end))
}

/// A text without the slashes at its end.
pub open spec fn without_trailing_slashes(s: Seq<char>) -> Seq<char>
    decreases s.len(),
{
    if s.len() > 0 && s.last() == '/' {
        without_trailing_slashes(s.drop_last())
    } else {
        s
    }
}

/// `n` slashes.
pub open spec fn slashes(n: nat) -> Seq<char>
    decreases n,
{
    if n == 0 {
        Seq::empty()
    } else {
        slashes((n - 1) as nat).push('/')
    }
}

/// Slashes at the end of a text do not count.
proof fn lemma_slashes_stripped(s: Seq<char>, n: nat)
    ensures
        without_trailing_slashes(s + slashes(n)) == without_trailing_slashes(s),
    decreases n,
{
    if n == 0 {
        assert(s + slashes(0) =~= s);
    } else {
        let t = s + slashes(n);
        assert(t.last() == '/');
        assert(t.drop_last() =~= s + slashes((n - 1) as nat));
        lemma_slashes_stripped(s, (n - 1) as nat);
    }
}

/// The address of a resource in a collection: the collection without the
/// slashes at its end, one slash, and the name of the resource.
pub open spec fn resource_address(collection: Seq<char>, name: Seq<char>) -> Seq<char> {
    without_trailing_slashes(collection) + seq!['/'] + name
}

/// Builds the address of a resource in a collection.
pub fn resource_url(collection: &str, name: &str) -> (r: String)
    ensures
        r@ == resource_address(collection@, name@),
{
    broadcast use group_string_axioms;
    let mut out = String::new();
    let mut pending: usize = 0;
    let total = collection.unicode_len();
    let mut it = collection.chars();
    let ghost mut done: Seq<char> = Seq::empty();
    assert(done + it.remaining() =~= collection@);
    assert(out@ + slashes(0) =~= done);
    loop
        invariant
            done + it.remaining() == collection@,
            it.decrease() is Some,
            out@ + slashes(pending as nat) == done,
            out@ == without_trailing_slashes(out@),
            pending <= done.len(),
            done.len() <= collection@.len(),
            collection@.len() == total,
        decreases it.decrease()->0,
    {
        let ghost before = it.remaining();
        match it.next() {
            None => {
                assert(done =~= collection@);
                proof {
                    lemma_slashes_stripped(out@, pending as nat);
                }
                out.push('/');
                out.append(name);
                return out;
            },
            Some(c) => {
                let ghost prev = done;
                let ghost out0 = out@;
                proof {
                    assert(done.push(c) + it.remaining() =~= done + before);
                    done = done.push(c);
                    assert(done.len() <= collection@.len());
                }
                if c == '/' {
                    pending += 1;
                    assert(out@ + slashes(pending as nat) =~= done);
                } else {
                    while pending > 0
                        invariant
                            out@ + slashes(pending as nat) == prev,
                        decreases pending,
                    {
                        let ghost o = out@;
                        proof {
                            lemma_slash_front(pending as nat);
                        }
                        out.push('/');
                        pending -= 1;
                        assert(out@ + slashes(pending as nat) =~= o + slashes((pending + 1) as nat));
                    }
                    assert(out@ + slashes(0) =~= out@);
                    out.push(c);
                    assert(out@ + slashes(0) =~= done);
                    assert(out@.last() == c);
                }
            },
        }
    }
}

/// A run of slashes is a slash followed by a shorter run.
proof fn lemma_slash_front(n: nat)
    requires
        n > 0,
    ensures
        slashes(n) == seq!['/'] + slashes((n - 1) as nat),
    decreases n,
{
    if n == 1 {
        assert(slashes(0) =~= Seq::<char>::empty());
        assert(slashes(1) =~= seq!['/'] + slashes(0));
    } else {
        lemma_slash_front((n - 1) as nat);
        assert(slashes(n) =~= seq!['/'] + slashes((n - 1) as nat));
    }
}

/// The address of the calendar collection of a user: the base address
/// without the slashes at its end, a slash, the user, a slash.
pub open spec fn collection_address(base: Seq<char>, user: Seq<char>) -> Seq<char> {
    resource_address(base, user) + seq!['/']
}

/// Builds the address of the calendar collection of a user.
pub fn collection_url(base: &str, user: &str) -> (r: String)
    ensures
        r@ == collection_address(base@, user@),
{
    let mut out = resource_url(base, user);
    out.push('/');
    out
}

/// The collection that a request works on: the first that discovery found.
/// A failed discovery stays the failure it was; a discovery that found
/// nothing is a backend failure.
pub open spec fn chosen_collection(found: Result<Seq<Seq<char>>, GatewayError>) -> Result<
    Seq<char>,
    GatewayError,
> {
    match found {
        Ok(list) => if list.len() > 0 {
            Ok(list[0])
        } else {
            Err(GatewayError::Backend)
        },
        Err(e) => Err(e),
    }
}

/// The addresses that a discovery found, or why it failed.
pub open spec fn found_view(found: Result<Vec<String>, GatewayError>) -> Result<
    Seq<Seq<char>>,
    GatewayError,
> {
    match found {
        Ok(list) => Ok(Seq::new(list@.len(), |i: int| list@[i]@)),
        Err(e) => Err(e),
    }
}

/// Chooses the collection that a request works on.
pub fn first_calendar(found: Result<Vec<String>, GatewayError>) -> (r: Result<String, GatewayError>)
    ensures
        match chosen_collection(found_view(found)) {
            Ok(c) => r matches Ok(s) && s@ == c,
            Err(e) => r == Err::<String, GatewayError>(e),
        },
{
    match found {
        Ok(list) => {
            if list.len() > 0 {
                Ok(list[0].clone())
            } else {
                Err(GatewayError::Backend)
            }
        },
        Err(e) => Err(e),
    }
}

/// What the answer to a write gives: the version token that the backend
/// assigned, empty where it named none, or the failure that the status says.
pub fn put_answer(status: u16, etag: Option<String>) -> (r: Result<String, GatewayError>)
    ensures
        match put_result(status) {
            Ok(_) => r matches Ok(t) && t@ == or_empty(text_of(etag)),
            Err(e) => r == Err::<String, GatewayError>(e),
        },
{
    match put_outcome(status) {
        Ok(_) => match etag {
            Some(t) => Ok(t),
            None => Ok(String::new()),
        },
        Err(e) => Err(e),
    }
}

/// What has been read of a multistatus answer: the local name of the
/// element being read, the address and version token of the response being
/// read, and the resources of the responses read before it.
pub struct Reading {
    pub element: Option<Seq<u8>>,
    pub href: Option<Seq<char>>,
    pub etag: Option<Seq<char>>,
    pub found: Seq<ResourceView>,
}

/// The text that an optional text stands for: nothing counts as empty.
pub open spec fn or_empty(t: Option<Seq<char>>) -> Seq<char> {
    match t {
        Some(s) => s,
        None => Seq::empty(),
    }
}

/// The resources found once the response being read is complete: a response
/// counts where it gave an address.
pub open spec fn flushed(r: Reading) -> Seq<ResourceView> {
    match r.href {
        Some(h) => r.found.push(ResourceView { href: h, etag: or_empty(r.etag), uid: Seq::empty() }),
        None => r.found,
    }
}

/// What is read after one more event: a `response` element completes the
/// response before it; the first text in an `href` element is the address
/// of the response, and a text in a `getetag` element its version token.
pub open spec fn reading_step(r: Reading, e: XmlEvent) -> Reading {
    match e {
        XmlEvent::Start(q) => if local_part(q@) == "response".spec_bytes() {
            Reading { element: Some(local_part(q@)), href: None, etag: None, found: flushed(r) }
        } else {
            Reading { element: Some(local_part(q@)), ..r }
        },
        XmlEvent::Text(raw) => match text_of_raw(raw@) {
            Some(t) => if r.element == Some("href".spec_bytes()) && r.href is None {
                Reading { href: Some(t), ..r }
            } else if r.element == Some("getetag".spec_bytes()) {
                Reading { etag: Some(t), ..r }
            } else {
                r
            },
            None => r,
        },
        XmlEvent::End => Reading { element: None, ..r },
        _ => r,
    }
}

/// What is read of a sequence of events.
pub open spec fn reading_of(events: Seq<XmlEvent>) -> Reading
    decreases events.len(),
{
    if events.len() == 0 {
        Reading { element: None, href: None, etag: None, found: Seq::empty() }
    } else {
        reading_step(reading_of(events.drop_last()), events.last())
    }
}

/// The resources that a multistatus answer lists, in order.
pub open spec fn listing_of(events: Seq<XmlEvent>) -> Seq<ResourceView> {
    flushed(reading_of(events))
}

/// Completes the response being read.
fn flush(found: &mut Vec<BackendResource>, href: Option<String>, etag: Option<String>)
    ensures
        resource_views(final(found)@) == flushed(
            Reading {
                element: None,
                href: text_of(href),
                etag: text_of(etag),
                found: resource_views(old(found)@),
            },
        ),
{
    let ghost before = resource_views(found@);
    match href {
        Some(h) => {
            let tag = match etag {
                Some(t) => t,
                None => String::new(),
            };
            let res = BackendResource { href: h, etag: tag, uid: String::new() };
            found.push(res);
            assert(resource_views(found@) =~= before.push(res@));
        },
        None => {},
    }
}

/// Reads the resources, with their version tokens, out of the events of a
/// multistatus answer.
pub fn listing_from_events(events: &Vec<XmlEvent>) -> (r: Vec<BackendResource>)
    ensures
        resource_views(r@) == listing_of(events@),
{
    let mut element: Option<Vec<u8>> = None;
    let mut href: Option<String> = None;
    let mut etag: Option<String> = None;
    let mut found: Vec<BackendResource> = Vec::new();
    let mut i: usize = 0;
    assert(events@.take(0) =~= Seq::<XmlEvent>::empty());
    assert(resource_views(found@) =~= Seq::<ResourceView>::empty());
    while i < events.len()
        invariant
            i <= events@.len(),
            text_of(href) == reading_of(events@.take(i as int)).href,
            text_of(etag) == reading_of(events@.take(i as int)).etag,
            resource_views(found@) == reading_of(events@.take(i as int)).found,
            match element {
                Some(v) => reading_of(events@.take(i as int)).element == Some(v@),
                None => reading_of(events@.take(i as int)).element is None,
            },
        decreases events@.len() - i,
    {
        proof {
            assert(events@.take(i + 1).drop_last() =~= events@.take(i as int));
            assert(events@.take(i + 1).last() == events@[i as int]);
        }
        match &events[i] {
            XmlEvent::Start(q) => {
                let local = local_name(q.as_slice());
                if bytes_eq(local.as_slice(), "response".as_bytes()) {
                    flush(&mut found, href, etag);
                    href = None;
                    etag = None;
                }
                element = Some(local);
            },
            XmlEvent::Text(raw) => {
                let in_href = match &element {
                    Some(v) => bytes_eq(v.as_slice(), "href".as_bytes()),
                    None => false,
                };
                let in_etag = match &element {
                    Some(v) => bytes_eq(v.as_slice(), "getetag".as_bytes()),
                    None => false,
                };
                match event_text(raw.as_slice()) {
                    Some(t) => {
                        if in_href && href.is_none() {
                            href = Some(t);
                        } else if in_etag {
                            etag = Some(t);
                        }
                    },
                    None => {},
                }
            },
            XmlEvent::End => {
                element = None;
            },
            _ => {},
        }
        i += 1;
    }
    assert(events@.take(events@.len() as int) =~= events@);
    flush(&mut found, href, etag);
    found
}

/// What the answer to a query gives: the resources that the multistatus
/// body lists, or the failure that the status says. A body that is not
/// well-formed is a backend failure.
pub fn query_answer(status: u16, body: &str) -> (r: Result<Vec<BackendResource>, GatewayError>)
    ensures
        match query_result(status) {
            Ok(_) => if well_formed(body@) {
                r matches Ok(l) && resource_views(l@) == listing_of(scanned(body@))
            } else {
                r matches Err(e) && e == GatewayError::Backend
            },
            Err(e) => r matches Err(f) && f == e,
        },
{
    match query_outcome(status) {
        Ok(_) => {
            let scan = scan_xml(body);
            if scan.complete {
                Ok(listing_from_events(&scan.events))
            } else {
                Err(GatewayError::Backend)
            }
        },
        Err(e) => Err(e),
    }
}

} // verus!
