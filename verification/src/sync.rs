//! Identity derivation and the incremental-sync engine.

use vstd::prelude::*;
use vstd::string::*;
use crate::clock::clock_reading;
use crate::error::GatewayError;
use crate::identity::{base64_url, base64_url_form, hmac_sha256, hmac_sha256_tag, url_symbol};
use crate::storage::{CalendarItemRecord, RecordView};
use crate::text::{escape_chars, text_eq, xml_escape};

verus! {

/// The server identifier of a backend resource under a secret: the keyed
/// tag of the resource's address, in unpadded URL-safe base64.
pub open spec fn server_id_of(secret: Seq<char>, href: Seq<char>) -> Seq<char> {
    base64_url_form(hmac_sha256_tag(vstd::utf8::encode_utf8(secret), vstd::utf8::encode_utf8(href)))
}

/// Derives the stable server identifier of a backend resource. The result
/// depends on the secret and the address alone, and is a text of 43 symbols
/// of the URL-safe base64 alphabet, without padding.
pub fn generate_server_id(secret: &str, resource_href: &str) -> (id: String)
    ensures
        id@ == server_id_of(secret@, resource_href@),
        id@.len() == 43,
        forall|i: int| 0 <= i < id@.len() ==> url_symbol(#[trigger] id@[i]),
{
    let tag = hmac_sha256(secret.as_bytes(), resource_href.as_bytes());
    base64_url(tag.as_slice())
}

/// The character of a decimal digit.
pub open spec fn digit_char(d: int) -> char {
    if d == 0 {
        '0'
    } else if d == 1 {
        '1'
    } else if d == 2 {
        '2'
    } else if d == 3 {
        '3'
    } else if d == 4 {
        '4'
    } else if d == 5 {
        '5'
    } else if d == 6 {
        '6'
    } else if d == 7 {
        '7'
    } else if d == 8 {
        '8'
    } else {
        '9'
    }
}

/// The decimal digits of a natural number, most significant first.
pub open spec fn digits(n: nat) -> Seq<char>
    decreases n,
{
    if n < 10 {
        seq![digit_char(n as int)]
    } else {
        digits(n / 10).push(digit_char((n % 10) as int))
    }
}

/// The decimal text of an integer.
pub open spec fn decimal(n: int) -> Seq<char> {
    if n < 0 {
        seq!['-'] + digits((-n) as nat)
    } else {
        digits(n as nat)
    }
}

/// Gives the character of a decimal digit.
fn digit(d: u64) -> (c: char)
    requires
        d < 10,
    ensures
        c == digit_char(d as int),
{
    if d == 0 {
        '0'
    } else if d == 1 {
        '1'
    } else if d == 2 {
        '2'
    } else if d == 3 {
        '3'
    } else if d == 4 {
        '4'
    } else if d == 5 {
        '5'
    } else if d == 6 {
        '6'
    } else if d == 7 {
        '7'
    } else if d == 8 {
        '8'
    } else {
        '9'
    }
}

/// Appends the decimal digits of a number.
fn push_digits(out: &mut String, n: u64)
    ensures
        final(out)@ == old(out)@ + digits(n as nat),
    decreases n,
{
    if n < 10 {
        out.push(digit(n));
        assert(out@ =~= old(out)@ + digits(n as nat));
    } else {
        push_digits(out, n / 10);
        out.push(digit(n % 10));
        assert(out@ =~= old(out)@ + digits(n as nat));
    }
}

/// Appends the decimal text of an integer.
pub fn push_decimal(out: &mut String, n: i64)
    ensures
        final(out)@ == old(out)@ + decimal(n as int),
{
    if n < 0 {
        out.push('-');
        let magnitude: u64 = ((-(n + 1)) as u64) + 1;
        push_digits(out, magnitude);
        assert(out@ =~= old(out)@ + (seq!['-'] + digits((-n) as nat)));
    } else {
        push_digits(out, n as u64);
    }
}

/// The change key of a version of an item at an instant: the version token,
/// a colon and the instant in nanoseconds, in unpadded URL-safe base64.
pub open spec fn change_key_of(etag: Seq<char>, nanos: i64) -> Seq<char> {
    base64_url_form(vstd::utf8::encode_utf8(etag + seq![':'] + decimal(nanos as int)))
}

/// Different digits have different characters.
proof fn lemma_digit_char(a: int, b: int)
    requires
        0 <= a < 10,
        0 <= b < 10,
        digit_char(a) == digit_char(b),
    ensures
        a == b,
{
}

/// The digits of a number are digits: there is at least one, and none is a
/// minus sign or a colon; and a number below ten has one digit, any other
/// more.
proof fn lemma_digits_shape(n: nat)
    ensures
        digits(n).len() >= 1,
        n < 10 <==> digits(n).len() == 1,
        forall|i: int| 0 <= i < digits(n).len() ==> digits(n)[i] != '-' && digits(n)[i] != ':',
    decreases n,
{
    if n >= 10 {
        lemma_digits_shape(n / 10);
    }
}

/// Different numbers have different digits.
proof fn lemma_digits_differ(a: nat, b: nat)
    requires
        digits(a) == digits(b),
    ensures
        a == b,
    decreases a,
{
    lemma_digits_shape(a);
    lemma_digits_shape(b);
    if a < 10 {
        assert(b < 10);
        assert(digits(a) =~= seq![digit_char(a as int)]);
        assert(digits(b) =~= seq![digit_char(b as int)]);
        assert(digits(a)[0] == digit_char(a as int));
        assert(digits(b)[0] == digit_char(b as int));
        lemma_digit_char(a as int, b as int);
    } else {
        assert(b >= 10);
        let da = digits(a / 10);
        let db = digits(b / 10);
        let ca = digit_char((a % 10) as int);
        let cb = digit_char((b % 10) as int);
        assert(digits(a) == da.push(ca));
        assert(digits(b) == db.push(cb));
        assert(da.push(ca).last() == ca);
        assert(db.push(cb).last() == cb);
        assert(da.push(ca).drop_last() =~= da);
        assert(db.push(cb).drop_last() =~= db);
        lemma_digit_char((a % 10) as int, (b % 10) as int);
        lemma_digits_differ(a / 10, b / 10);
    }
}

/// Different integers have different decimal texts.
pub proof fn lemma_decimal_differ(a: int, b: int)
    requires
        decimal(a) == decimal(b),
    ensures
        a == b,
{
    let da = digits((if a < 0 { -a } else { a }) as nat);
    let db = digits((if b < 0 { -b } else { b }) as nat);
    lemma_digits_shape((if a < 0 { -a } else { a }) as nat);
    lemma_digits_shape((if b < 0 { -b } else { b }) as nat);
    assert(a < 0 ==> decimal(a) == seq!['-'] + da && decimal(a)[0] == '-');
    assert(a >= 0 ==> decimal(a) == da && decimal(a)[0] != '-');
    assert(b < 0 ==> decimal(b) == seq!['-'] + db && decimal(b)[0] == '-');
    assert(b >= 0 ==> decimal(b) == db && decimal(b)[0] != '-');
    if a < 0 {
        assert(b < 0);
        assert((seq!['-'] + da).skip(1) =~= da);
        assert((seq!['-'] + db).skip(1) =~= db);
        assert(da == db);
        lemma_digits_differ((-a) as nat, (-b) as nat);
    } else {
        assert(b >= 0);
        lemma_digits_differ(a as nat, b as nat);
    }
}

/// The decimal text of an integer holds no colon.
proof fn lemma_decimal_no_colon(n: int)
    ensures
        decimal(n).len() >= 1,
        forall|i: int| 0 <= i < decimal(n).len() ==> decimal(n)[i] != ':',
{
    let d = digits((if n < 0 { -n } else { n }) as nat);
    lemma_digits_shape((if n < 0 { -n } else { n }) as nat);
    if n < 0 {
        assert forall|i: int| 0 <= i < decimal(n).len() implies decimal(n)[i] != ':' by {
            if i > 0 {
                assert(decimal(n)[i] == d[i - 1]);
            }
        }
    }
}

/// The payload of a change key tells its version token and its instant:
/// the instant stands behind the last colon, and the token before it.
proof fn lemma_payload_differ(e1: Seq<char>, a: i64, e2: Seq<char>, b: i64)
    requires
        e1 + seq![':'] + decimal(a as int) == e2 + seq![':'] + decimal(b as int),
    ensures
        e1 == e2,
        a == b,
{
    let da = decimal(a as int);
    let db = decimal(b as int);
    let pa = e1 + seq![':'] + da;
    let pb = e2 + seq![':'] + db;
    lemma_decimal_no_colon(a as int);
    lemma_decimal_no_colon(b as int);
    assert(pa.len() == e1.len() + 1 + da.len());
    assert(pb.len() == e2.len() + 1 + db.len());
    if e1.len() < e2.len() {
        let k = e2.len() as int;
        assert(pb[k] == ':');
        assert(pa[k] == da[k - e1.len() - 1]);
    } else if e2.len() < e1.len() {
        let k = e1.len() as int;
        assert(pa[k] == ':');
        assert(pb[k] == db[k - e2.len() - 1]);
    } else {
        let k = e1.len() as int;
        assert(pa.take(k) =~= e1);
        assert(pb.take(k) =~= e2);
        assert(pa.skip(k + 1) =~= da);
        assert(pb.skip(k + 1) =~= db);
        lemma_decimal_differ(a as int, b as int);
    }
}

/// Whether a key is the change key of a version token at the instant
/// `nanos` and of no other token or instant.
pub open spec fn key_of_instant(key: Seq<char>, etag: Seq<char>, nanos: i64) -> bool {
    &&& key == change_key_of(etag, nanos)
    &&& forall|token: Seq<char>, other: i64|
        (token != etag || other != nanos) ==> #[trigger] change_key_of(token, other) != key
}

/// Derives the change key of a version of an item at a given instant. The
/// keys of different versions, and of one version at different instants,
/// differ.
pub fn change_key_at(etag: &str, nanos: i64) -> (key: String)
    ensures
        key_of_instant(key@, etag@, nanos),
{
    let mut payload = String::new();
    payload.append(etag);
    payload.push(':');
    push_decimal(&mut payload, nanos);
    assert(payload@ =~= etag@ + seq![':'] + decimal(nanos as int));
    let key = base64_url(payload.as_str().as_bytes());
    proof {
        assert forall|token: Seq<char>, other: i64|
            (token != etag@ || other != nanos) implies #[trigger] change_key_of(token, other)
            != key@ by {
            let theirs = token + seq![':'] + decimal(other as int);
            if change_key_of(token, other) == key@ {
                assert(base64_url_form(vstd::utf8::encode_utf8(theirs)) == key@);
                crate::text::lemma_same_bytes_same_text(theirs, payload@);
                lemma_payload_differ(token, other, etag@, nanos);
            }
        }
    }
    key
}

/// The instant that follows `last`, or the last instant there is.
pub open spec fn instant_after(last: i64) -> i64 {
    if last < i64::MAX {
        (last + 1) as i64
    } else {
        i64::MAX
    }
}

/// The instant of a key that follows the key of `last` where the clock
/// shows `reading`: the reading where it is later than `last`, else the
/// instant that follows `last`.
pub open spec fn later_of(reading: i64, last: i64) -> i64 {
    if reading > last {
        reading
    } else {
        instant_after(last)
    }
}

/// Reads the clock for the instant of the next key: the instant that the
/// clock shows, in nanoseconds, where that is later than `last`, else the
/// instant that follows `last`. The reading in whole seconds comes with it.
pub fn later_instant(last: i64) -> (r: (i64, i64))
    ensures
        r.0 > last || last == i64::MAX,
        exists|reading: i64| r.0 == #[trigger] later_of(reading, last),
{
    let (seconds, nanos) = clock_reading();
    let reading = reading_nanos(seconds, nanos);
    let at = if reading > last {
        reading
    } else if last < i64::MAX {
        last + 1
    } else {
        i64::MAX
    };
    assert(at == later_of(reading, last));
    (at, seconds)
}

/// Derives the change key of a version of an item at an instant later than
/// `last`, the instant of the key derived before: the instant that the
/// clock shows where that is later, else the one that follows `last`. The
/// instant is handed back for the next call. Unless `last` is the last
/// instant there is, the key differs from the key of `last`, whatever the
/// clock shows.
pub fn change_key_after(etag: &str, last: i64) -> (r: (String, i64))
    ensures
        key_of_instant(r.0@, etag@, r.1),
        r.1 > last || last == i64::MAX,
        last < i64::MAX ==> r.0@ != change_key_of(etag@, last),
        exists|reading: i64| r.1 == #[trigger] later_of(reading, last),
{
    let (at, _) = later_instant(last);
    (change_key_at(etag, at), at)
}

/// The instant of a clock reading in nanoseconds: the nanoseconds where the
/// clock gave them, else the seconds scaled, limited to what 64 bits hold.
pub open spec fn instant_nanos(seconds: i64, nanos: Option<i64>) -> i64 {
    match nanos {
        Some(n) => n,
        None => if seconds * 1_000_000_000 > i64::MAX {
            i64::MAX
        } else if seconds * 1_000_000_000 < i64::MIN {
            i64::MIN
        } else {
            (seconds * 1_000_000_000) as i64
        },
    }
}

/// Turns a clock reading into nanoseconds since the epoch.
pub fn reading_nanos(seconds: i64, nanos: Option<i64>) -> (r: i64)
    ensures
        r == instant_nanos(seconds, nanos),
{
    match nanos {
        Some(n) => n,
        None => {
            if seconds > 9_223_372_036 {
                i64::MAX
            } else if seconds < -9_223_372_036 {
                i64::MIN
            } else {
                assert(-9_223_372_036 * 1_000_000_000 <= seconds * 1_000_000_000
                    <= 9_223_372_036 * 1_000_000_000) by (nonlinear_arith)
                    requires
                        -9_223_372_036 <= seconds <= 9_223_372_036,
                ;
                seconds * 1_000_000_000
            }
        },
    }
}

/// Derives a change key for a version of an item: the key of that version
/// at the instant the clock shows, and of no other instant. Two calls give
/// different keys whenever the clock has moved between them; where it may
/// not have, `change_key_after` takes the instant of the last key.
pub fn generate_change_key(etag: &str) -> (key: String)
    ensures
        exists|nanos: i64| #[trigger] key_of_instant(key@, etag@, nanos),
{
    let (seconds, nanos) = clock_reading();
    let at = reading_nanos(seconds, nanos);
    let key = change_key_at(etag, at);
    assert(key_of_instant(key@, etag@, at));
    key
}

/// The cursor of one collection of one owner.
pub struct SyncState {
    pub owner: String,
    pub collection_id: String,
    pub sync_key: String,
    pub last_sync_token: String,
    /// When the last cycle succeeded, in seconds since the epoch.
    pub last_sync_timestamp: i64,
}

/// The contents of a cursor.
pub struct StateView {
    pub owner: Seq<char>,
    pub collection_id: Seq<char>,
    pub sync_key: Seq<char>,
    pub last_sync_token: Seq<char>,
    pub last_sync_timestamp: i64,
}

impl View for SyncState {
    type V = StateView;

    open spec fn view(&self) -> StateView {
        StateView {
            owner: self.owner@,
            collection_id: self.collection_id@,
            sync_key: self.sync_key@,
            last_sync_token: self.last_sync_token@,
            last_sync_timestamp: self.last_sync_timestamp,
        }
    }
}

impl SyncState {
    /// The cursor of a collection that has never been synchronised: key "0".
    pub fn initial(owner: &str, collection_id: &str) -> (st: SyncState)
        ensures
            st@ == (StateView {
                owner: owner@,
                collection_id: collection_id@,
                sync_key: "0"@,
                last_sync_token: Seq::<char>::empty(),
                last_sync_timestamp: 0,
            }),
    {
        SyncState {
            owner: owner.to_owned(),
            collection_id: collection_id.to_owned(),
            sync_key: "0".to_owned(),
            last_sync_token: String::new(),
            last_sync_timestamp: 0,
        }
    }
}

/// One resource as the backend lists it.
pub struct BackendResource {
    pub href: String,
    pub etag: String,
    pub uid: String,
}

/// The contents of a listed resource.
pub struct ResourceView {
    pub href: Seq<char>,
    pub etag: Seq<char>,
    pub uid: Seq<char>,
}

impl View for BackendResource {
    type V = ResourceView;

    open spec fn view(&self) -> ResourceView {
        ResourceView { href: self.href@, etag: self.etag@, uid: self.uid@ }
    }
}

/// The contents of a listing.
pub open spec fn resource_views(listing: Seq<BackendResource>) -> Seq<ResourceView> {
    Seq::new(listing.len(), |i: int| listing[i]@)
}

/// What a command tells the client to do with an item.
#[derive(Clone, Copy, Debug, PartialEq, Eq, Structural)]
pub enum CommandKind {
    Add,
    Change,
    Delete,
}

/// One command of a Sync response.
pub struct SyncCommand {
    pub kind: CommandKind,
    pub server_id: String,
    pub resource_href: String,
}

/// The contents of a command.
pub struct CommandView {
    pub kind: CommandKind,
    pub server_id: Seq<char>,
    pub resource_href: Seq<char>,
}

impl View for SyncCommand {
    type V = CommandView;

    open spec fn view(&self) -> CommandView {
        CommandView { kind: self.kind, server_id: self.server_id@, resource_href: self.resource_href@ }
    }
}

/// The contents of a list of commands.
pub open spec fn command_views(commands: Seq<SyncCommand>) -> Seq<CommandView> {
    Seq::new(commands.len(), |i: int| commands[i]@)
}

/// The contents of a list of texts.
pub open spec fn text_views(texts: Seq<String>) -> Seq<Seq<char>> {
    Seq::new(texts.len(), |i: int| texts[i]@)
}

/// What a Sync request amounts to.
#[derive(Clone, Copy, Debug, PartialEq, Eq, Structural)]
pub enum SyncStep {
    /// The client starts over: a baseline is taken and no change is reported.
    Prime,
    /// The client presents the key issued last: changes since then are due.
    Diff,
    /// The client presents any other key and has to start over.
    Resync,
}

/// What a request that presents `presented` amounts to where `stored` is the
/// key issued last ("0" where none was): key "0" starts over, the stored key
/// continues, and every other key is refused.
pub open spec fn step_for(stored: Seq<char>, presented: Seq<char>) -> SyncStep {
    if presented == "0"@ {
        SyncStep::Prime
    } else if presented == stored {
        SyncStep::Diff
    } else {
        SyncStep::Resync
    }
}

/// Decides what a Sync request amounts to.
pub fn next_step(stored: &str, presented: &str) -> (step: SyncStep)
    ensures
        step == step_for(stored@, presented@),
{
    if text_eq(presented, "0") {
        SyncStep::Prime
    } else if text_eq(presented, stored) {
        SyncStep::Diff
    } else {
        SyncStep::Resync
    }
}

/// The first position at or after `from` of a record of the resource.
pub open spec fn record_from(prior: Seq<RecordView>, href: Seq<char>, from: int) -> Option<int>
    decreases prior.len() - from,
{
    if from < 0 || from >= prior.len() {
        None
    } else if prior[from].caldav_resource_href == href {
        Some(from)
    } else {
        record_from(prior, href, from + 1)
    }
}

/// The position of the first record of the resource.
pub open spec fn record_of(prior: Seq<RecordView>, href: Seq<char>) -> Option<int> {
    record_from(prior, href, 0)
}

/// Whether the backend lists the resource at or after `from`.
pub open spec fn listed_from(listing: Seq<ResourceView>, href: Seq<char>, from: int) -> bool
    decreases listing.len() - from,
{
    if from < 0 || from >= listing.len() {
        false
    } else if listing[from].href == href {
        true
    } else {
        listed_from(listing, href, from + 1)
    }
}

/// Whether the backend lists the resource.
pub open spec fn listed(listing: Seq<ResourceView>, href: Seq<char>) -> bool {
    listed_from(listing, href, 0)
}

/// The Delete commands of a cycle: one for every known record whose
/// resource the backend no longer lists, in the order of the records.
pub open spec fn delete_commands(prior: Seq<RecordView>, listing: Seq<ResourceView>) -> Seq<CommandView>
    decreases prior.len(),
{
    if prior.len() == 0 {
        Seq::empty()
    } else {
        let rest = delete_commands(prior.drop_last(), listing);
        let last = prior.last();
        if listed(listing, last.caldav_resource_href) {
            rest
        } else {
            rest.push(
                CommandView {
                    kind: CommandKind::Delete,
                    server_id: last.server_id,
                    resource_href: last.caldav_resource_href,
                },
            )
        }
    }
}

/// The command that a listed resource calls for: Add where no record knows
/// it, under the identifier derived for it; Change where a record knows it
/// with another version token, under the record's identifier; nothing where
/// the record has the same token.
pub open spec fn write_command(prior: Seq<RecordView>, res: ResourceView, secret: Seq<char>) -> Option<
    CommandView,
> {
    match record_of(prior, res.href) {
        None => Some(
            CommandView {
                kind: CommandKind::Add,
                server_id: server_id_of(secret, res.href),
                resource_href: res.href,
            },
        ),
        Some(i) => if prior[i].etag == res.etag {
            None
        } else {
            Some(
                CommandView {
                    kind: CommandKind::Change,
                    server_id: prior[i].server_id,
                    resource_href: res.href,
                },
            )
        },
    }
}

/// The Add and Change commands of a cycle, in the order of the listing.
pub open spec fn write_commands(prior: Seq<RecordView>, listing: Seq<ResourceView>, secret: Seq<char>) -> Seq<
    CommandView,
>
    decreases listing.len(),
{
    if listing.len() == 0 {
        Seq::empty()
    } else {
        let rest = write_commands(prior, listing.drop_last(), secret);
        match write_command(prior, listing.last(), secret) {
            Some(c) => rest.push(c),
            None => rest,
        }
    }
}

/// The record to store for a resource that an Add or Change command names.
pub open spec fn record_for(
    owner: Seq<char>,
    collection_href: Seq<char>,
    res: ResourceView,
    server_id: Seq<char>,
    now: i64,
) -> RecordView {
    RecordView {
        owner,
        caldav_collection_href: collection_href,
        caldav_resource_href: res.href,
        server_id,
        uid: res.uid,
        etag: res.etag,
        last_sync_timestamp: now,
    }
}

/// The records to store after a cycle: one for every resource that an Add or
/// Change command names, in the order of the listing.
pub open spec fn write_records(
    prior: Seq<RecordView>,
    listing: Seq<ResourceView>,
    secret: Seq<char>,
    owner: Seq<char>,
    collection_href: Seq<char>,
    now: i64,
) -> Seq<RecordView>
    decreases listing.len(),
{
    if listing.len() == 0 {
        Seq::empty()
    } else {
        let rest = write_records(prior, listing.drop_last(), secret, owner, collection_href, now);
        match write_command(prior, listing.last(), secret) {
            Some(c) => rest.push(record_for(owner, collection_href, listing.last(), c.server_id, now)),
            None => rest,
        }
    }
}

/// The changes between what the store knows and what the backend lists:
/// the commands for the client, Deletes first, and what to write to and
/// remove from the store.
pub struct Changes {
    pub commands: Vec<SyncCommand>,
    pub writes: Vec<CalendarItemRecord>,
    pub removals: Vec<String>,
}

/// The contents of a set of changes.
pub struct ChangesView {
    pub commands: Seq<CommandView>,
    pub writes: Seq<RecordView>,
    pub removals: Seq<Seq<char>>,
}

impl View for Changes {
    type V = ChangesView;

    open spec fn view(&self) -> ChangesView {
        ChangesView {
            commands: command_views(self.commands@),
            writes: crate::storage::views(self.writes@),
            removals: text_views(self.removals@),
        }
    }
}

/// The server identifiers that a list of commands names.
pub open spec fn ids_of(commands: Seq<CommandView>) -> Seq<Seq<char>> {
    Seq::new(commands.len(), |i: int| commands[i].server_id)
}

/// The changes between the records of a collection and a listing of it.
pub open spec fn changes_of(
    prior: Seq<RecordView>,
    listing: Seq<ResourceView>,
    secret: Seq<char>,
    owner: Seq<char>,
    collection_href: Seq<char>,
    now: i64,
) -> ChangesView {
    ChangesView {
        commands: delete_commands(prior, listing) + write_commands(prior, listing, secret),
        writes: write_records(prior, listing, secret, owner, collection_href, now),
        removals: ids_of(delete_commands(prior, listing)),
    }
}

/// Finds the first record of a resource.
fn find_record(prior: &Vec<CalendarItemRecord>, href: &str) -> (r: Option<usize>)
    ensures
        match r {
            Some(k) => record_of(crate::storage::views(prior@), href@) == Some(k as int) && k < prior@.len(),
            None => record_of(crate::storage::views(prior@), href@) is None,
        },
{
    let ghost pv = crate::storage::views(prior@);
    let mut i: usize = 0;
    while i < prior.len()
        invariant
            i <= prior@.len(),
            pv == crate::storage::views(prior@),
            record_of(pv, href@) == record_from(pv, href@, i as int),
        decreases prior@.len() - i,
    {
        assert(pv[i as int] == prior@[i as int]@);
        if text_eq(prior[i].caldav_resource_href.as_str(), href) {
            return Some(i);
        }
        i += 1;
    }
    None
}

/// Tells whether the backend lists a resource.
fn is_listed(listing: &Vec<BackendResource>, href: &str) -> (r: bool)
    ensures
        r == listed(resource_views(listing@), href@),
{
    let ghost lv = resource_views(listing@);
    let mut i: usize = 0;
    while i < listing.len()
        invariant
            i <= listing@.len(),
            lv == resource_views(listing@),
            listed(lv, href@) == listed_from(lv, href@, i as int),
        decreases listing@.len() - i,
    {
        assert(lv[i as int] == listing@[i as int]@);
        if text_eq(listing[i].href.as_str(), href) {
            return true;
        }
        i += 1;
    }
    false
}

/// Computes the changes between the records of a collection and a listing
/// of it: Delete for every record whose resource is gone, then Add or Change
/// for every listed resource that is new or has another version token.
pub fn diff(
    prior: &Vec<CalendarItemRecord>,
    listing: &Vec<BackendResource>,
    secret: &str,
    owner: &str,
    collection_href: &str,
    now: i64,
) -> (changes: Changes)
    ensures
        changes@ == changes_of(
            crate::storage::views(prior@),
            resource_views(listing@),
            secret@,
            owner@,
            collection_href@,
            now,
        ),
{
    let ghost pv = crate::storage::views(prior@);
    let ghost lv = resource_views(listing@);
    let mut commands: Vec<SyncCommand> = Vec::new();
    let mut writes: Vec<CalendarItemRecord> = Vec::new();
    let mut removals: Vec<String> = Vec::new();
    let mut i: usize = 0;
    assert(pv.take(0) =~= Seq::<RecordView>::empty());
    assert(command_views(commands@) =~= Seq::<CommandView>::empty());
    assert(text_views(removals@) =~= ids_of(Seq::<CommandView>::empty()));
    while i < prior.len()
        invariant
            i <= prior@.len(),
            pv == crate::storage::views(prior@),
            lv == resource_views(listing@),
            command_views(commands@) == delete_commands(pv.take(i as int), lv),
            text_views(removals@) == ids_of(command_views(commands@)),
            writes@.len() == 0,
        decreases prior@.len() - i,
    {
        proof {
            assert(pv.take(i + 1).drop_last() =~= pv.take(i as int));
            assert(pv.take(i + 1).last() == prior@[i as int]@);
        }
        let rec = &prior[i];
        if !is_listed(listing, rec.caldav_resource_href.as_str()) {
            let ghost c0 = command_views(commands@);
            let ghost r0 = text_views(removals@);
            let cmd = SyncCommand {
                kind: CommandKind::Delete,
                server_id: rec.server_id.clone(),
                resource_href: rec.caldav_resource_href.clone(),
            };
            commands.push(cmd);
            removals.push(rec.server_id.clone());
            assert(command_views(commands@) =~= c0.push(
                CommandView {
                    kind: CommandKind::Delete,
                    server_id: rec@.server_id,
                    resource_href: rec@.caldav_resource_href,
                },
            ));
            assert(text_views(removals@) =~= r0.push(rec@.server_id));
            assert(r0.push(rec@.server_id) =~= ids_of(command_views(commands@)));
        }
        i += 1;
    }
    assert(pv.take(pv.len() as int) =~= pv);
    let ghost deletes = command_views(commands@);
    let mut j: usize = 0;
    assert(lv.take(0) =~= Seq::<ResourceView>::empty());
    assert(deletes + Seq::<CommandView>::empty() =~= deletes);
    assert(crate::storage::views(writes@) =~= Seq::<RecordView>::empty());
    while j < listing.len()
        invariant
            j <= listing@.len(),
            pv == crate::storage::views(prior@),
            lv == resource_views(listing@),
            deletes == delete_commands(pv, lv),
            command_views(commands@) == deletes + write_commands(pv, lv.take(j as int), secret@),
            crate::storage::views(writes@) == write_records(
                pv,
                lv.take(j as int),
                secret@,
                owner@,
                collection_href@,
                now,
            ),
            text_views(removals@) == ids_of(deletes),
        decreases listing@.len() - j,
    {
        proof {
            assert(lv.take(j + 1).drop_last() =~= lv.take(j as int));
            assert(lv.take(j + 1).last() == listing@[j as int]@);
        }
        let res = &listing[j];
        let ghost c0 = command_views(commands@);
        let ghost w0 = crate::storage::views(writes@);
        let ghost so_far = write_commands(pv, lv.take(j as int), secret@);
        let found = find_record(prior, res.href.as_str());
        let named: Option<(CommandKind, String)> = match found {
            None => Some((CommandKind::Add, generate_server_id(secret, res.href.as_str()))),
            Some(k) => {
                assert(pv[k as int] == prior@[k as int]@);
                if text_eq(prior[k].etag.as_str(), res.etag.as_str()) {
                    None
                } else {
                    Some((CommandKind::Change, prior[k].server_id.clone()))
                }
            },
        };
        if let Some((kind, server_id)) = named {
            let ghost cv = CommandView { kind, server_id: server_id@, resource_href: res@.href };
            assert(write_command(pv, res@, secret@) == Some(cv));
            writes.push(
                CalendarItemRecord {
                    owner: owner.to_owned(),
                    caldav_collection_href: collection_href.to_owned(),
                    caldav_resource_href: res.href.clone(),
                    server_id: server_id.clone(),
                    uid: res.uid.clone(),
                    etag: res.etag.clone(),
                    last_sync_timestamp: now,
                },
            );
            commands.push(SyncCommand { kind, server_id, resource_href: res.href.clone() });
            assert(command_views(commands@) =~= c0.push(cv));
            assert(c0.push(cv) =~= deletes + so_far.push(cv));
            assert(crate::storage::views(writes@) =~= w0.push(
                record_for(owner@, collection_href@, res@, cv.server_id, now),
            ));
        } else {
            assert(write_command(pv, res@, secret@) is None);
        }
        j += 1;
    }
    assert(lv.take(lv.len() as int) =~= lv);
    Changes { commands, writes, removals }
}

/// The tag of a command.
pub open spec fn kind_tag(kind: CommandKind) -> Seq<char> {
    match kind {
        CommandKind::Add => "Add"@,
        CommandKind::Change => "Change"@,
        CommandKind::Delete => "Delete"@,
    }
}

/// The markup of one command: its tag around the server identifier.
pub open spec fn command_xml(c: CommandView) -> Seq<char> {
    "<"@ + kind_tag(c.kind) + "><ServerId>"@ + escape_chars(c.server_id) + "</ServerId></"@ + kind_tag(
        c.kind,
    ) + ">"@
}

/// The markup of a list of commands, in order.
pub open spec fn commands_xml(commands: Seq<CommandView>) -> Seq<char>
    decreases commands.len(),
{
    if commands.len() == 0 {
        Seq::empty()
    } else {
        commands_xml(commands.drop_last()) + command_xml(commands.last())
    }
}

/// The markup of a Sync response for one collection.
pub open spec fn sync_response_xml(
    collection_id: Seq<char>,
    sync_key: Seq<char>,
    status: Seq<char>,
    commands: Seq<CommandView>,
) -> Seq<char> {
    "<?xml version=\"1.0\" encoding=\"utf-8\"?><Sync xmlns=\"AirSync:\"><Collections><Collection><Class>Calendar</Class><SyncKey>"@
        + escape_chars(sync_key) + "</SyncKey><CollectionId>"@ + escape_chars(collection_id)
        + "</CollectionId><Status>"@ + status + "</Status><Commands>"@ + commands_xml(commands)
        + "</Commands></Collection></Collections></Sync>"@
}

/// Gives the tag of a command.
fn tag_of(kind: CommandKind) -> (t: &'static str)
    ensures
        t@ == kind_tag(kind),
{
    match kind {
        CommandKind::Add => "Add",
        CommandKind::Change => "Change",
        CommandKind::Delete => "Delete",
    }
}

/// Builds the markup of a Sync response for one collection.
pub fn build_sync_response(collection_id: &str, sync_key: &str, status: &str, commands: &Vec<SyncCommand>) -> (r:
    String)
    ensures
        r@ == sync_response_xml(collection_id@, sync_key@, status@, command_views(commands@)),
{
    let ghost cv = command_views(commands@);
    let mut list = String::new();
    let mut i: usize = 0;
    assert(cv.take(0) =~= Seq::<CommandView>::empty());
    while i < commands.len()
        invariant
            i <= commands@.len(),
            cv == command_views(commands@),
            list@ == commands_xml(cv.take(i as int)),
        decreases commands@.len() - i,
    {
        proof {
            assert(cv.take(i + 1).drop_last() =~= cv.take(i as int));
            assert(cv.take(i + 1).last() == commands@[i as int]@);
        }
        let ghost before = list@;
        let c = &commands[i];
        let tag = tag_of(c.kind);
        let id = xml_escape(c.server_id.as_str());
        list.append("<");
        list.append(tag);
        list.append("><ServerId>");
        list.append(id.as_str());
        list.append("</ServerId></");
        list.append(tag);
        list.append(">");
        assert(list@ =~= before + command_xml(c@));
        i += 1;
    }
    assert(cv.take(cv.len() as int) =~= cv);
    let key = xml_escape(sync_key);
    let cid = xml_escape(collection_id);
    let mut out = String::new();
    out.append(
        "<?xml version=\"1.0\" encoding=\"utf-8\"?><Sync xmlns=\"AirSync:\"><Collections><Collection><Class>Calendar</Class><SyncKey>",
    );
    out.append(key.as_str());
    out.append("</SyncKey><CollectionId>");
    out.append(cid.as_str());
    out.append("</CollectionId><Status>");
    out.append(status);
    out.append("</Status><Commands>");
    out.append(list.as_str());
    out.append("</Commands></Collection></Collections></Sync>");
    assert(out@ =~= sync_response_xml(collection_id@, sync_key@, status@, cv));
    out
}

/// How a cycle ended.
#[derive(Clone, Copy, Debug, PartialEq, Eq, Structural)]
pub enum CycleStatus {
    /// The cycle succeeded: the new cursor and the changes are to be stored.
    Done,
    /// The presented key is not the one issued last: the client starts over.
    Resync,
    /// The cycle was abandoned: nothing is to be stored.
    Failed(GatewayError),
}

/// What a Sync cycle decided: the cursor and the changes to store, and the
/// response for the client. Unless the cycle is `Done`, the cursor is the
/// one the cycle began with and the changes are empty.
pub struct SyncOutcome {
    pub status: CycleStatus,
    pub state: SyncState,
    pub changes: Changes,
    pub response: String,
}

/// The contents of an outcome.
pub struct OutcomeView {
    pub status: CycleStatus,
    pub state: StateView,
    pub changes: ChangesView,
    pub response: Seq<char>,
}

impl View for SyncOutcome {
    type V = OutcomeView;

    open spec fn view(&self) -> OutcomeView {
        OutcomeView {
            status: self.status,
            state: self.state@,
            changes: self.changes@,
            response: self.response@,
        }
    }
}

/// No changes.
pub open spec fn no_changes() -> ChangesView {
    ChangesView { commands: Seq::empty(), writes: Seq::empty(), removals: Seq::empty() }
}

/// What the backend listed, or why it did not.
pub open spec fn listing_view(listing: Result<Vec<BackendResource>, GatewayError>) -> Result<
    Seq<ResourceView>,
    GatewayError,
> {
    match listing {
        Ok(l) => Ok(resource_views(l@)),
        Err(e) => Err(e),
    }
}

/// Whether a key can be issued after `current`: it is not "0" and not the
/// current key.
pub open spec fn issuable(candidate: Seq<char>, current: Seq<char>) -> bool {
    candidate != "0"@ && candidate != current
}

/// The key that a candidate becomes so that it can be issued after
/// `current`: the candidate itself where it can be issued, else the
/// candidate with one hyphen at its end, else with two.
pub open spec fn fitted(candidate: Seq<char>, current: Seq<char>) -> Seq<char> {
    if issuable(candidate, current) {
        candidate
    } else if issuable(candidate + "-"@, current) {
        candidate + "-"@
    } else {
        candidate + "-"@ + "-"@
    }
}

/// A fitted key can be issued: of a candidate and the two keys made from it
/// no two are equal, so at most one is "0" and at most one the current key.
pub proof fn lemma_fitted(candidate: Seq<char>, current: Seq<char>)
    ensures
        issuable(fitted(candidate, current), current),
{
    reveal_strlit("0");
    reveal_strlit("-");
    let one = candidate + "-"@;
    let two = candidate + "-"@ + "-"@;
    assert(one.len() == candidate.len() + 1);
    assert(two.len() == candidate.len() + 2);
    assert("0"@.len() == 1);
    if !issuable(candidate, current) && !issuable(one, current) {
        assert(two != "0"@);
        if candidate == current {
            assert(two != current);
        } else {
            assert(candidate == "0"@);
            assert(one != "0"@);
            assert(one == current);
            assert(two != current);
        }
    }
}

/// Makes a candidate fit to be issued after the current key.
pub fn fit_key(candidate: String, current: &str) -> (key: String)
    ensures
        key@ == fitted(candidate@, current@),
        issuable(key@, current@),
{
    proof {
        lemma_fitted(candidate@, current@);
    }
    let mut key = candidate;
    if !(text_eq(key.as_str(), "0") || text_eq(key.as_str(), current)) {
        return key;
    }
    key.append("-");
    if !(text_eq(key.as_str(), "0") || text_eq(key.as_str(), current)) {
        return key;
    }
    key.append("-");
    key
}

/// What a Sync cycle decides.
///
/// A request that presents neither "0" nor the key issued last is answered
/// with a resync indication (status 3, key "0"). A backend failure abandons
/// the cycle. Otherwise the candidate, made fit, becomes the key, the
/// instant of the cycle is recorded, and the changes between the known
/// records and the listing are computed; a request that presents "0" takes
/// them as its baseline and reports none of them.
pub open spec fn outcome_of(
    state: StateView,
    presented: Seq<char>,
    prior: Seq<RecordView>,
    listing: Result<Seq<ResourceView>, GatewayError>,
    candidate: Seq<char>,
    secret: Seq<char>,
    collection_href: Seq<char>,
    now: i64,
) -> OutcomeView {
    match step_for(state.sync_key, presented) {
        SyncStep::Resync => OutcomeView {
            status: CycleStatus::Resync,
            state,
            changes: no_changes(),
            response: sync_response_xml(state.collection_id, "0"@, "3"@, Seq::empty()),
        },
        step => match listing {
            Err(e) => OutcomeView {
                status: CycleStatus::Failed(e),
                state,
                changes: no_changes(),
                response: Seq::empty(),
            },
            Ok(l) => {
                let key = fitted(candidate, state.sync_key);
                let all = changes_of(prior, l, secret, state.owner, collection_href, now);
                let reported = if step == SyncStep::Prime {
                    Seq::empty()
                } else {
                    all.commands
                };
                OutcomeView {
                    status: CycleStatus::Done,
                    state: StateView { sync_key: key, last_sync_timestamp: now, ..state },
                    changes: ChangesView { commands: reported, ..all },
                    response: sync_response_xml(state.collection_id, key, "1"@, reported),
                }
            },
        },
    }
}

/// Changes that change nothing.
fn empty_changes() -> (c: Changes)
    ensures
        c@ == no_changes(),
{
    let c = Changes { commands: Vec::new(), writes: Vec::new(), removals: Vec::new() };
    assert(c@.commands =~= Seq::<CommandView>::empty());
    assert(c@.writes =~= Seq::<RecordView>::empty());
    assert(c@.removals =~= Seq::<Seq<char>>::empty());
    c
}

/// Decides one Sync cycle from the stored cursor, the key the client
/// presented, the records known of the collection, what the backend listed
/// (or why it failed), and a freshly minted candidate for the next key,
/// which is made fit where it is "0" or the key issued last. Nothing is
/// stored here: the caller stores the outcome's cursor and
/// changes together, and only where the outcome is `Done`.
pub fn perform_sync(
    state: SyncState,
    presented: &str,
    prior: &Vec<CalendarItemRecord>,
    listing: Result<Vec<BackendResource>, GatewayError>,
    candidate: String,
    secret: &str,
    collection_href: &str,
    now: i64,
) -> (out: SyncOutcome)
    ensures
        out@ == outcome_of(
            state@,
            presented@,
            crate::storage::views(prior@),
            listing_view(listing),
            candidate@,
            secret@,
            collection_href@,
            now,
        ),
{
    let step = next_step(state.sync_key.as_str(), presented);
    if step == SyncStep::Resync {
        let none: Vec<SyncCommand> = Vec::new();
        assert(command_views(none@) =~= Seq::<CommandView>::empty());
        let response = build_sync_response(state.collection_id.as_str(), "0", "3", &none);
        return SyncOutcome { status: CycleStatus::Resync, state, changes: empty_changes(), response };
    }
    let listed = match listing {
        Ok(l) => l,
        Err(e) => {
            return SyncOutcome {
                status: CycleStatus::Failed(e),
                state,
                changes: empty_changes(),
                response: String::new(),
            };
        },
    };
    let key = fit_key(candidate, state.sync_key.as_str());
    let mut changes = diff(prior, &listed, secret, state.owner.as_str(), collection_href, now);
    if step == SyncStep::Prime {
        changes.commands = Vec::new();
        assert(command_views(changes.commands@) =~= Seq::<CommandView>::empty());
    }
    let response = build_sync_response(state.collection_id.as_str(), key.as_str(), "1", &changes.commands);
    let next = SyncState {
        owner: state.owner,
        collection_id: state.collection_id,
        sync_key: key,
        last_sync_token: state.last_sync_token,
        last_sync_timestamp: now,
    };
    SyncOutcome { status: CycleStatus::Done, state: next, changes, response }
}

} // verus!
