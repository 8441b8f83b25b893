//! What holds of every Sync cycle.

use vstd::prelude::*;
use crate::error::GatewayError;
use crate::storage::RecordView;
use crate::sync::{
    changes_of, delete_commands, fitted, lemma_fitted, listed, listed_from, no_changes, outcome_of,
    record_for,
    record_from, record_of, server_id_of, sync_response_xml, write_command, write_commands,
    write_records, CommandKind, CommandView, CycleStatus, ResourceView, StateView,
};

verus! {

/// A cold start establishes a baseline: a request that presents key "0"
/// gets a key other than "0" and an empty command set, whatever the backend
/// lists and whatever candidate was minted, and the cursor to store holds
/// that key.
pub proof fn law_cold_start(
    state: StateView,
    prior: Seq<RecordView>,
    listing: Seq<ResourceView>,
    candidate: Seq<char>,
    secret: Seq<char>,
    collection_href: Seq<char>,
    now: i64,
)
    ensures
        ({
            let out = outcome_of(state, "0"@, prior, Ok(listing), candidate, secret, collection_href, now);
            &&& out.status == CycleStatus::Done
            &&& out.state.sync_key == fitted(candidate, state.sync_key)
            &&& out.state.sync_key != "0"@
            &&& out.state.sync_key != state.sync_key
            &&& out.changes.commands.len() == 0
            &&& out.response == sync_response_xml(
                state.collection_id,
                out.state.sync_key,
                "1"@,
                Seq::empty(),
            )
        }),
{
    lemma_fitted(candidate, state.sync_key);
}

/// The next Sync after one addition reports exactly that addition: where
/// the client presents the key issued last, the records are in step with
/// what the backend listed before and the backend now lists one more
/// resource that no record knows, the cycle is done, its commands are a
/// single Add of that resource under the identifier derived for it, and the
/// cursor to store holds a new key that is neither "0" nor the key before.
pub proof fn law_next_sync_one_add(
    state: StateView,
    prior: Seq<RecordView>,
    listing: Seq<ResourceView>,
    extra: ResourceView,
    candidate: Seq<char>,
    secret: Seq<char>,
    collection_href: Seq<char>,
    now: i64,
)
    requires
        state.sync_key != "0"@,
        in_step(prior, listing),
        record_of(prior, extra.href) is None,
    ensures
        ({
            let out = outcome_of(
                state,
                state.sync_key,
                prior,
                Ok(listing.push(extra)),
                candidate,
                secret,
                collection_href,
                now,
            );
            &&& out.status == CycleStatus::Done
            &&& out.changes.commands == seq![
                CommandView {
                    kind: CommandKind::Add,
                    server_id: server_id_of(secret, extra.href),
                    resource_href: extra.href,
                },
            ]
            &&& out.state.sync_key != state.sync_key
            &&& out.state.sync_key != "0"@
        }),
{
    lemma_fitted(candidate, state.sync_key);
    law_one_addition_one_add(prior, listing, extra, secret, state.owner, collection_href, now);
}

/// A key that is neither "0" nor the key issued last is refused, and the
/// stored cursor and records stay as they are.
pub proof fn law_superseded_key_refused(
    state: StateView,
    presented: Seq<char>,
    prior: Seq<RecordView>,
    listing: Result<Seq<ResourceView>, GatewayError>,
    candidate: Seq<char>,
    secret: Seq<char>,
    collection_href: Seq<char>,
    now: i64,
)
    requires
        presented != "0"@,
        presented != state.sync_key,
    ensures
        ({
            let out = outcome_of(state, presented, prior, listing, candidate, secret, collection_href, now);
            &&& out.status == CycleStatus::Resync
            &&& out.state == state
            &&& out.changes == no_changes()
        }),
{
}

/// A cycle in which the backend fails stores nothing: the cursor stays and
/// no record is written or removed.
pub proof fn law_failure_stores_nothing(
    state: StateView,
    presented: Seq<char>,
    prior: Seq<RecordView>,
    failure: GatewayError,
    candidate: Seq<char>,
    secret: Seq<char>,
    collection_href: Seq<char>,
    now: i64,
)
    ensures
        ({
            let out = outcome_of(
                state,
                presented,
                prior,
                Err(failure),
                candidate,
                secret,
                collection_href,
                now,
            );
            &&& out.status != CycleStatus::Done
            &&& out.state == state
            &&& out.changes == no_changes()
        }),
{
}

/// Every successful cycle issues a key that differs from the one before.
pub proof fn law_key_advances(
    state: StateView,
    presented: Seq<char>,
    prior: Seq<RecordView>,
    listing: Result<Seq<ResourceView>, GatewayError>,
    candidate: Seq<char>,
    secret: Seq<char>,
    collection_href: Seq<char>,
    now: i64,
)
    ensures
        ({
            let out = outcome_of(state, presented, prior, listing, candidate, secret, collection_href, now);
            if out.status == CycleStatus::Done {
                out.state.sync_key != state.sync_key && out.state.sync_key != "0"@
            } else {
                out.state == state
            }
        }),
{
    lemma_fitted(candidate, state.sync_key);
}

/// In a successful cycle every Delete comes before every Add and Change.
pub proof fn law_deletes_first(
    prior: Seq<RecordView>,
    listing: Seq<ResourceView>,
    secret: Seq<char>,
    owner: Seq<char>,
    collection_href: Seq<char>,
    now: i64,
)
    ensures
        ({
            let commands = changes_of(prior, listing, secret, owner, collection_href, now).commands;
            forall|i: int, j: int|
                0 <= i < j < commands.len() && (#[trigger] commands[j]).kind == CommandKind::Delete ==> (
                #[trigger] commands[i]).kind == CommandKind::Delete
        }),
{
    lemma_deletes_are_deletes(prior, listing);
    lemma_writes_are_writes(prior, listing, secret);
}

/// Delete commands are Deletes.
proof fn lemma_deletes_are_deletes(prior: Seq<RecordView>, listing: Seq<ResourceView>)
    ensures
        forall|i: int|
            0 <= i < delete_commands(prior, listing).len() ==> (#[trigger] delete_commands(
                prior,
                listing,
            )[i]).kind == CommandKind::Delete,
    decreases prior.len(),
{
    if prior.len() > 0 {
        lemma_deletes_are_deletes(prior.drop_last(), listing);
    }
}

/// Write commands are Adds and Changes.
proof fn lemma_writes_are_writes(prior: Seq<RecordView>, listing: Seq<ResourceView>, secret: Seq<char>)
    ensures
        forall|i: int|
            0 <= i < write_commands(prior, listing, secret).len() ==> (#[trigger] write_commands(
                prior,
                listing,
                secret,
            )[i]).kind != CommandKind::Delete,
    decreases listing.len(),
{
    if listing.len() > 0 {
        lemma_writes_are_writes(prior, listing.drop_last(), secret);
    }
}

/// Whether the records are in step with a listing: every listed resource is
/// known with the version token it is listed with, and every known resource
/// is listed.
pub open spec fn in_step(prior: Seq<RecordView>, listing: Seq<ResourceView>) -> bool {
    &&& forall|k: int|
        0 <= k < listing.len() ==> (record_of(prior, (#[trigger] listing[k]).href) matches Some(i)
            && prior[i].etag == listing[k].etag)
    &&& forall|k: int| 0 <= k < prior.len() ==> listed(listing, (#[trigger] prior[k]).caldav_resource_href)
}

/// What is listed from a position on is listed whatever is appended.
proof fn lemma_listed_grows(listing: Seq<ResourceView>, extra: ResourceView, href: Seq<char>, from: int)
    requires
        0 <= from,
        listed_from(listing, href, from),
    ensures
        listed_from(listing.push(extra), href, from),
    decreases listing.len() - from,
{
    if from < listing.len() {
        assert(listing.push(extra)[from] == listing[from]);
        if listing[from].href != href {
            lemma_listed_grows(listing, extra, href, from + 1);
        }
    }
}

/// Records whose resources are all listed call for no Delete.
proof fn lemma_no_deletes(prior: Seq<RecordView>, listing: Seq<ResourceView>)
    requires
        forall|k: int| 0 <= k < prior.len() ==> listed(listing, (#[trigger] prior[k]).caldav_resource_href),
    ensures
        delete_commands(prior, listing).len() == 0,
    decreases prior.len(),
{
    if prior.len() > 0 {
        assert forall|k: int| 0 <= k < prior.drop_last().len() implies listed(
            listing,
            (#[trigger] prior.drop_last()[k]).caldav_resource_href,
        ) by {
            assert(prior.drop_last()[k] == prior[k]);
        }
        lemma_no_deletes(prior.drop_last(), listing);
        assert(listed(listing, prior[prior.len() - 1].caldav_resource_href));
    }
}

/// Resources that are known with their listed tokens call for no command.
proof fn lemma_no_writes(prior: Seq<RecordView>, listing: Seq<ResourceView>, secret: Seq<char>)
    requires
        forall|k: int|
            0 <= k < listing.len() ==> (record_of(prior, (#[trigger] listing[k]).href) matches Some(i)
                && prior[i].etag == listing[k].etag),
    ensures
        write_commands(prior, listing, secret).len() == 0,
    decreases listing.len(),
{
    if listing.len() > 0 {
        assert forall|k: int| 0 <= k < listing.drop_last().len() implies (record_of(
            prior,
            (#[trigger] listing.drop_last()[k]).href,
        ) matches Some(i) && prior[i].etag == listing.drop_last()[k].etag) by {
            assert(listing.drop_last()[k] == listing[k]);
        }
        lemma_no_writes(prior, listing.drop_last(), secret);
        let last = listing[listing.len() - 1];
        assert(record_of(prior, last.href) matches Some(i) && prior[i].etag == last.etag);
    }
}

/// One addition yields exactly one Add: where the records are in step with
/// what the backend listed and the backend then lists one more resource that
/// no record knows, the changes are a single Add of that resource under the
/// identifier derived for it.
pub proof fn law_one_addition_one_add(
    prior: Seq<RecordView>,
    listing: Seq<ResourceView>,
    extra: ResourceView,
    secret: Seq<char>,
    owner: Seq<char>,
    collection_href: Seq<char>,
    now: i64,
)
    requires
        in_step(prior, listing),
        record_of(prior, extra.href) is None,
    ensures
        changes_of(prior, listing.push(extra), secret, owner, collection_href, now).commands == seq![
            CommandView {
                kind: CommandKind::Add,
                server_id: server_id_of(secret, extra.href),
                resource_href: extra.href,
            },
        ],
{
    let grown = listing.push(extra);
    assert forall|k: int| 0 <= k < prior.len() implies listed(
        grown,
        (#[trigger] prior[k]).caldav_resource_href,
    ) by {
        lemma_listed_grows(listing, extra, prior[k].caldav_resource_href, 0);
    }
    lemma_no_deletes(prior, grown);
    lemma_no_writes(prior, listing, secret);
    assert(grown.drop_last() =~= listing);
    assert(grown.last() == extra);
    let add = CommandView {
        kind: CommandKind::Add,
        server_id: server_id_of(secret, extra.href),
        resource_href: extra.href,
    };
    assert(write_command(prior, extra, secret) == Some(add));
    assert(write_commands(prior, grown, secret) =~= seq![add]);
    assert(delete_commands(prior, grown) + write_commands(prior, grown, secret) =~= seq![add]);
}

/// Whether no two listed resources share an address.
pub open spec fn distinct_hrefs(listing: Seq<ResourceView>) -> bool {
    forall|i: int, j: int|
        0 <= i < j < listing.len() ==> (#[trigger] listing[i]).href != (#[trigger] listing[j]).href
}

/// What the first record of a resource is: it is of the resource, and no
/// record before it is.
proof fn lemma_record_from(prior: Seq<RecordView>, href: Seq<char>, from: int)
    requires
        0 <= from,
    ensures
        match record_from(prior, href, from) {
            Some(i) => from <= i < prior.len() && prior[i].caldav_resource_href == href && forall|k: int|
                from <= k < i ==> prior[k].caldav_resource_href != href,
            None => forall|k: int| from <= k < prior.len() ==> prior[k].caldav_resource_href != href,
        },
    decreases prior.len() - from,
{
    if from < prior.len() && prior[from].caldav_resource_href != href {
        lemma_record_from(prior, href, from + 1);
    }
}

/// A resource that stands in a listing is listed.
proof fn lemma_listed_at(listing: Seq<ResourceView>, at: int, from: int)
    requires
        0 <= from <= at < listing.len(),
    ensures
        listed_from(listing, listing[at].href, from),
    decreases at - from,
{
    if listing[from].href != listing[at].href {
        lemma_listed_at(listing, at, from + 1);
    }
}

/// From an empty store, a cycle writes one record for every listed
/// resource, in order.
proof fn lemma_baseline_records(
    listing: Seq<ResourceView>,
    secret: Seq<char>,
    owner: Seq<char>,
    collection_href: Seq<char>,
    now: i64,
)
    ensures
        ({
            let w = write_records(Seq::empty(), listing, secret, owner, collection_href, now);
            &&& w.len() == listing.len()
            &&& forall|k: int|
                0 <= k < listing.len() ==> #[trigger] w[k] == record_for(
                    owner,
                    collection_href,
                    listing[k],
                    server_id_of(secret, listing[k].href),
                    now,
                )
        }),
    decreases listing.len(),
{
    if listing.len() > 0 {
        lemma_baseline_records(listing.drop_last(), secret, owner, collection_href, now);
        assert(record_of(Seq::<RecordView>::empty(), listing.last().href) is None);
    }
}

/// A cold start leaves the store in step with the backend: where no two
/// listed resources share an address, the records that a cycle writes from
/// an empty store know every listed resource with the version token it is
/// listed with, and nothing else.
pub proof fn law_baseline_in_step(
    listing: Seq<ResourceView>,
    secret: Seq<char>,
    owner: Seq<char>,
    collection_href: Seq<char>,
    now: i64,
)
    requires
        distinct_hrefs(listing),
    ensures
        in_step(write_records(Seq::empty(), listing, secret, owner, collection_href, now), listing),
{
    let w = write_records(Seq::empty(), listing, secret, owner, collection_href, now);
    lemma_baseline_records(listing, secret, owner, collection_href, now);
    assert forall|k: int| 0 <= k < listing.len() implies (record_of(w, (#[trigger] listing[k]).href) matches Some(
        i,
    ) && w[i].etag == listing[k].etag) by {
        lemma_record_from(w, listing[k].href, 0);
        assert(w[k].caldav_resource_href == listing[k].href);
        let i = record_of(w, listing[k].href)->0;
        assert(w[i].caldav_resource_href == listing[i].href);
        assert(i == k);
    }
    assert forall|k: int| 0 <= k < w.len() implies listed(listing, (#[trigger] w[k]).caldav_resource_href) by {
        lemma_listed_at(listing, k, 0);
    }
}

} // verus!
