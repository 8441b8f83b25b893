//! The identity and mapping store: which backend resource stands behind
//! which server identifier, held in memory. What is proved here is proved of
//! this store. A database that keeps the same records is meant to follow the
//! same rules, but nothing in this crate holds it to them.

use vstd::prelude::*;
use vstd::string::*;

verus! {

/// What the gateway remembers of one backend resource.
pub struct CalendarItemRecord {
    pub owner: String,
    pub caldav_collection_href: String,
    pub caldav_resource_href: String,
    pub server_id: String,
    pub uid: String,
    pub etag: String,
    /// When the record was last written, in seconds since the epoch.
    pub last_sync_timestamp: i64,
}

/// The contents of a record.
pub struct RecordView {
    pub owner: Seq<char>,
    pub caldav_collection_href: Seq<char>,
    pub caldav_resource_href: Seq<char>,
    pub server_id: Seq<char>,
    pub uid: Seq<char>,
    pub etag: Seq<char>,
    pub last_sync_timestamp: i64,
}

impl View for CalendarItemRecord {
    type V = RecordView;

    open spec fn view(&self) -> RecordView {
        RecordView {
            owner: self.owner@,
            caldav_collection_href: self.caldav_collection_href@,
            caldav_resource_href: self.caldav_resource_href@,
            server_id: self.server_id@,
            uid: self.uid@,
            etag: self.etag@,
            last_sync_timestamp: self.last_sync_timestamp,
        }
    }
}

impl CalendarItemRecord {
    /// A copy of the record.
    pub fn duplicate(&self) -> (r: CalendarItemRecord)
        ensures
            r@ == self@,
    {
        CalendarItemRecord {
            owner: self.owner.clone(),
            caldav_collection_href: self.caldav_collection_href.clone(),
            caldav_resource_href: self.caldav_resource_href.clone(),
            server_id: self.server_id.clone(),
            uid: self.uid.clone(),
            etag: self.etag.clone(),
            last_sync_timestamp: self.last_sync_timestamp,
        }
    }
}

/// The contents of a list of records.
pub open spec fn views(records: Seq<CalendarItemRecord>) -> Seq<RecordView> {
    Seq::new(records.len(), |i: int| records[i]@)
}

/// The first position at or after `from` of a record with the identifier.
pub open spec fn position_from(records: Seq<RecordView>, server_id: Seq<char>, from: int) -> Option<int>
    decreases records.len() - from,
{
    if from < 0 || from >= records.len() {
        None
    } else if records[from].server_id == server_id {
        Some(from)
    } else {
        position_from(records, server_id, from + 1)
    }
}

/// The position of the record with the identifier.
pub open spec fn position(records: Seq<RecordView>, server_id: Seq<char>) -> Option<int> {
    position_from(records, server_id, 0)
}

/// Whether no two records share a server identifier.
pub open spec fn distinct_ids(records: Seq<RecordView>) -> bool {
    forall|i: int, j: int|
        0 <= i < j < records.len() ==> (#[trigger] records[i]).server_id != (#[trigger] records[j]).server_id
}

/// What a record becomes when it is written again: owner and collection
/// stay, everything else is taken from the new record.
pub open spec fn rewritten(old: RecordView, new: RecordView) -> RecordView {
    RecordView { owner: old.owner, caldav_collection_href: old.caldav_collection_href, ..new }
}

/// The records after `record` is written: in place of the record with the
/// same server identifier where there is one, else at the end.
pub open spec fn upserted(records: Seq<RecordView>, record: RecordView) -> Seq<RecordView> {
    match position(records, record.server_id) {
        Some(i) => records.update(i, rewritten(records[i], record)),
        None => records.push(record),
    }
}

/// The records without the one that has the identifier.
pub open spec fn removed(records: Seq<RecordView>, server_id: Seq<char>) -> Seq<RecordView> {
    match position(records, server_id) {
        Some(i) => records.remove(i),
        None => records,
    }
}

/// The server identifier and resource of every record of `owner` written at
/// or after `since`, in the order of the records.
pub open spec fn changed_since(records: Seq<RecordView>, owner: Seq<char>, since: i64) -> Seq<
    (Seq<char>, Seq<char>),
>
    decreases records.len(),
{
    if records.len() == 0 {
        Seq::empty()
    } else {
        let rest = changed_since(records.drop_last(), owner, since);
        let last = records.last();
        if last.owner == owner && last.last_sync_timestamp >= since {
            rest.push((last.server_id, last.caldav_resource_href))
        } else {
            rest
        }
    }
}

/// What the position of an identifier is: the one record that has it.
pub proof fn lemma_position(records: Seq<RecordView>, server_id: Seq<char>, from: int)
    requires
        0 <= from,
    ensures
        match position_from(records, server_id, from) {
            Some(i) => from <= i < records.len() && records[i].server_id == server_id && forall|k: int|
                from <= k < i ==> records[k].server_id != server_id,
            None => forall|k: int| from <= k < records.len() ==> records[k].server_id != server_id,
        },
    decreases records.len() - from,
{
    if from < records.len() && records[from].server_id != server_id {
        lemma_position(records, server_id, from + 1);
    }
}

/// The mapping store, in memory: a model of the rules that a persistent
/// store of these records is meant to follow.
pub struct ItemMap {
    pub records: Vec<CalendarItemRecord>,
}

impl View for ItemMap {
    type V = Seq<RecordView>;

    open spec fn view(&self) -> Seq<RecordView> {
        views(self.records@)
    }
}

impl ItemMap {
    /// Whether the store is consistent: no server identifier occurs twice.
    pub open spec fn wf(&self) -> bool {
        distinct_ids(self@)
    }

    /// An empty store.
    pub fn new() -> (m: ItemMap)
        ensures
            m.wf(),
            m@ == Seq::<RecordView>::empty(),
    {
        let m = ItemMap { records: Vec::new() };
        assert(m@ =~= Seq::<RecordView>::empty());
        m
    }

    /// Finds the position of the record with the identifier.
    fn find(&self, server_id: &str) -> (r: Option<usize>)
        ensures
            match r {
                Some(k) => position(self@, server_id@) == Some(k as int) && k < self.records@.len(),
                None => position(self@, server_id@) is None,
            },
    {
        let mut i: usize = 0;
        while i < self.records.len()
            invariant
                i <= self.records@.len(),
                position(self@, server_id@) == position_from(self@, server_id@, i as int),
            decreases self.records@.len() - i,
        {
            assert(self@[i as int] == self.records@[i as int]@);
            if crate::text::text_eq(self.records[i].server_id.as_str(), server_id) {
                return Some(i);
            }
            i += 1;
        }
        None
    }

    /// Looks a record up by its server identifier.
    pub fn get_item_by_server_id(&self, server_id: &str) -> (r: Option<CalendarItemRecord>)
        ensures
            match position(self@, server_id@) {
                Some(i) => r matches Some(rec) && rec@ == self@[i],
                None => r is None,
            },
    {
        match self.find(server_id) {
            Some(i) => {
                assert(self@[i as int] == self.records@[i as int]@);
                Some(self.records[i].duplicate())
            },
            None => None,
        }
    }

    /// Writes a record: updates the record with the same server identifier in
    /// place, or adds the record where the identifier is new.
    pub fn upsert_item_map(&mut self, record: CalendarItemRecord)
        requires
            old(self).wf(),
        ensures
            final(self).wf(),
            final(self)@ == upserted(old(self)@, record@),
    {
        let ghost before = self@;
        proof {
            lemma_position(before, record@.server_id, 0);
        }
        match self.find(record.server_id.as_str()) {
            Some(i) => {
                assert(before[i as int] == self.records@[i as int]@);
                let merged = CalendarItemRecord {
                    owner: self.records[i].owner.clone(),
                    caldav_collection_href: self.records[i].caldav_collection_href.clone(),
                    caldav_resource_href: record.caldav_resource_href,
                    server_id: record.server_id,
                    uid: record.uid,
                    etag: record.etag,
                    last_sync_timestamp: record.last_sync_timestamp,
                };
                self.records.set(i, merged);
                assert(self@ =~= before.update(i as int, rewritten(before[i as int], record@)));
            },
            None => {
                self.records.push(record);
                assert(self@ =~= before.push(record@));
            },
        }
    }

    /// Removes the record with the server identifier, if there is one.
    pub fn delete_item_by_server_id(&mut self, server_id: &str)
        requires
            old(self).wf(),
        ensures
            final(self).wf(),
            final(self)@ == removed(old(self)@, server_id@),
            position(final(self)@, server_id@) is None,
    {
        let ghost before = self@;
        proof {
            lemma_position(before, server_id@, 0);
        }
        match self.find(server_id) {
            Some(i) => {
                self.records.remove(i);
                assert(self@ =~= before.remove(i as int));
                proof {
                    lemma_position(self@, server_id@, 0);
                }
            },
            None => {},
        }
    }

    /// Lists the records of an owner written at or after an instant.
    pub fn list_changes_since(&self, owner: &str, since: i64) -> (r: Vec<(String, String)>)
        ensures
            r@.len() == changed_since(self@, owner@, since).len(),
            forall|k: int|
                0 <= k < r@.len() ==> (#[trigger] r@[k]).0@ == changed_since(self@, owner@, since)[k].0
                    && r@[k].1@ == changed_since(self@, owner@, since)[k].1,
    {
        let mut out: Vec<(String, String)> = Vec::new();
        let mut i: usize = 0;
        assert(self@.take(0) =~= Seq::<RecordView>::empty());
        while i < self.records.len()
            invariant
                i <= self.records@.len(),
                out@.len() == changed_since(self@.take(i as int), owner@, since).len(),
                forall|k: int|
                    0 <= k < out@.len() ==> (#[trigger] out@[k]).0@ == changed_since(
                        self@.take(i as int),
                        owner@,
                        since,
                    )[k].0 && out@[k].1@ == changed_since(self@.take(i as int), owner@, since)[k].1,
            decreases self.records@.len() - i,
        {
            proof {
                assert(self@.take(i + 1).drop_last() =~= self@.take(i as int));
                assert(self@.take(i + 1).last() == self.records@[i as int]@);
            }
            let rec = &self.records[i];
            if crate::text::text_eq(rec.owner.as_str(), owner) && rec.last_sync_timestamp >= since {
                out.push((rec.server_id.clone(), rec.caldav_resource_href.clone()));
            }
            i += 1;
        }
        assert(self@.take(self@.len() as int) =~= self@);
        out
    }
}

/// Writing a record twice leaves the store as writing it once: the second
/// write finds the record of the first and changes nothing.
pub proof fn law_upsert_idempotent(records: Seq<RecordView>, record: RecordView)
    requires
        distinct_ids(records),
    ensures
        upserted(upserted(records, record), record) == upserted(records, record),
        distinct_ids(upserted(records, record)),
        upserted(records, record).len() == records.len() + if position(records, record.server_id) is None {
            1int
        } else {
            0int
        },
{
    let id = record.server_id;
    let once = upserted(records, record);
    lemma_position(records, id, 0);
    lemma_position(once, id, 0);
    match position(records, id) {
        Some(i) => {
            assert(once[i].server_id == id);
            assert(position(once, id) == Some(i));
            assert(upserted(once, record) =~= once);
        },
        None => {
            let n = records.len() as int;
            assert(once[n].server_id == id);
            assert(position(once, id) == Some(n));
            assert(upserted(once, record) =~= once);
        },
    }
}

/// A record that was written is found under its server identifier, with
/// the resource, the event identifier and the version token it was written
/// with.
pub proof fn law_upsert_then_lookup(records: Seq<RecordView>, record: RecordView)
    ensures
        position(upserted(records, record), record.server_id) matches Some(i) && ({
            let found = upserted(records, record)[i];
            &&& found.server_id == record.server_id
            &&& found.caldav_resource_href == record.caldav_resource_href
            &&& found.uid == record.uid
            &&& found.etag == record.etag
            &&& found.last_sync_timestamp == record.last_sync_timestamp
        }),
{
    let id = record.server_id;
    let after = upserted(records, record);
    lemma_position(records, id, 0);
    lemma_position(after, id, 0);
    match position(records, id) {
        Some(i) => {
            assert(after[i].server_id == id);
        },
        None => {
            assert(after[records.len() as int].server_id == id);
        },
    }
}

/// A record that was removed is no longer found, and every other record
/// stays as it was.
pub proof fn law_delete_then_lookup(records: Seq<RecordView>, server_id: Seq<char>, other: Seq<char>)
    requires
        distinct_ids(records),
        other != server_id,
    ensures
        position(removed(records, server_id), server_id) is None,
        match position(records, other) {
            Some(i) => position(removed(records, server_id), other) matches Some(j) && removed(
                records,
                server_id,
            )[j] == records[i],
            None => position(removed(records, server_id), other) is None,
        },
{
    let after = removed(records, server_id);
    lemma_position(records, server_id, 0);
    lemma_position(records, other, 0);
    lemma_position(after, server_id, 0);
    lemma_position(after, other, 0);
    match position(records, server_id) {
        Some(d) => {
            assert(forall|k: int| 0 <= k < d ==> after[k] == records[k]);
            assert(forall|k: int| d <= k < after.len() ==> after[k] == records[k + 1]);
            match position(records, other) {
                Some(i) => {
                    if i < d {
                        assert(after[i] == records[i]);
                    } else {
                        assert(after[i - 1] == records[i]);
                    }
                },
                None => {},
            }
        },
        None => {},
    }
}

} // verus!
