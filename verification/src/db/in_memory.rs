//! A store that keeps its zones in memory.
//!
//! When a zone is added, its records are gone through once and the store
//! notes which of them a lookup will give: for each type the first record
//! at the origin, and for `NS` every record at the origin that holds a
//! value not seen before. A lookup then finds the zone and reads its
//! answer off these notes.

use crate::db::record::{
    record_views, RecordData, RecordDataView, RecordType, RecordView, ResourceRecord, Zone, ZoneView,
};
use crate::db::{
    answers, data_views, distinct_origins, distinct_picks, distinct_values, first_answer,
    lemma_distinct_picks, lemma_first_answer_is_first, lemma_zone_index_is_first, same_name,
    zone_index, Category, Database, QueryError, StoreError,
};
use crate::text::{chars_of, eq_ignoring_case};
use vstd::prelude::*;

verus! {

/// The number of record types.
const TYPES: usize = 9;

/// The place of a record type among the record types.
spec fn ordinal(t: RecordType) -> int {
    match t {
        RecordType::A => 0,
        RecordType::AAAA => 1,
        RecordType::CNAME => 2,
        RecordType::MX => 3,
        RecordType::NS => 4,
        RecordType::PTR => 5,
        RecordType::SOA => 6,
        RecordType::SRV => 7,
        RecordType::TXT => 8,
    }
}

fn ordinal_of(t: RecordType) -> (r: usize)
    ensures
        r == ordinal(t),
        r < TYPES,
{
    match t {
        RecordType::A => 0,
        RecordType::AAAA => 1,
        RecordType::CNAME => 2,
        RecordType::MX => 3,
        RecordType::NS => 4,
        RecordType::PTR => 5,
        RecordType::SOA => 6,
        RecordType::SRV => 7,
        RecordType::TXT => 8,
    }
}

/// The first answer among records and one more: the first among the
/// records where there is one, else the one more where it answers.
proof fn lemma_first_answer_grows(records: Seq<RecordView>, origin: Seq<char>, t: RecordType, from: int)
    requires
        records.len() > 0,
        0 <= from < records.len(),
    ensures
        first_answer(records, origin, t, from) == match first_answer(
            records.drop_last(),
            origin,
            t,
            from,
        ) {
            Some(i) => Some(i),
            None => if answers(records.last(), origin, t) {
                Some(records.len() - 1)
            } else {
                None
            },
        },
    decreases records.len() - from,
{
    let init = records.drop_last();
    if from < init.len() {
        assert(init[from] == records[from]);
        if !answers(records[from], origin, t) {
            if from + 1 < records.len() {
                lemma_first_answer_grows(records, origin, t, from + 1);
            }
        }
    } else {
        assert(first_answer(records, origin, t, from + 1) is None);
    }
}

spec fn ints(v: Seq<usize>) -> Seq<int> {
    Seq::new(v.len(), |i: int| v[i] as int)
}

spec fn position(p: Option<usize>) -> Option<int> {
    match p {
        Some(j) => Some(j as int),
        None => None,
    }
}

/// The notes on the records of a zone.
struct ZoneIndex {
    /// The positions of the `NS` records that a lookup gives.
    ns: Vec<usize>,
    /// For each record type, by its ordinal, the position of the first
    /// record of that type at the origin.
    first: Vec<Option<usize>>,
}

impl ZoneIndex {
    /// Whether the notes are those on `records` under `origin`.
    spec fn matches(&self, records: Seq<RecordView>, origin: Seq<char>) -> bool {
        &&& ints(self.ns@) == distinct_picks(records, origin, RecordType::NS)
        &&& self.first@.len() == TYPES
        &&& forall|t: RecordType|
            position(#[trigger] self.first@[ordinal(t)]) == first_answer(records, origin, t, 0)
    }

    /// The notes on no records.
    fn new(Ghost(origin): Ghost<Seq<char>>) -> (r: Self)
        ensures
            r.matches(Seq::empty(), origin),
    {
        let mut first: Vec<Option<usize>> = Vec::new();
        let mut i: usize = 0;
        while i < TYPES
            invariant
                i <= TYPES,
                first@.len() == i,
                forall|k: int| 0 <= k < i ==> first@[k] is None,
            decreases TYPES - i,
        {
            first.push(None);
            i += 1;
        }
        let r = ZoneIndex { ns: Vec::new(), first };
        assert(ints(r.ns@) == Seq::<int>::empty());
        r
    }

    /// Whether one of the records at the positions `picks` holds the data
    /// of the record at `j`.
    fn holds_value(picks: &Vec<usize>, records: &Vec<ResourceRecord>, j: usize) -> (r: bool)
        requires
            j < records@.len(),
            forall|k: int| 0 <= k < picks@.len() ==> #[trigger] picks@[k] < records@.len(),
        ensures
            r == exists|k: int| 0 <= k < picks@.len() && records@[#[trigger] picks@[k] as int].data@ == records@[j as int].data@,
    {
        let mut k: usize = 0;
        while k < picks.len()
            invariant
                k <= picks@.len(),
                j < records@.len(),
                forall|m: int| 0 <= m < picks@.len() ==> #[trigger] picks@[m] < records@.len(),
                forall|m: int| 0 <= m < k ==> records@[#[trigger] picks@[m] as int].data@ != records@[j as int].data@,
            decreases picks.len() - k,
        {
            if records[picks[k]].data.same(&records[j].data) {
                return true;
            }
            k += 1;
        }
        false
    }

    /// Takes note of the record at position `j`, the notes on the records
    /// before it being taken. `at_origin` tells whether the owner of the
    /// record is the origin.
    ///
    /// A record that is not at the origin leaves the notes as they are. A
    /// record at the origin is noted where it is the first of its type,
    /// and an `NS` record also where none before it holds its value.
    fn note_record(
        &mut self,
        records: &Vec<ResourceRecord>,
        j: usize,
        at_origin: bool,
        Ghost(origin): Ghost<Seq<char>>,
    )
        requires
            j < records@.len(),
            at_origin == same_name(records@[j as int].name@, origin),
            old(self).matches(record_views(records@).take(j as int), origin),
        ensures
            final(self).matches(record_views(records@).take(j + 1), origin),
    {
        let ghost all = record_views(records@);
        let ghost before = all.take(j as int);
        let ghost now = all.take(j + 1);
        let record = &records[j];
        let kind = record.data.get_type();
        proof {
            assert(now.drop_last() == before);
            assert(now.last() == record@);
            assert forall|t: RecordType|
                first_answer(now, origin, t, 0) == match #[trigger] first_answer(before, origin, t, 0) {
                    Some(i) => Some(i),
                    None => if answers(record@, origin, t) {
                        Some(j as int)
                    } else {
                        None
                    },
                } by {
                lemma_first_answer_grows(now, origin, t, 0);
            }
        }
        if !at_origin {
            return;
        }
        let slot = ordinal_of(kind);
        assert(position(self.first@[ordinal(kind)]) == first_answer(before, origin, kind, 0));
        if self.first[slot].is_none() {
            let ghost old_first = self.first@;
            self.first[slot] = Some(j);
            assert forall|t: RecordType|
                position(#[trigger] self.first@[ordinal(t)]) == first_answer(now, origin, t, 0) by {
                if t != kind {
                    assert(self.first@[ordinal(t)] == old_first[ordinal(t)]);
                }
            }
        }
        match kind {
            RecordType::NS => ZoneIndex::note_value(&mut self.ns, records, j, Ghost(origin)),
            _ => {},
        }
    }

    /// Notes the position `j` of a record at the origin among the
    /// positions `picks` of the records of its type, unless a record at
    /// one of them holds the same value.
    fn note_value(
        picks: &mut Vec<usize>,
        records: &Vec<ResourceRecord>,
        j: usize,
        Ghost(origin): Ghost<Seq<char>>,
    )
        requires
            j < records@.len(),
            same_name(records@[j as int].name@, origin),
            ints(old(picks)@) == distinct_picks(
                record_views(records@).take(j as int),
                origin,
                records@[j as int].data@.kind(),
            ),
        ensures
            ints(final(picks)@) == distinct_picks(
                record_views(records@).take(j + 1),
                origin,
                records@[j as int].data@.kind(),
            ),
    {
        let ghost all = record_views(records@);
        let ghost before = all.take(j as int);
        let ghost now = all.take(j + 1);
        let ghost record = records@[j as int]@;
        let ghost kind = record.data.kind();
        let ghost values = distinct_values(before, origin, kind);
        proof {
            assert(now.drop_last() == before);
            assert(now.last() == record);
            lemma_distinct_picks(before, origin, kind);
            assert forall|k: int| 0 <= k < picks@.len() implies #[trigger] picks@[k] < records@.len()
                && records@[picks@[k] as int].data@ == values[k] by {
                assert(picks@[k] == ints(picks@)[k]);
                assert(all[picks@[k] as int] == before[picks@[k] as int]);
            }
        }
        let seen = ZoneIndex::holds_value(picks, records, j);
        proof {
            if seen {
                let k = choose|k: int|
                    0 <= k < picks@.len() && records@[#[trigger] picks@[k] as int].data@
                        == record.data;
                assert(values[k] == record.data);
            } else if values.contains(record.data) {
                let k = choose|k: int| 0 <= k < values.len() && values[k] == record.data;
                assert(records@[picks@[k] as int].data@ == record.data);
            }
        }
        if !seen {
            let ghost noted = ints(picks@);
            picks.push(j);
            assert(ints(picks@) == noted.push(j as int));
        }
    }
}

/// A zone in the store, with the origin as characters and the notes on
/// its records.
struct Entry {
    zone: Zone,
    key: Vec<char>,
    index: ZoneIndex,
}

impl Entry {
    spec fn wf(&self) -> bool {
        &&& self.key@ == self.zone.origin@
        &&& self.index.matches(self.zone@.records, self.zone@.origin)
    }

    /// Goes through the records of `zone` and takes the notes on them.
    fn new(zone: Zone) -> (r: Entry)
        ensures
            r.wf(),
            r.zone@ == zone@,
    {
        let key = chars_of(zone.origin.as_str());
        let ghost origin = zone.origin@;
        let ghost all = record_views(zone.records@);
        let mut index = ZoneIndex::new(Ghost(origin));
        let mut j: usize = 0;
        assert(all.take(0) == Seq::<RecordView>::empty());
        while j < zone.records.len()
            invariant
                j <= zone.records@.len(),
                key@ == zone.origin@,
                origin == zone.origin@,
                all == record_views(zone.records@),
                index.matches(all.take(j as int), origin),
            decreases zone.records.len() - j,
        {
            let owner = chars_of(zone.records[j].name.as_str());
            let at_origin = eq_ignoring_case(owner.as_slice(), key.as_slice());
            index.note_record(&zone.records, j, at_origin, Ghost(origin));
            j += 1;
        }
        assert(all.take(j as int) == all);
        Entry { zone, key, index }
    }
}

/// A store that keeps its zones in memory, in the order in which they
/// were added. No two of its zones have the same origin.
pub struct InMemoryDatabase {
    entries: Vec<Entry>,
}

spec fn entry_zones(entries: Seq<Entry>) -> Seq<ZoneView> {
    Seq::new(entries.len(), |i: int| entries[i].zone@)
}

impl InMemoryDatabase {
    #[verifier::type_invariant]
    spec fn wf(&self) -> bool {
        &&& forall|i: int| 0 <= i < self.entries@.len() ==> (#[trigger] self.entries@[i]).wf()
        &&& distinct_origins(entry_zones(self.entries@))
    }

    /// A store without zones.
    pub fn new() -> (r: Self)
        ensures
            r.zones() == Seq::<ZoneView>::empty(),
            distinct_origins(r.zones()),
    {
        let r = InMemoryDatabase { entries: Vec::new() };
        assert(entry_zones(r.entries@) == Seq::<ZoneView>::empty());
        r
    }

    /// The position of the zone whose origin is `name`.
    fn find(&self, name: &[char]) -> (r: Option<usize>)
        ensures
            match r {
                Some(i) => zone_index(self.zones(), name@, 0) == Some(i as int) && i
                    < self.entries@.len(),
                None => zone_index(self.zones(), name@, 0) is None,
            },
    {
        proof {
            use_type_invariant(self);
        }
        let mut i: usize = 0;
        while i < self.entries.len()
            invariant
                i <= self.entries@.len(),
                self.zones() == entry_zones(self.entries@),
                forall|k: int| 0 <= k < self.entries@.len() ==> (#[trigger] self.entries@[k]).wf(),
                zone_index(self.zones(), name@, 0) == zone_index(self.zones(), name@, i as int),
            decreases self.entries.len() - i,
        {
            assert(self.entries@[i as int].wf());
            if eq_ignoring_case(self.entries[i].key.as_slice(), name) {
                return Some(i);
            }
            i += 1;
        }
        None
    }
}

impl Database for InMemoryDatabase {
    closed spec fn zones(&self) -> Seq<ZoneView> {
        entry_zones(self.entries@)
    }

    fn add_zone(&mut self, zone: Zone) -> (r: Result<(), StoreError>)
        ensures
            distinct_origins(final(self).zones()),
    {
        proof {
            use_type_invariant(&*self);
        }
        let name = chars_of(zone.origin.as_str());
        if self.find(name.as_slice()).is_some() {
            return Err(StoreError::DuplicateZone);
        }
        let ghost before = self.entries@;
        let ghost added = zone@;
        let entry = Entry::new(zone);
        let mut entries: Vec<Entry> = Vec::new();
        assert(entry_zones(entries@) == Seq::<ZoneView>::empty());
        core::mem::swap(&mut self.entries, &mut entries);
        entries.push(entry);
        proof {
            assert(entry_zones(entries@) == entry_zones(before).push(added));
            lemma_zone_index_is_first(entry_zones(before), added.origin, 0);
            assert forall|a: int, b: int| 0 <= a < b < entries@.len() implies !same_name(
                (#[trigger] entry_zones(entries@)[a]).origin,
                (#[trigger] entry_zones(entries@)[b]).origin,
            ) by {
                if b < before.len() {
                    assert(entry_zones(before)[a] == entry_zones(entries@)[a]);
                    assert(entry_zones(before)[b] == entry_zones(entries@)[b]);
                } else {
                    assert(entry_zones(before)[a] == entry_zones(entries@)[a]);
                }
            }
        }
        let mut spare: Vec<Entry> = entries;
        core::mem::swap(&mut self.entries, &mut spare);
        Ok(())
    }

    fn zone_ttl(&self, fqdn: &str) -> (r: Option<u32>) {
        let name = chars_of(fqdn);
        match self.find(name.as_slice()) {
            Some(i) => Some(self.entries[i].zone.ttl),
            None => None,
        }
    }

    fn lookup_meta_records(&self, fqdn: &str, record_type: RecordType) -> (r: Result<
        Option<Vec<&RecordData>>,
        QueryError,
    >) {
        proof {
            use_type_invariant(self);
        }
        match record_type.category() {
            Category::Meta => {},
            Category::Resource => {
                return Err(QueryError::WrongCategory);
            },
        }
        let name = chars_of(fqdn);
        let i = match self.find(name.as_slice()) {
            Some(i) => i,
            None => {
                return Ok(None);
            },
        };
        let entry = &self.entries[i];
        assert(entry.wf());
        assert(self.zones()[i as int] == entry.zone@);
        let ghost records = entry.zone@.records;
        let ghost origin = entry.zone@.origin;
        let mut out: Vec<&RecordData> = Vec::new();
        match record_type {
            RecordType::SOA => {
                let found = entry.index.first[ordinal_of(record_type)];
                assert(position(found) == first_answer(records, origin, record_type, 0));
                proof {
                    lemma_first_answer_is_first(records, origin, record_type, 0);
                }
                match found {
                    Some(j) => {
                        out.push(&entry.zone.records[j].data);
                        assert(data_views(out@) == seq![records[j as int].data]);
                    },
                    None => {
                        assert(data_views(out@) == Seq::<RecordDataView>::empty());
                    },
                }
            },
            _ => {
                let picks = &entry.index.ns;
                proof {
                    lemma_distinct_picks(records, origin, record_type);
                }
                let ghost values = distinct_values(records, origin, record_type);
                assert(ints(picks@) == distinct_picks(records, origin, record_type));
                assert forall|m: int| 0 <= m < picks@.len() implies #[trigger] picks@[m]
                    < records.len() && records[picks@[m] as int].data == values[m] by {
                    assert(picks@[m] == ints(picks@)[m]);
                    assert(distinct_picks(records, origin, record_type)[m] == picks@[m]);
                }
                assert(data_views(out@) == values.take(0));
                let mut k: usize = 0;
                while k < picks.len()
                    invariant
                        k <= picks@.len(),
                        picks@.len() == values.len(),
                        records == record_views(entry.zone.records@),
                        forall|m: int|
                            0 <= m < picks@.len() ==> #[trigger] picks@[m] < records.len()
                                && records[picks@[m] as int].data == values[m],
                        data_views(out@) == values.take(k as int),
                    decreases picks.len() - k,
                {
                    let ghost noted = data_views(out@);
                    let at = picks[k];
                    out.push(&entry.zone.records[at].data);
                    assert(data_views(out@) == noted.push(values[k as int]));
                    assert(values.take(k + 1) == values.take(k as int).push(values[k as int]));
                    k += 1;
                }
                assert(values.take(k as int) == values);
            },
        }
        if out.len() == 0 {
            Ok(None)
        } else {
            Ok(Some(out))
        }
    }

    fn lookup_resource_record(&self, fqdn: &str, record_type: RecordType) -> (r: Result<
        Option<&RecordData>,
        QueryError,
    >) {
        proof {
            use_type_invariant(self);
        }
        match record_type.category() {
            Category::Resource => {},
            Category::Meta => {
                return Err(QueryError::WrongCategory);
            },
        }
        let name = chars_of(fqdn);
        let i = match self.find(name.as_slice()) {
            Some(i) => i,
            None => {
                return Ok(None);
            },
        };
        let entry = &self.entries[i];
        assert(entry.wf());
        assert(self.zones()[i as int] == entry.zone@);
        let found = entry.index.first[ordinal_of(record_type)];
        assert(position(found) == first_answer(
            entry.zone@.records,
            entry.zone@.origin,
            record_type,
            0,
        ));
        proof {
            lemma_first_answer_is_first(entry.zone@.records, entry.zone@.origin, record_type, 0);
        }
        match found {
            Some(j) => Ok(Some(&entry.zone.records[j].data)),
            None => Ok(None),
        }
    }
}

} // verus!
