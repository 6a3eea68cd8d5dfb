//! The zone and record model and the authoritative store.

pub mod in_memory;
pub mod record;

pub use in_memory::InMemoryDatabase;
pub use record::{
    Category, RecordClass, RecordData, RecordDataView, RecordType, RecordView, ResourceRecord, Zone,
    ZoneView,
};

use crate::text::same_ignoring_case;
use vstd::prelude::*;

verus! {

/// Why a zone was not taken into a store.
#[derive(Debug, PartialEq, Eq, Hash, Clone, Copy, Structural)]
pub enum StoreError {
    /// The store already holds a zone with this origin.
    DuplicateZone,
}

/// Why a lookup was refused.
#[derive(Debug, PartialEq, Eq, Hash, Clone, Copy, Structural)]
pub enum QueryError {
    /// The record type is not of the category that the lookup serves.
    WrongCategory,
}

impl StoreError {
    /// What the refusal says, in words.
    pub open spec fn description(self) -> Seq<char> {
        "the store holds a zone with this origin already"@
    }

    /// The text form.
    pub fn to_string(&self) -> (r: String)
        ensures
            r@ == self.description(),
    {
        "the store holds a zone with this origin already".to_owned()
    }
}

impl QueryError {
    /// What the refusal says, in words.
    pub open spec fn description(self) -> Seq<char> {
        "the record type is of the other category: use the other lookup"@
    }

    /// The text form.
    pub fn to_string(&self) -> (r: String)
        ensures
            r@ == self.description(),
    {
        "the record type is of the other category: use the other lookup".to_owned()
    }
}

/// Whether two domain names are the same name: equal label by label,
/// ASCII letter case disregarded.
pub open spec fn same_name(a: Seq<char>, b: Seq<char>) -> bool {
    same_ignoring_case(a, b)
}

/// The position of the first zone at or after `from` whose origin is `name`.
pub open spec fn zone_index(zones: Seq<ZoneView>, name: Seq<char>, from: int) -> Option<int>
    decreases zones.len() - from,
{
    if from < 0 || from >= zones.len() {
        None
    } else if same_name(zones[from].origin, name) {
        Some(from)
    } else {
        zone_index(zones, name, from + 1)
    }
}

/// Whether some zone has the origin `name`.
pub open spec fn holds_zone(zones: Seq<ZoneView>, name: Seq<char>) -> bool {
    zone_index(zones, name, 0) is Some
}

/// Whether no two zones have the same origin.
pub open spec fn distinct_origins(zones: Seq<ZoneView>) -> bool {
    forall|i: int, j: int|
        0 <= i < j < zones.len() ==> !same_name(
            (#[trigger] zones[i]).origin,
            (#[trigger] zones[j]).origin,
        )
}

/// Whether a record answers a lookup of type `t` in a zone: its owner is
/// the zone's origin and its data is of type `t`.
pub open spec fn answers(r: RecordView, origin: Seq<char>, t: RecordType) -> bool {
    same_name(r.name, origin) && r.data.kind() == t
}

/// The data of the records that answer, in the order of the records, each
/// value once.
pub open spec fn distinct_values(records: Seq<RecordView>, origin: Seq<char>, t: RecordType) -> Seq<
    RecordDataView,
>
    decreases records.len(),
{
    if records.len() == 0 {
        Seq::empty()
    } else {
        let before = distinct_values(records.drop_last(), origin, t);
        let r = records.last();
        if answers(r, origin, t) && !before.contains(r.data) {
            before.push(r.data)
        } else {
            before
        }
    }
}

/// The position of the first record at or after `from` that answers.
pub open spec fn first_answer(records: Seq<RecordView>, origin: Seq<char>, t: RecordType, from: int) -> Option<
    int,
>
    decreases records.len() - from,
{
    if from < 0 || from >= records.len() {
        None
    } else if answers(records[from], origin, t) {
        Some(from)
    } else {
        first_answer(records, origin, t, from + 1)
    }
}

/// The values that a zone gives for a meta type: for `SOA` the value of
/// the first record that answers, if there is one; for `NS` the values of
/// all records that answer, in the order of the records, each value once.
pub open spec fn meta_values(records: Seq<RecordView>, origin: Seq<char>, t: RecordType) -> Seq<
    RecordDataView,
> {
    if t == RecordType::SOA {
        match first_answer(records, origin, t, 0) {
            Some(j) => seq![records[j].data],
            None => Seq::empty(),
        }
    } else {
        distinct_values(records, origin, t)
    }
}

/// What a lookup of the meta records of type `t` at `fqdn` gives.
pub open spec fn meta_lookup(zones: Seq<ZoneView>, fqdn: Seq<char>, t: RecordType) -> Result<
    Option<Seq<RecordDataView>>,
    QueryError,
> {
    if t.category() != Category::Meta {
        Err(QueryError::WrongCategory)
    } else {
        match zone_index(zones, fqdn, 0) {
            None => Ok(None),
            Some(i) => {
                let values = meta_values(zones[i].records, zones[i].origin, t);
                if values.len() == 0 {
                    Ok(None)
                } else {
                    Ok(Some(values))
                }
            },
        }
    }
}

/// What a lookup of the resource record of type `t` at `fqdn` gives.
pub open spec fn resource_lookup(zones: Seq<ZoneView>, fqdn: Seq<char>, t: RecordType) -> Result<
    Option<RecordDataView>,
    QueryError,
> {
    if t.category() != Category::Resource {
        Err(QueryError::WrongCategory)
    } else {
        match zone_index(zones, fqdn, 0) {
            None => Ok(None),
            Some(i) => match first_answer(zones[i].records, zones[i].origin, t, 0) {
                None => Ok(None),
                Some(j) => Ok(Some(zones[i].records[j].data)),
            },
        }
    }
}

/// The default time to live of the zone with the origin `fqdn`, where
/// there is such a zone.
pub open spec fn zone_ttl_of(zones: Seq<ZoneView>, fqdn: Seq<char>) -> Option<u32> {
    match zone_index(zones, fqdn, 0) {
        Some(i) => Some(zones[i].ttl),
        None => None,
    }
}

/// The views of a sequence of borrowed record data.
pub open spec fn data_views(v: Seq<&RecordData>) -> Seq<RecordDataView> {
    Seq::new(v.len(), |i: int| v[i]@)
}

/// A store of zones that answers lookups by name and record type.
pub trait Database {
    /// The zones in the store, in the order in which they were added.
    spec fn zones(&self) -> Seq<ZoneView>;

    /// Adds a zone, unless the store holds one with the same origin: then
    /// the store stays as it is.
    fn add_zone(&mut self, zone: Zone) -> (r: Result<(), StoreError>)
        ensures
            distinct_origins(old(self).zones()) ==> distinct_origins(final(self).zones()),
            match r {
                Ok(_) => !holds_zone(old(self).zones(), zone@.origin) && final(self).zones() == old(
                    self,
                ).zones().push(zone@),
                Err(e) => e == StoreError::DuplicateZone && holds_zone(
                    old(self).zones(),
                    zone@.origin,
                ) && final(self).zones() == old(self).zones(),
            },
    ;

    /// The values of the meta records of type `record_type` that the zone
    /// with origin `fqdn` holds for its origin.
    fn lookup_meta_records(&self, fqdn: &str, record_type: RecordType) -> (r: Result<
        Option<Vec<&RecordData>>,
        QueryError,
    >)
        ensures
            record_type.category() != Category::Meta ==> r == Err::<
                Option<Vec<&RecordData>>,
                QueryError,
            >(QueryError::WrongCategory),
            record_type.category() == Category::Meta ==> r is Ok,
            match meta_lookup(self.zones(), fqdn@, record_type) {
                Ok(Some(values)) => r is Ok && r->Ok_0 is Some && data_views(r->Ok_0->Some_0@)
                    == values,
                Ok(None) => r == Ok::<Option<Vec<&RecordData>>, QueryError>(None),
                Err(e) => r == Err::<Option<Vec<&RecordData>>, QueryError>(e),
            },
    ;

    /// The default time to live of the zone with origin `fqdn`, where the
    /// store holds such a zone.
    fn zone_ttl(&self, fqdn: &str) -> (r: Option<u32>)
        ensures
            r == zone_ttl_of(self.zones(), fqdn@),
    ;

    /// The value of the first resource record of type `record_type` that
    /// the zone with origin `fqdn` holds for its origin.
    fn lookup_resource_record(&self, fqdn: &str, record_type: RecordType) -> (r: Result<
        Option<&RecordData>,
        QueryError,
    >)
        ensures
            record_type.category() != Category::Resource ==> r == Err::<
                Option<&RecordData>,
                QueryError,
            >(QueryError::WrongCategory),
            record_type.category() == Category::Resource ==> r is Ok,
            match resource_lookup(self.zones(), fqdn@, record_type) {
                Ok(Some(value)) => r is Ok && r->Ok_0 is Some && r->Ok_0->Some_0@ == value,
                Ok(None) => r == Ok::<Option<&RecordData>, QueryError>(None),
                Err(e) => r == Err::<Option<&RecordData>, QueryError>(e),
            },
    ;
}


/// The positions of the records that answer and hold a value that no
/// record before them holds: where the distinct values stand.
pub open spec fn distinct_picks(records: Seq<RecordView>, origin: Seq<char>, t: RecordType) -> Seq<int>
    decreases records.len(),
{
    if records.len() == 0 {
        Seq::empty()
    } else {
        let before = distinct_picks(records.drop_last(), origin, t);
        let r = records.last();
        if answers(r, origin, t) && !distinct_values(records.drop_last(), origin, t).contains(r.data) {
            before.push(records.len() - 1)
        } else {
            before
        }
    }
}

/// The distinct values keep the order of the records: they are the data
/// of the records at the picked positions, one for one; the positions
/// rise; and at each stands the first record that answers with its
/// value.
pub proof fn lemma_distinct_picks(records: Seq<RecordView>, origin: Seq<char>, t: RecordType)
    ensures
        distinct_picks(records, origin, t).len() == distinct_values(records, origin, t).len(),
        forall|k: int|
            0 <= k < distinct_picks(records, origin, t).len() ==> {
                let at = #[trigger] distinct_picks(records, origin, t)[k];
                &&& 0 <= at < records.len()
                &&& answers(records[at], origin, t)
                &&& records[at].data == distinct_values(records, origin, t)[k]
                &&& forall|i: int|
                    0 <= i < at && answers(records[i], origin, t) ==> (#[trigger] records[i]).data
                        != records[at].data
            },
        forall|j: int, k: int|
            0 <= j < k < distinct_picks(records, origin, t).len() ==> (#[trigger] distinct_picks(
                records,
                origin,
                t,
            )[j]) < (#[trigger] distinct_picks(records, origin, t)[k]),
    decreases records.len(),
{
    if records.len() > 0 {
        let init = records.drop_last();
        lemma_distinct_picks(init, origin, t);
        lemma_distinct_values(init, origin, t);
        let picks = distinct_picks(records, origin, t);
        let before = distinct_picks(init, origin, t);
        let values = distinct_values(records, origin, t);
        assert forall|k: int| 0 <= k < picks.len() implies {
            let at = #[trigger] picks[k];
            &&& 0 <= at < records.len()
            &&& answers(records[at], origin, t)
            &&& records[at].data == values[k]
            &&& forall|i: int|
                0 <= i < at && answers(records[i], origin, t) ==> (#[trigger] records[i]).data
                    != records[at].data
        } by {
            let at = picks[k];
            if k < before.len() {
                assert(picks[k] == before[k]);
                assert(init[at] == records[at]);
                assert forall|i: int| 0 <= i < at && answers(records[i], origin, t) implies (
                #[trigger] records[i]).data != records[at].data by {
                    assert(init[i] == records[i]);
                }
            } else {
                assert forall|i: int| 0 <= i < at && answers(records[i], origin, t) implies (
                #[trigger] records[i]).data != records[at].data by {
                    assert(init[i] == records[i]);
                    assert(distinct_values(init, origin, t).contains(init[i].data));
                }
            }
        }
        assert forall|j: int, k: int| 0 <= j < k < picks.len() implies (#[trigger] picks[j]) < (
        #[trigger] picks[k]) by {
            if k < before.len() {
                assert(before[j] < before[k]);
            } else {
                assert(picks[j] == before[j]);
            }
        }
    }
}

/// The zone that a name is looked up in is the first with that origin:
/// the search gives a position at which the origin is the name and before
/// which it is not, or gives none where no origin is the name.
pub proof fn lemma_zone_index_is_first(zones: Seq<ZoneView>, name: Seq<char>, from: int)
    requires
        0 <= from,
    ensures
        match zone_index(zones, name, from) {
            Some(i) => {
                &&& from <= i < zones.len()
                &&& same_name(zones[i].origin, name)
                &&& forall|j: int| from <= j < i ==> !same_name((#[trigger] zones[j]).origin, name)
            },
            None => forall|j: int|
                from <= j < zones.len() ==> !same_name((#[trigger] zones[j]).origin, name),
        },
    decreases zones.len() - from,
{
    if from < zones.len() && !same_name(zones[from].origin, name) {
        lemma_zone_index_is_first(zones, name, from + 1);
    }
}

/// The record that a lookup of a resource type gives is the first that
/// answers: the search gives a position at which the record answers and
/// before which none does, or gives none where no record answers.
pub proof fn lemma_first_answer_is_first(
    records: Seq<RecordView>,
    origin: Seq<char>,
    t: RecordType,
    from: int,
)
    requires
        0 <= from,
    ensures
        match first_answer(records, origin, t, from) {
            Some(j) => {
                &&& from <= j < records.len()
                &&& answers(records[j], origin, t)
                &&& forall|i: int| from <= i < j ==> !answers(#[trigger] records[i], origin, t)
            },
            None => forall|i: int|
                from <= i < records.len() ==> !answers(#[trigger] records[i], origin, t),
        },
    decreases records.len() - from,
{
    if from < records.len() && !answers(records[from], origin, t) {
        lemma_first_answer_is_first(records, origin, t, from + 1);
    }
}

/// Every record type is of exactly one category.
pub proof fn lemma_one_category(t: RecordType)
    ensures
        (t.category() == Category::Meta) != (t.category() == Category::Resource),
        t.category() == Category::Meta <==> (t == RecordType::SOA || t == RecordType::NS),
{
}

/// The values of the records that answer, each once, are those of the
/// records that answer, and none is given twice.
pub proof fn lemma_distinct_values(records: Seq<RecordView>, origin: Seq<char>, t: RecordType)
    ensures
        forall|i: int|
            0 <= i < records.len() && answers(#[trigger] records[i], origin, t) ==> distinct_values(
                records,
                origin,
                t,
            ).contains(records[i].data),
        forall|k: int|
            0 <= k < distinct_values(records, origin, t).len() ==> exists|i: int|
                0 <= i < records.len() && answers(records[i], origin, t) && records[i].data
                    == #[trigger] distinct_values(records, origin, t)[k],
        distinct_values(records, origin, t).no_duplicates(),
    decreases records.len(),
{
    if records.len() > 0 {
        let init = records.drop_last();
        let last = records.last();
        let before = distinct_values(init, origin, t);
        let all = distinct_values(records, origin, t);
        lemma_distinct_values(init, origin, t);
        assert forall|i: int|
            0 <= i < records.len() && answers(#[trigger] records[i], origin, t) implies all.contains(
            records[i].data,
        ) by {
            if i < init.len() {
                assert(init[i] == records[i]);
                let k = choose|k: int| 0 <= k < before.len() && before[k] == records[i].data;
                assert(all[k] == records[i].data);
            } else if before.contains(last.data) {
                let k = choose|k: int| 0 <= k < before.len() && before[k] == last.data;
                assert(all[k] == last.data);
            } else {
                assert(all[all.len() - 1] == last.data);
            }
        }
        assert forall|k: int| 0 <= k < all.len() implies exists|i: int|
            0 <= i < records.len() && answers(records[i], origin, t) && records[i].data
                == #[trigger] all[k] by {
            if k < before.len() {
                assert(all[k] == before[k]);
                let i = choose|i: int|
                    0 <= i < init.len() && answers(init[i], origin, t) && init[i].data == before[k];
                assert(records[i] == init[i]);
            } else {
                assert(records[records.len() - 1].data == all[k]);
            }
        }
    }
}

/// A zone gives at most one `SOA` value, and for `NS` the value of every
/// `NS` record at its origin, none of them twice.
pub proof fn lemma_meta_values(records: Seq<RecordView>, origin: Seq<char>)
    ensures
        meta_values(records, origin, RecordType::SOA).len() <= 1,
        meta_values(records, origin, RecordType::NS).no_duplicates(),
        forall|i: int|
            0 <= i < records.len() && answers(#[trigger] records[i], origin, RecordType::NS)
                ==> meta_values(records, origin, RecordType::NS).contains(records[i].data),
{
    lemma_distinct_values(records, origin, RecordType::NS);
}

/// Two `NS` records at the origin of their zone that hold different
/// values are both given, in the order of the zone.
pub proof fn lemma_two_values_both_given(a: RecordView, b: RecordView, origin: Seq<char>)
    requires
        answers(a, origin, RecordType::NS),
        answers(b, origin, RecordType::NS),
        a.data != b.data,
    ensures
        meta_values(seq![a, b], origin, RecordType::NS) == seq![a.data, b.data],
{
    let t = RecordType::NS;
    let both = seq![a, b];
    assert(both.drop_last() == seq![a]);
    assert(seq![a].drop_last() == Seq::<RecordView>::empty());
    assert(distinct_values(Seq::<RecordView>::empty(), origin, t) == Seq::<RecordDataView>::empty());
    assert(distinct_values(seq![a], origin, t) == seq![a.data]);
    assert(!seq![a.data].contains(b.data));
}

/// A zone that was added is found under its origin, and what was found
/// before under another name is found as before.
pub proof fn lemma_added_zone_is_found(zones: Seq<ZoneView>, zone: ZoneView, name: Seq<char>)
    requires
        !holds_zone(zones, zone.origin),
    ensures
        zone_index(zones.push(zone), zone.origin, 0) == Some(zones.len() as int),
        holds_zone(zones, name) ==> zone_index(zones.push(zone), name, 0) == zone_index(
            zones,
            name,
            0,
        ),
{
    lemma_zone_index_push(zones, zone, zone.origin, 0);
    lemma_zone_index_push(zones, zone, name, 0);
}

/// How the search for a name fares once a zone was added.
proof fn lemma_zone_index_push(zones: Seq<ZoneView>, zone: ZoneView, name: Seq<char>, from: int)
    requires
        0 <= from <= zones.len(),
    ensures
        zone_index(zones.push(zone), name, from) == match zone_index(zones, name, from) {
            Some(i) => Some(i),
            None => if same_name(zone.origin, name) {
                Some(zones.len() as int)
            } else {
                None
            },
        },
    decreases zones.len() - from,
{
    let grown = zones.push(zone);
    if from < zones.len() {
        assert(grown[from] == zones[from]);
        lemma_zone_index_push(zones, zone, name, from + 1);
    } else {
        assert(grown[from] == zone);
        assert(zone_index(grown, name, from + 1) is None);
    }
}

} // verus!
