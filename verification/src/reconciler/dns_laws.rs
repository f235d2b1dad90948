//! What applying the changes to DNS records leads to.

use crate::dns_provider::{DnsChangeView, DnsRecordKey, DnsRecordType, DnsRecordView};
use crate::reconciler::diff;
use crate::{dns_provider, order};
use vstd::prelude::*;

verus! {

/// The record under the id that the provider gave it.
pub open spec fn named_record(record: DnsRecordView, id: Seq<char>) -> DnsRecordView {
    DnsRecordView { id: Some(id), ..record }
}

/// The records of a zone after a change. A new record gets the id `id`.
pub open spec fn record_applied(
    zone: Set<DnsRecordView>,
    change: DnsChangeView,
    id: Seq<char>,
) -> Set<DnsRecordView> {
    match change {
        DnsChangeView::Create(record) => zone.insert(named_record(record, id)),
        DnsChangeView::Update { id: at, record } => Set::new(
            |r: DnsRecordView| zone.contains(r) && r.id != Some(at),
        ).insert(named_record(record, at)),
        DnsChangeView::Delete { id: at } => Set::new(
            |r: DnsRecordView| zone.contains(r) && r.id != Some(at),
        ),
    }
}

/// The records of a zone after a list of changes. What the change at place `i`
/// creates gets the id `ids(i)`.
pub open spec fn records_applied(
    zone: Set<DnsRecordView>,
    changes: Seq<DnsChangeView>,
    ids: spec_fn(int) -> Seq<char>,
) -> Set<DnsRecordView>
    decreases changes.len(),
{
    if changes.len() == 0 {
        zone
    } else {
        record_applied(
            records_applied(zone, changes.drop_last(), ids),
            changes.last(),
            ids(changes.len() - 1),
        )
    }
}

/// A zone whose records all have an id, and in which an id or a key leads to
/// one record at most.
pub open spec fn sound_zone(zone: Set<DnsRecordView>) -> bool {
    &&& forall|r: DnsRecordView| #[trigger] zone.contains(r) ==> r.id is Some
    &&& forall|r: DnsRecordView, s: DnsRecordView| #[trigger]
        zone.contains(r) && #[trigger] zone.contains(s) && r.id == s.id ==> r == s
    &&& forall|r: DnsRecordView, s: DnsRecordView| #[trigger]
        zone.contains(r) && #[trigger] zone.contains(s) && dns_provider::record_key(r)
            == dns_provider::record_key(s) ==> r == s
}

/// Ids that differ from each other and from all ids of a zone.
pub open spec fn fresh_record_ids(
    zone: Set<DnsRecordView>,
    ids: spec_fn(int) -> Seq<char>,
) -> bool {
    &&& forall|i: int, j: int| i != j ==> #[trigger] ids(i) != #[trigger] ids(j)
    &&& forall|r: DnsRecordView, i: int| #[trigger] zone.contains(r) ==> r.id != Some(
        #[trigger] ids(i),
    )
}

/// Whether the actual records have the keys of the desired ones and say the same
/// under each. Of several records with the same key the last counts, so this
/// compares what a change is decided by.
pub open spec fn records_in_sync(
    desired: Seq<DnsRecordView>,
    actual: Seq<DnsRecordView>,
) -> bool {
    let d = diff::records_by_key(desired);
    let a = diff::records_by_key(actual);
    &&& a.dom() == d.dom()
    &&& forall|k: (Seq<char>, DnsRecordType)| #[trigger]
        d.dom().contains(k) ==> diff::same_record(d[k], a[k])
}

/// Whether a record says what is desired under its key.
pub open spec fn is_desired_record(
    desired: Seq<DnsRecordView>,
    record: DnsRecordView,
) -> bool {
    let d = diff::records_by_key(desired);
    &&& d.dom().contains(dns_provider::record_key(record))
    &&& diff::same_record(d[dns_provider::record_key(record)], record)
}

/// The record under a key is one of the records and has that key.
pub proof fn lemma_by_key(records: Seq<DnsRecordView>)
    ensures
        diff::records_by_key(records).dom().finite(),
        forall|i: int|
            0 <= i < records.len() ==> diff::records_by_key(records).dom().contains(
                dns_provider::record_key(#[trigger] records[i]),
            ),
        forall|k: (Seq<char>, DnsRecordType)| #[trigger]
            diff::records_by_key(records).dom().contains(k) ==> {
                let r = diff::records_by_key(records)[k];
                records.contains(r) && dns_provider::record_key(r) == k
            },
    decreases records.len(),
{
    if records.len() > 0 {
        let before = records.drop_last();
        lemma_by_key(before);
        assert forall|i: int| 0 <= i < records.len() implies diff::records_by_key(
            records,
        ).dom().contains(dns_provider::record_key(#[trigger] records[i])) by {
            if i < before.len() {
                assert(records[i] == before[i]);
            }
        }
        assert forall|k: (Seq<char>, DnsRecordType)| #[trigger]
            diff::records_by_key(records).dom().contains(k) implies ({
            let r = diff::records_by_key(records)[k];
            records.contains(r) && dns_provider::record_key(r) == k
        }) by {
            if k == dns_provider::record_key(records.last()) {
                assert(records[records.len() - 1] == records.last());
            } else {
                assert(diff::records_by_key(before).dom().contains(k));
                let r = diff::records_by_key(before)[k];
                let i = choose|i: int| 0 <= i < before.len() && before[i] == r;
                assert(records[i] == r);
            }
        }
    }
}

/// Where the actual records are the desired ones, nothing is changed.
pub proof fn law_records_in_sync_need_no_change(
    desired: Seq<DnsRecordView>,
    actual: Seq<DnsRecordView>,
)
    requires
        records_in_sync(desired, actual),
    ensures
        diff::dns_diff(desired, actual) == Seq::<DnsChangeView>::empty(),
{
    let d = diff::records_by_key(desired);
    let a = diff::records_by_key(actual);
    lemma_by_key(desired);
    lemma_by_key(actual);
    order::law_ascending_lists::<DnsRecordKey>(d.dom());
    let keys = order::ascending::<DnsRecordKey>(d.dom());
    let upserts = keys.map_values(
        |k: (Seq<char>, DnsRecordType)| diff::record_upsert(k, d, a),
    );
    let deletes = keys.map_values(
        |k: (Seq<char>, DnsRecordType)| diff::record_delete(k, d, a),
    );
    assert forall|i: int| 0 <= i < keys.len() implies upserts[i] is None && deletes[i] is None by {
        assert(keys.contains(keys[i]));
        assert(d.dom().contains(keys[i]));
    }
    diff::lemma_no_somes(upserts);
    diff::lemma_no_somes(deletes);
    assert(diff::dns_diff(desired, actual) =~= Seq::<DnsChangeView>::empty());
}

spec fn has_key(zone: Set<DnsRecordView>, k: (Seq<char>, DnsRecordType)) -> bool {
    exists|r: DnsRecordView| #[trigger] zone.contains(r) && dns_provider::record_key(r) == k
}

spec fn ids_left(zone: Set<DnsRecordView>, ids: spec_fn(int) -> Seq<char>, n: int) -> bool {
    forall|r: DnsRecordView, i: int| #[trigger]
        zone.contains(r) && i >= n ==> r.id != Some(#[trigger] ids(i))
}

/// The zone once the keys in `done` have been created or updated.
spec fn upserted(
    zone: Set<DnsRecordView>,
    done: Seq<(Seq<char>, DnsRecordType)>,
    d: Map<(Seq<char>, DnsRecordType), DnsRecordView>,
    a: Map<(Seq<char>, DnsRecordType), DnsRecordView>,
) -> bool {
    &&& sound_zone(zone)
    &&& forall|r: DnsRecordView| #[trigger]
        zone.contains(r) ==> if done.contains(dns_provider::record_key(r)) {
            diff::same_record(d[dns_provider::record_key(r)], r)
        } else {
            a.dom().contains(dns_provider::record_key(r)) && r == a[dns_provider::record_key(r)]
        }
    &&& forall|k: (Seq<char>, DnsRecordType)|
        a.dom().contains(k) || done.contains(k) ==> #[trigger] has_key(zone, k)
}

/// The zone once the keys in `gone` that nobody desires have been deleted.
spec fn pruned(
    zone: Set<DnsRecordView>,
    gone: Seq<(Seq<char>, DnsRecordType)>,
    d: Map<(Seq<char>, DnsRecordType), DnsRecordView>,
    a: Map<(Seq<char>, DnsRecordType), DnsRecordView>,
) -> bool {
    &&& sound_zone(zone)
    &&& forall|r: DnsRecordView| #[trigger]
        zone.contains(r) ==> if d.dom().contains(dns_provider::record_key(r)) {
            diff::same_record(d[dns_provider::record_key(r)], r)
        } else {
            &&& a.dom().contains(dns_provider::record_key(r))
            &&& !gone.contains(dns_provider::record_key(r))
            &&& r == a[dns_provider::record_key(r)]
        }
    &&& forall|k: (Seq<char>, DnsRecordType)|
        d.dom().contains(k) || (a.dom().contains(k) && !gone.contains(k)) ==> #[trigger] has_key(
            zone,
            k,
        )
}

proof fn lemma_upsert_step(
    zone: Set<DnsRecordView>,
    done: Seq<(Seq<char>, DnsRecordType)>,
    k: (Seq<char>, DnsRecordType),
    d: Map<(Seq<char>, DnsRecordType), DnsRecordView>,
    a: Map<(Seq<char>, DnsRecordType), DnsRecordView>,
    ids: spec_fn(int) -> Seq<char>,
    n: int,
)
    requires
        upserted(zone, done, d, a),
        ids_left(zone, ids, n),
        forall|i: int, j: int| i != j ==> #[trigger] ids(i) != #[trigger] ids(j),
        !done.contains(k),
        dns_provider::record_key(d[k]) == k,
    ensures
        match diff::record_upsert(k, d, a) {
            Some(change) => upserted(record_applied(zone, change, ids(n)), done.push(k), d, a)
                && ids_left(record_applied(zone, change, ids(n)), ids, n + 1),
            None => upserted(zone, done.push(k), d, a),
        },
{
    let now = done.push(k);
    assert forall|x: (Seq<char>, DnsRecordType)| now.contains(x) <==> done.contains(x) || x
        == k by {
        if done.contains(x) {
            let i = choose|i: int| 0 <= i < done.len() && done[i] == x;
            assert(now[i] == x);
        }
        assert(now[done.len() as int] == k);
    }
    if a.dom().contains(k) {
        assert(has_key(zone, k));
        let held = choose|r: DnsRecordView| #[trigger]
            zone.contains(r) && dns_provider::record_key(r) == k;
        assert(held == a[k]);
    }
    match diff::record_upsert(k, d, a) {
        Some(change) => {
            let next = record_applied(zone, change, ids(n));
            let new = named_record(
                d[k],
                if a.dom().contains(k) {
                    a[k].id->0
                } else {
                    ids(n)
                },
            );
            assert(next.contains(new));
            assert(dns_provider::record_key(new) == k);
            assert forall|x: (Seq<char>, DnsRecordType)|
                a.dom().contains(x) || now.contains(x) implies #[trigger] has_key(next, x) by {
                if x != k {
                    assert(has_key(zone, x));
                    let r = choose|r: DnsRecordView| #[trigger]
                        zone.contains(r) && dns_provider::record_key(r) == x;
                    assert(next.contains(r));
                }
            }
            assert(upserted(next, now, d, a));
        },
        None => {},
    }
}

proof fn lemma_delete_step(
    zone: Set<DnsRecordView>,
    gone: Seq<(Seq<char>, DnsRecordType)>,
    k: (Seq<char>, DnsRecordType),
    d: Map<(Seq<char>, DnsRecordType), DnsRecordView>,
    a: Map<(Seq<char>, DnsRecordType), DnsRecordView>,
    id: Seq<char>,
)
    requires
        pruned(zone, gone, d, a),
        !gone.contains(k),
        a.dom().contains(k),
    ensures
        match diff::record_delete(k, d, a) {
            Some(change) => pruned(record_applied(zone, change, id), gone.push(k), d, a),
            None => pruned(zone, gone.push(k), d, a),
        },
{
    let now = gone.push(k);
    assert forall|x: (Seq<char>, DnsRecordType)| now.contains(x) <==> gone.contains(x) || x
        == k by {
        if gone.contains(x) {
            let i = choose|i: int| 0 <= i < gone.len() && gone[i] == x;
            assert(now[i] == x);
        }
        assert(now[gone.len() as int] == k);
    }
    if !d.dom().contains(k) {
        assert(has_key(zone, k));
        let held = choose|r: DnsRecordView| #[trigger]
            zone.contains(r) && dns_provider::record_key(r) == k;
        assert(held == a[k]);
        let change = diff::record_delete(k, d, a)->0;
        let next = record_applied(zone, change, id);
        assert forall|x: (Seq<char>, DnsRecordType)|
            d.dom().contains(x) || (a.dom().contains(x) && !now.contains(x)) implies
            #[trigger] has_key(next, x) by {
            assert(has_key(zone, x));
            let r = choose|r: DnsRecordView| #[trigger]
                zone.contains(r) && dns_provider::record_key(r) == x;
            assert(next.contains(r));
        }
    }
}

/// After the changes have been applied to the records, the zone holds one record
/// for each desired key, which says what is desired, and no other. Nothing is
/// left to change, in whatever order the provider lists the records. The records
/// at the start have ids, and no two of them share an id or a key.
pub proof fn law_dns_changes_converge(
    desired: Seq<DnsRecordView>,
    actual: Seq<DnsRecordView>,
    ids: spec_fn(int) -> Seq<char>,
    listed: Seq<DnsRecordView>,
)
    requires
        sound_zone(actual.to_set()),
        fresh_record_ids(actual.to_set(), ids),
        listed.to_set() == records_applied(
            actual.to_set(),
            diff::dns_diff(desired, actual),
            ids,
        ),
    ensures
        sound_zone(listed.to_set()),
        records_in_sync(desired, listed),
        forall|i: int|
            0 <= i < listed.len() ==> is_desired_record(desired, #[trigger] listed[i]),
        diff::dns_diff(desired, listed) == Seq::<DnsChangeView>::empty(),
{
    let d = diff::records_by_key(desired);
    let a = diff::records_by_key(actual);
    lemma_by_key(desired);
    lemma_by_key(actual);
    lemma_by_key(listed);
    order::law_ascending_lists::<DnsRecordKey>(d.dom());
    order::law_ascending_lists::<DnsRecordKey>(a.dom());
    let dkeys = order::ascending::<DnsRecordKey>(d.dom());
    let akeys = order::ascending::<DnsRecordKey>(a.dom());
    let upserts = dkeys.map_values(
        |k: (Seq<char>, DnsRecordType)| diff::record_upsert(k, d, a),
    );
    let deletes = akeys.map_values(
        |k: (Seq<char>, DnsRecordType)| diff::record_delete(k, d, a),
    );
    let start = actual.to_set();
    assert forall|r: DnsRecordView| #[trigger] start.contains(r) implies a.dom().contains(
        dns_provider::record_key(r),
    ) && r == a[dns_provider::record_key(r)] by {
        let i = choose|i: int| 0 <= i < actual.len() && actual[i] == r;
        assert(a.dom().contains(dns_provider::record_key(actual[i])));
        assert(start.contains(a[dns_provider::record_key(r)]));
    }
    assert forall|k: (Seq<char>, DnsRecordType)| a.dom().contains(k) implies #[trigger] has_key(
        start,
        k,
    ) by {
        assert(start.contains(a[k]));
    }
    assert forall|j: int| 0 <= j < dkeys.len() implies dns_provider::record_key(
        d[#[trigger] dkeys[j]],
    ) == dkeys[j] by {
        assert(dkeys.contains(dkeys[j]));
    }
    assert forall|j: int| 0 <= j < akeys.len() implies a.dom().contains(#[trigger] akeys[j]) by {
        assert(akeys.contains(akeys[j]));
    }
    assert(upserted(start, dkeys.take(0), d, a));
    lemma_upserts(start, dkeys, d, a, ids, dkeys.len() as int);
    assert(dkeys.take(dkeys.len() as int) =~= dkeys);
    assert(upserts.take(dkeys.len() as int) =~= upserts);
    let middle = records_applied(start, diff::somes(upserts), ids);
    assert(pruned(middle, akeys.take(0), d, a)) by {
        assert forall|k: (Seq<char>, DnsRecordType)|
            d.dom().contains(k) || a.dom().contains(k) implies #[trigger] has_key(middle, k) by {
            if d.dom().contains(k) {
                assert(dkeys.contains(k));
            }
        }
        assert forall|r: DnsRecordView| #[trigger] middle.contains(r) implies dkeys.contains(
            dns_provider::record_key(r),
        ) == d.dom().contains(dns_provider::record_key(r)) by {}
    }
    lemma_deletes(start, diff::somes(upserts), akeys, d, a, ids, akeys.len() as int);
    assert(akeys.take(akeys.len() as int) =~= akeys);
    assert(deletes.take(akeys.len() as int) =~= deletes);
    let end = listed.to_set();
    assert(pruned(end, akeys, d, a));
    let l = diff::records_by_key(listed);
    assert forall|k: (Seq<char>, DnsRecordType)| #[trigger] d.dom().contains(k) implies l.dom().contains(
        k,
    ) by {
        assert(has_key(end, k));
        let r = choose|r: DnsRecordView| #[trigger]
            end.contains(r) && dns_provider::record_key(r) == k;
        let i = choose|i: int| 0 <= i < listed.len() && listed[i] == r;
        assert(l.dom().contains(dns_provider::record_key(listed[i])));
    }
    assert forall|k: (Seq<char>, DnsRecordType)| #[trigger] l.dom().contains(k) implies d.dom().contains(
        k,
    ) && diff::same_record(d[k], l[k]) by {
        assert(end.contains(l[k]));
        if !d.dom().contains(k) {
            assert(a.dom().contains(k));
            assert(akeys.contains(k));
        }
    }
    assert(l.dom() =~= d.dom());
    assert forall|i: int| 0 <= i < listed.len() implies is_desired_record(
        desired,
        #[trigger] listed[i],
    ) by {
        assert(end.contains(listed[i]));
        assert(l.dom().contains(dns_provider::record_key(listed[i])));
    }
    law_records_in_sync_need_no_change(desired, listed);
}

proof fn lemma_upserts(
    start: Set<DnsRecordView>,
    keys: Seq<(Seq<char>, DnsRecordType)>,
    d: Map<(Seq<char>, DnsRecordType), DnsRecordView>,
    a: Map<(Seq<char>, DnsRecordType), DnsRecordView>,
    ids: spec_fn(int) -> Seq<char>,
    i: int,
)
    requires
        0 <= i <= keys.len(),
        order::is_ascending::<DnsRecordKey>(keys),
        forall|j: int| 0 <= j < keys.len() ==> dns_provider::record_key(d[#[trigger] keys[j]])
            == keys[j],
        fresh_record_ids(start, ids),
        upserted(start, keys.take(0), d, a),
    ensures
        ({
            let steps = keys.map_values(
                |k: (Seq<char>, DnsRecordType)| diff::record_upsert(k, d, a),
            );
            let zone = records_applied(start, diff::somes(steps.take(i)), ids);
            upserted(zone, keys.take(i), d, a) && ids_left(
                zone,
                ids,
                diff::somes(steps.take(i)).len() as int,
            )
        }),
    decreases i,
{
    let steps = keys.map_values(|k: (Seq<char>, DnsRecordType)| diff::record_upsert(k, d, a));
    if i == 0 {
        assert(steps.take(0) =~= Seq::<Option<DnsChangeView>>::empty());
    } else {
        let k = keys[i - 1];
        let done = keys.take(i - 1);
        lemma_upserts(start, keys, d, a, ids, i - 1);
        let changes = diff::somes(steps.take(i - 1));
        let zone = records_applied(start, changes, ids);
        if done.contains(k) {
            let j = choose|j: int| 0 <= j < done.len() && done[j] == k;
            assert(<DnsRecordKey as order::MapKey>::before(keys[j], keys[i - 1]));
            <DnsRecordKey as order::MapKey>::order_is_total(k, k, k);
        }
        lemma_upsert_step(zone, done, k, d, a, ids, changes.len() as int);
        assert(done.push(k) =~= keys.take(i));
        assert(steps.take(i).drop_last() =~= steps.take(i - 1));
        assert(steps[i - 1] == diff::record_upsert(k, d, a));
        if steps[i - 1] is Some {
            assert(changes.push(steps[i - 1]->0).drop_last() =~= changes);
        }
    }
}

proof fn lemma_deletes(
    start: Set<DnsRecordView>,
    before: Seq<DnsChangeView>,
    keys: Seq<(Seq<char>, DnsRecordType)>,
    d: Map<(Seq<char>, DnsRecordType), DnsRecordView>,
    a: Map<(Seq<char>, DnsRecordType), DnsRecordView>,
    ids: spec_fn(int) -> Seq<char>,
    i: int,
)
    requires
        0 <= i <= keys.len(),
        order::is_ascending::<DnsRecordKey>(keys),
        forall|j: int| 0 <= j < keys.len() ==> a.dom().contains(#[trigger] keys[j]),
        pruned(records_applied(start, before, ids), keys.take(0), d, a),
    ensures
        ({
            let steps = keys.map_values(
                |k: (Seq<char>, DnsRecordType)| diff::record_delete(k, d, a),
            );
            pruned(
                records_applied(start, before + diff::somes(steps.take(i)), ids),
                keys.take(i),
                d,
                a,
            )
        }),
    decreases i,
{
    let steps = keys.map_values(|k: (Seq<char>, DnsRecordType)| diff::record_delete(k, d, a));
    if i == 0 {
        assert(steps.take(0) =~= Seq::<Option<DnsChangeView>>::empty());
        assert(before + diff::somes(steps.take(0)) =~= before);
    } else {
        let k = keys[i - 1];
        let gone = keys.take(i - 1);
        lemma_deletes(start, before, keys, d, a, ids, i - 1);
        let changes = before + diff::somes(steps.take(i - 1));
        let zone = records_applied(start, changes, ids);
        if gone.contains(k) {
            let j = choose|j: int| 0 <= j < gone.len() && gone[j] == k;
            assert(<DnsRecordKey as order::MapKey>::before(keys[j], keys[i - 1]));
            <DnsRecordKey as order::MapKey>::order_is_total(k, k, k);
        }
        lemma_delete_step(zone, gone, k, d, a, ids(changes.len() as int));
        assert(gone.push(k) =~= keys.take(i));
        assert(steps.take(i).drop_last() =~= steps.take(i - 1));
        assert(steps[i - 1] == diff::record_delete(k, d, a));
        if steps[i - 1] is Some {
            let change = steps[i - 1]->0;
            assert(before + diff::somes(steps.take(i)) =~= changes.push(change));
            assert(changes.push(change).drop_last() =~= changes);
        }
    }
}

/// Whether a record of the list has the id and the key.
pub open spec fn listed_under(
    records: Seq<DnsRecordView>,
    id: Seq<char>,
    key: (Seq<char>, DnsRecordType),
) -> bool {
    exists|i: int|
        0 <= i < records.len() && (#[trigger] records[i]).id == Some(id)
            && dns_provider::record_key(records[i]) == key
}

/// Every change creates a desired record, updates to a desired record the
/// record of that key, or deletes a record of a key that nobody desires. No
/// other record is touched.
pub proof fn law_dns_changes_touch_listed_records_only(
    desired: Seq<DnsRecordView>,
    actual: Seq<DnsRecordView>,
    i: int,
)
    requires
        0 <= i < diff::dns_diff(desired, actual).len(),
    ensures
        match diff::dns_diff(desired, actual)[i] {
            DnsChangeView::Create(record) => desired.contains(record)
                && !diff::records_by_key(actual).dom().contains(dns_provider::record_key(record)),
            DnsChangeView::Update { id, record } => desired.contains(record) && listed_under(
                actual,
                id,
                dns_provider::record_key(record),
            ),
            DnsChangeView::Delete { id } => exists|k: (Seq<char>, DnsRecordType)| #[trigger]
                listed_under(actual, id, k) && !diff::records_by_key(desired).dom().contains(k),
        },
{
    let d = diff::records_by_key(desired);
    let a = diff::records_by_key(actual);
    lemma_by_key(desired);
    lemma_by_key(actual);
    order::law_ascending_lists::<DnsRecordKey>(d.dom());
    order::law_ascending_lists::<DnsRecordKey>(a.dom());
    let dkeys = order::ascending::<DnsRecordKey>(d.dom());
    let akeys = order::ascending::<DnsRecordKey>(a.dom());
    let upserts = dkeys.map_values(
        |k: (Seq<char>, DnsRecordType)| diff::record_upsert(k, d, a),
    );
    let deletes = akeys.map_values(
        |k: (Seq<char>, DnsRecordType)| diff::record_delete(k, d, a),
    );
    let change = diff::dns_diff(desired, actual)[i];
    assert(diff::dns_diff(desired, actual) == diff::somes(upserts) + diff::somes(deletes));
    let n = diff::somes(upserts).len();
    if i < n {
        diff::lemma_some_is_listed(upserts, i);
        let j = choose|j: int| 0 <= j < upserts.len() && upserts[j] == Some(change);
        assert(dkeys.contains(dkeys[j]));
        assert(upserts[j] == diff::record_upsert(dkeys[j], d, a));
        lemma_listed_under(actual, dkeys[j]);
        assert(d.dom().contains(dkeys[j]));
    } else {
        diff::lemma_some_is_listed(deletes, i - n);
        let j = choose|j: int| 0 <= j < deletes.len() && deletes[j] == Some(change);
        assert(akeys.contains(akeys[j]));
        assert(deletes[j] == diff::record_delete(akeys[j], d, a));
        lemma_listed_under(actual, akeys[j]);
        assert(listed_under(actual, change->Delete_id, akeys[j]));
    }
}

proof fn lemma_listed_under(records: Seq<DnsRecordView>, k: (Seq<char>, DnsRecordType))
    ensures
        diff::records_by_key(records).dom().contains(k) && diff::records_by_key(records)[k].id
            is Some ==> listed_under(records, diff::records_by_key(records)[k].id->0, k),
{
    lemma_by_key(records);
    if diff::records_by_key(records).dom().contains(k) {
        let r = diff::records_by_key(records)[k];
        let i = choose|i: int| 0 <= i < records.len() && records[i] == r;
        assert(records[i].id == r.id);
    }
}

proof fn lemma_last_record_counts(records: Seq<DnsRecordView>, i: int)
    requires
        0 <= i < records.len(),
        forall|j: int|
            i < j < records.len() ==> dns_provider::record_key(#[trigger] records[j])
                != dns_provider::record_key(records[i]),
    ensures
        diff::records_by_key(records).dom().contains(dns_provider::record_key(records[i])),
        diff::records_by_key(records)[dns_provider::record_key(records[i])] == records[i],
    decreases records.len(),
{
    if i < records.len() - 1 {
        let before = records.drop_last();
        assert(records[records.len() - 1] == records.last());
        assert forall|j: int| i < j < before.len() implies dns_provider::record_key(
            #[trigger] before[j],
        ) != dns_provider::record_key(before[i]) by {
            assert(before[j] == records[j]);
        }
        lemma_last_record_counts(before, i);
    }
}

/// After the changes have been applied, every record of the zone equals a desired
/// one in name, kind, value and time to live.
pub proof fn law_applied_record_equals_a_desired_one(
    desired: Seq<DnsRecordView>,
    actual: Seq<DnsRecordView>,
    ids: spec_fn(int) -> Seq<char>,
    listed: Seq<DnsRecordView>,
    j: int,
)
    requires
        sound_zone(actual.to_set()),
        fresh_record_ids(actual.to_set(), ids),
        listed.to_set() == records_applied(
            actual.to_set(),
            diff::dns_diff(desired, actual),
            ids,
        ),
        0 <= j < listed.len(),
    ensures
        exists|i: int|
            0 <= i < desired.len() && equal_but_for_the_id(#[trigger] desired[i], listed[j]),
{
    law_dns_changes_converge(desired, actual, ids, listed);
    lemma_by_key(desired);
    assert(is_desired_record(desired, listed[j]));
    let r = diff::records_by_key(desired)[dns_provider::record_key(listed[j])];
    let i = choose|i: int| 0 <= i < desired.len() && desired[i] == r;
    diff::law_same_record_is_equal_but_for_the_id(desired[i], listed[j]);
    assert(equal_but_for_the_id(desired[i], listed[j]));
}

/// After the changes have been applied, every desired record has its equal in the
/// zone, in name, kind, value and time to live, unless a later desired record has
/// its name and kind.
pub proof fn law_desired_record_has_its_equal(
    desired: Seq<DnsRecordView>,
    actual: Seq<DnsRecordView>,
    ids: spec_fn(int) -> Seq<char>,
    listed: Seq<DnsRecordView>,
    i: int,
)
    requires
        sound_zone(actual.to_set()),
        fresh_record_ids(actual.to_set(), ids),
        listed.to_set() == records_applied(
            actual.to_set(),
            diff::dns_diff(desired, actual),
            ids,
        ),
        0 <= i < desired.len(),
        forall|k: int|
            i < k < desired.len() ==> (#[trigger] desired[k]).name != desired[i].name
                || desired[k].record_type != desired[i].record_type,
    ensures
        exists|j: int|
            0 <= j < listed.len() && equal_but_for_the_id(desired[i], #[trigger] listed[j]),
{
    law_dns_changes_converge(desired, actual, ids, listed);
    lemma_by_key(listed);
    lemma_last_record_counts(desired, i);
    let key = dns_provider::record_key(desired[i]);
    let l = diff::records_by_key(listed);
    assert(diff::records_by_key(desired).dom().contains(key));
    assert(l.dom().contains(key));
    let j = choose|j: int| 0 <= j < listed.len() && listed[j] == l[key];
    diff::law_same_record_is_equal_but_for_the_id(desired[i], listed[j]);
    assert(equal_but_for_the_id(desired[i], listed[j]));
}

/// Whether two records are equal in name, kind, value and time to live.
pub open spec fn equal_but_for_the_id(a: DnsRecordView, b: DnsRecordView) -> bool {
    DnsRecordView { id: None, ..a } == (DnsRecordView { id: None, ..b })
}

} // verus!
