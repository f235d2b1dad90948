//! What the changes come to for single resources, for resources that share a key,
//! and in which order they stand.

use crate::dns_provider::{DnsChangeView, DnsRecordKey, DnsRecordType, DnsRecordView};
use crate::order::MapKey;
use crate::proxy_provider::{ProxyChangeView, ProxyHostView};
use crate::reconciler::{diff, dns_laws, proxy_laws};
use crate::{dns_provider, order};
use vstd::prelude::*;

verus! {

proof fn lemma_no_keys<K: MapKey>()
    ensures
        order::ascending::<K>(Set::empty()) == Seq::<K::Model>::empty(),
{
    let none = Seq::<K::Model>::empty();
    assert(order::lists_ascending::<K>(none, Set::empty()));
    order::law_ascending_is_unique::<K>(none, Set::empty());
}

/// A desired record that is missing is created. An actual record that is not
/// desired is deleted, unless it has no id, and one without an id is not updated
/// either.
pub proof fn law_missing_record_is_created_and_other_is_deleted(
    record: DnsRecordView,
    held: DnsRecordView,
)
    ensures
        diff::dns_diff(seq![record], Seq::empty()) == seq![DnsChangeView::Create(record)],
        held.id is Some ==> diff::dns_diff(Seq::empty(), seq![held]) == seq![
            (DnsChangeView::Delete { id: held.id->0 }),
        ],
        held.id is None ==> diff::dns_diff(Seq::empty(), seq![held]) == Seq::<
            DnsChangeView,
        >::empty(),
        held.id is None && held.name == record.name && held.record_type == record.record_type
            ==> diff::dns_diff(seq![record], seq![held]) == Seq::<DnsChangeView>::empty(),
{
    reveal_with_fuel(diff::records_by_key, 2);
    let none = Seq::<DnsRecordView>::empty();
    assert(seq![record].drop_last() =~= none);
    assert(seq![held].drop_last() =~= none);
    let d = diff::records_by_key(seq![record]);
    let a = diff::records_by_key(seq![held]);
    let e = diff::records_by_key(none);
    let (k, l) = ((record.name, record.record_type), (held.name, held.record_type));
    assert(d.dom() =~= set![k]);
    assert(a.dom() =~= set![l]);
    assert(e.dom() =~= Set::empty());
    diff::lemma_one_key::<DnsRecordKey>(k);
    diff::lemma_one_key::<DnsRecordKey>(l);
    lemma_no_keys::<DnsRecordKey>();
    let no_steps = Seq::<Option<DnsChangeView>>::empty();
    assert(diff::somes(no_steps) =~= Seq::empty());
    diff::lemma_one_step(diff::record_upsert(k, d, e));
    diff::lemma_one_step(diff::record_delete(l, e, a));
    diff::lemma_one_step(diff::record_upsert(k, d, a));
    diff::lemma_one_step(diff::record_delete(l, d, a));
    assert(seq![k].map_values(|k: (Seq<char>, DnsRecordType)| diff::record_upsert(k, d, e))
        =~= seq![diff::record_upsert(k, d, e)]);
    assert(seq![l].map_values(|k: (Seq<char>, DnsRecordType)| diff::record_delete(k, e, a))
        =~= seq![diff::record_delete(l, e, a)]);
    assert(seq![k].map_values(|k: (Seq<char>, DnsRecordType)| diff::record_upsert(k, d, a))
        =~= seq![diff::record_upsert(k, d, a)]);
    assert(seq![l].map_values(|k: (Seq<char>, DnsRecordType)| diff::record_delete(k, d, a))
        =~= seq![diff::record_delete(l, d, a)]);
    let no_keys = Seq::<(Seq<char>, DnsRecordType)>::empty();
    assert(no_keys.map_values(|k: (Seq<char>, DnsRecordType)| diff::record_delete(k, d, e))
        =~= no_steps);
    assert(no_keys.map_values(|k: (Seq<char>, DnsRecordType)| diff::record_upsert(k, e, a))
        =~= no_steps);
    assert(diff::dns_diff(seq![record], none) =~= diff::somes(
        seq![diff::record_upsert(k, d, e)],
    ));
    assert(diff::dns_diff(none, seq![held]) =~= diff::somes(seq![diff::record_delete(l, e, a)]));
    assert(diff::dns_diff(seq![record], seq![held]) =~= diff::somes(
        seq![diff::record_upsert(k, d, a)],
    ) + diff::somes(seq![diff::record_delete(l, d, a)]));
}

/// A desired host that is missing is created. An actual host that is not desired
/// is deleted, unless it has no id, and one without an id is not updated either.
pub proof fn law_missing_host_is_created_and_other_is_deleted(
    host: ProxyHostView,
    held: ProxyHostView,
)
    requires
        host.domains.len() > 0,
        held.domains.len() > 0,
    ensures
        diff::proxy_diff(seq![host], Seq::empty()) == seq![ProxyChangeView::Create(host)],
        held.id is Some ==> diff::proxy_diff(Seq::empty(), seq![held]) == seq![
            (ProxyChangeView::Delete { id: held.id->0 }),
        ],
        held.id is None ==> diff::proxy_diff(Seq::empty(), seq![held]) == Seq::<
            ProxyChangeView,
        >::empty(),
        held.id is None && held.domains[0] == host.domains[0] ==> diff::proxy_diff(
            seq![host],
            seq![held],
        ) == Seq::<ProxyChangeView>::empty(),
{
    reveal_with_fuel(diff::hosts_by_domain, 2);
    let none = Seq::<ProxyHostView>::empty();
    assert(seq![host].drop_last() =~= none);
    assert(seq![held].drop_last() =~= none);
    let d = diff::hosts_by_domain(seq![host]);
    let a = diff::hosts_by_domain(seq![held]);
    let e = diff::hosts_by_domain(none);
    let (k, l) = (host.domains[0], held.domains[0]);
    assert(d.dom() =~= set![k]);
    assert(a.dom() =~= set![l]);
    assert(e.dom() =~= Set::empty());
    diff::lemma_one_key::<String>(k);
    diff::lemma_one_key::<String>(l);
    lemma_no_keys::<String>();
    let no_steps = Seq::<Option<ProxyChangeView>>::empty();
    assert(diff::somes(no_steps) =~= Seq::empty());
    diff::lemma_one_step(diff::host_upsert(k, d, e));
    diff::lemma_one_step(diff::host_delete(l, e, a));
    diff::lemma_one_step(diff::host_upsert(k, d, a));
    diff::lemma_one_step(diff::host_delete(l, d, a));
    assert(seq![k].map_values(|k: Seq<char>| diff::host_upsert(k, d, e)) =~= seq![
        diff::host_upsert(k, d, e),
    ]);
    assert(seq![l].map_values(|k: Seq<char>| diff::host_delete(k, e, a)) =~= seq![
        diff::host_delete(l, e, a),
    ]);
    assert(seq![k].map_values(|k: Seq<char>| diff::host_upsert(k, d, a)) =~= seq![
        diff::host_upsert(k, d, a),
    ]);
    assert(seq![l].map_values(|k: Seq<char>| diff::host_delete(k, d, a)) =~= seq![
        diff::host_delete(l, d, a),
    ]);
    let no_keys = Seq::<Seq<char>>::empty();
    assert(no_keys.map_values(|k: Seq<char>| diff::host_delete(k, d, e)) =~= no_steps);
    assert(no_keys.map_values(|k: Seq<char>| diff::host_upsert(k, e, a)) =~= no_steps);
    assert(diff::proxy_diff(seq![host], none) =~= diff::somes(seq![diff::host_upsert(k, d, e)]));
    assert(diff::proxy_diff(none, seq![held]) =~= diff::somes(seq![diff::host_delete(l, e, a)]));
    assert(diff::proxy_diff(seq![host], seq![held]) =~= diff::somes(
        seq![diff::host_upsert(k, d, a)],
    ) + diff::somes(seq![diff::host_delete(l, d, a)]));
}

proof fn lemma_without_record(records: Seq<DnsRecordView>, i: int)
    requires
        0 <= i < records.len(),
    ensures
        ({
            let all = diff::records_by_key(records);
            let less = diff::records_by_key(records.remove(i));
            let key = (records[i].name, records[i].record_type);
            all.remove(key) == less.remove(key)
        }),
    decreases records.len(),
{
    let key = (records[i].name, records[i].record_type);
    let all = diff::records_by_key(records);
    let less = diff::records_by_key(records.remove(i));
    if i == records.len() - 1 {
        assert(records.remove(i) =~= records.drop_last());
        assert(all.remove(key) =~= less.remove(key));
    } else {
        let before = records.drop_last();
        assert(records.remove(i).drop_last() =~= before.remove(i));
        assert(records.remove(i).last() == records.last());
        lemma_without_record(before, i);
        let a = diff::records_by_key(before);
        let b = diff::records_by_key(before.remove(i));
        assert forall|k: (Seq<char>, DnsRecordType)|
            #![trigger a.dom().contains(k)]
            k != key implies a.dom().contains(k) == b.dom().contains(k) && (a.dom().contains(k)
            ==> a[k] == b[k]) by {
            assert(a.remove(key).dom().contains(k) == b.remove(key).dom().contains(k));
            assert(a.dom().contains(k) ==> a.remove(key)[k] == b.remove(key)[k]);
        }
        let last = dns_provider::record_key(records.last());
        assert(all == a.insert(last, records.last()));
        assert(less == b.insert(last, records.last()));
        assert forall|k: (Seq<char>, DnsRecordType)|
            all.remove(key).dom().contains(k) <==> less.remove(key).dom().contains(k) by {
            assert(k != key ==> a.dom().contains(k) == b.dom().contains(k));
        }
        assert forall|k: (Seq<char>, DnsRecordType)| #[trigger]
            all.remove(key).dom().contains(k) implies all.remove(key)[k] == less.remove(key)[k] by {
            assert(k != last ==> a.dom().contains(k) && a[k] == b[k]);
        }
        assert(all.remove(key) =~= less.remove(key));
    }
}

/// Of several records with the same name and kind the last counts: an earlier one
/// makes no difference, neither among the desired nor among the actual ones.
pub proof fn law_last_record_of_a_key_counts(
    records: Seq<DnsRecordView>,
    others: Seq<DnsRecordView>,
    i: int,
    j: int,
)
    requires
        0 <= i < j < records.len(),
        records[i].name == records[j].name,
        records[i].record_type == records[j].record_type,
    ensures
        diff::dns_diff(records, others) == diff::dns_diff(records.remove(i), others),
        diff::dns_diff(others, records) == diff::dns_diff(others, records.remove(i)),
{
    lemma_later_record_counts(records, i, j);
}

proof fn lemma_later_record_counts(records: Seq<DnsRecordView>, i: int, j: int)
    requires
        0 <= i < j < records.len(),
        records[i].name == records[j].name,
        records[i].record_type == records[j].record_type,
    ensures
        diff::records_by_key(records) == diff::records_by_key(records.remove(i)),
    decreases records.len(),
{
    let all = diff::records_by_key(records);
    let less = diff::records_by_key(records.remove(i));
    let before = records.drop_last();
    assert(records.remove(i).drop_last() =~= before.remove(i));
    assert(records.remove(i).last() == records.last());
    if j == records.len() - 1 {
        let key = (records[i].name, records[i].record_type);
        lemma_without_record(before, i);
        let a = diff::records_by_key(before);
        let b = diff::records_by_key(before.remove(i));
        assert(a.insert(key, records.last()) =~= a.remove(key).insert(key, records.last()));
        assert(b.insert(key, records.last()) =~= b.remove(key).insert(key, records.last()));
        assert(all =~= less);
    } else {
        lemma_later_record_counts(before, i, j);
    }
}

proof fn lemma_without_host(hosts: Seq<ProxyHostView>, i: int)
    requires
        0 <= i < hosts.len(),
        hosts[i].domains.len() > 0,
    ensures
        ({
            let all = diff::hosts_by_domain(hosts);
            let less = diff::hosts_by_domain(hosts.remove(i));
            all.remove(hosts[i].domains[0]) == less.remove(hosts[i].domains[0])
        }),
    decreases hosts.len(),
{
    let key = hosts[i].domains[0];
    let all = diff::hosts_by_domain(hosts);
    let less = diff::hosts_by_domain(hosts.remove(i));
    if i == hosts.len() - 1 {
        assert(hosts.remove(i) =~= hosts.drop_last());
        assert(all.remove(key) =~= less.remove(key));
    } else {
        let before = hosts.drop_last();
        assert(hosts.remove(i).drop_last() =~= before.remove(i));
        assert(hosts.remove(i).last() == hosts.last());
        lemma_without_host(before, i);
        let a = diff::hosts_by_domain(before);
        let b = diff::hosts_by_domain(before.remove(i));
        assert forall|k: Seq<char>|
            #![trigger a.dom().contains(k)]
            k != key implies a.dom().contains(k) == b.dom().contains(k)
            && (a.dom().contains(k) ==> a[k] == b[k]) by {
            assert(a.remove(key).dom().contains(k) == b.remove(key).dom().contains(k));
            assert(a.dom().contains(k) ==> a.remove(key)[k] == b.remove(key)[k]);
        }
        if hosts.last().domains.len() > 0 {
            let last = hosts.last().domains[0];
            assert(all == a.insert(last, hosts.last()));
            assert(less == b.insert(last, hosts.last()));
            assert forall|k: Seq<char>|
                all.remove(key).dom().contains(k) <==> less.remove(key).dom().contains(k) by {
                assert(k != key ==> a.dom().contains(k) == b.dom().contains(k));
            }
            assert forall|k: Seq<char>| #[trigger]
                all.remove(key).dom().contains(k) implies all.remove(key)[k]
                == less.remove(key)[k] by {
                assert(k != last ==> a.dom().contains(k) && a[k] == b[k]);
            }
        }
        assert(all.remove(key) =~= less.remove(key));
    }
}

proof fn lemma_later_host_counts(hosts: Seq<ProxyHostView>, i: int, j: int)
    requires
        0 <= i < j < hosts.len(),
        hosts[i].domains.len() > 0,
        hosts[j].domains.len() > 0,
        hosts[i].domains[0] == hosts[j].domains[0],
    ensures
        diff::hosts_by_domain(hosts) == diff::hosts_by_domain(hosts.remove(i)),
    decreases hosts.len(),
{
    let all = diff::hosts_by_domain(hosts);
    let less = diff::hosts_by_domain(hosts.remove(i));
    let before = hosts.drop_last();
    assert(hosts.remove(i).drop_last() =~= before.remove(i));
    assert(hosts.remove(i).last() == hosts.last());
    if j == hosts.len() - 1 {
        let key = hosts[i].domains[0];
        lemma_without_host(before, i);
        let a = diff::hosts_by_domain(before);
        let b = diff::hosts_by_domain(before.remove(i));
        assert(a.insert(key, hosts.last()) =~= a.remove(key).insert(key, hosts.last()));
        assert(b.insert(key, hosts.last()) =~= b.remove(key).insert(key, hosts.last()));
        assert(all =~= less);
    } else {
        lemma_later_host_counts(before, i, j);
    }
}

proof fn lemma_host_without_domain(hosts: Seq<ProxyHostView>, i: int)
    requires
        0 <= i < hosts.len(),
        hosts[i].domains.len() == 0,
    ensures
        diff::hosts_by_domain(hosts) == diff::hosts_by_domain(hosts.remove(i)),
    decreases hosts.len(),
{
    if i == hosts.len() - 1 {
        assert(hosts.remove(i) =~= hosts.drop_last());
    } else {
        assert(hosts.remove(i).drop_last() =~= hosts.drop_last().remove(i));
        assert(hosts.remove(i).last() == hosts.last());
        lemma_host_without_domain(hosts.drop_last(), i);
    }
}

/// Of several hosts with the same first domain the last counts, and a host without
/// a domain does not count at all: they make no difference, neither among the
/// desired nor among the actual ones.
pub proof fn law_last_host_of_a_domain_counts(
    hosts: Seq<ProxyHostView>,
    others: Seq<ProxyHostView>,
    i: int,
    j: int,
)
    requires
        0 <= i < hosts.len(),
        hosts[i].domains.len() == 0 || (i < j < hosts.len() && hosts[j].domains.len() > 0
            && hosts[i].domains[0] == hosts[j].domains[0]),
    ensures
        diff::proxy_diff(hosts, others) == diff::proxy_diff(hosts.remove(i), others),
        diff::proxy_diff(others, hosts) == diff::proxy_diff(others, hosts.remove(i)),
{
    if hosts[i].domains.len() == 0 {
        lemma_host_without_domain(hosts, i);
    } else {
        lemma_later_host_counts(hosts, i, j);
    }
}

proof fn lemma_somes_keep_the_order<T>(list: Seq<Option<T>>, p: int, q: int) -> (places: (int, int))
    requires
        0 <= p < q < diff::somes(list).len(),
    ensures
        0 <= places.0 < places.1 < list.len(),
        list[places.0] == Some(diff::somes(list)[p]),
        list[places.1] == Some(diff::somes(list)[q]),
    decreases list.len(),
{
    let before = list.drop_last();
    assert(list[list.len() - 1] == list.last());
    if q < diff::somes(before).len() {
        let places = lemma_somes_keep_the_order(before, p, q);
        assert(list[places.0] == before[places.0]);
        assert(list[places.1] == before[places.1]);
        places
    } else {
        diff::lemma_some_is_listed(before, p);
        let a = choose|a: int| 0 <= a < before.len() && before[a] == Some(diff::somes(before)[p]);
        assert(list[a] == before[a]);
        (a, list.len() - 1)
    }
}

/// The record that a change brings in, if it brings one in.
pub open spec fn brought_record(change: DnsChangeView) -> Option<DnsRecordView> {
    match change {
        DnsChangeView::Create(record) => Some(record),
        DnsChangeView::Update { record, .. } => Some(record),
        DnsChangeView::Delete { .. } => None,
    }
}

/// The host that a change brings in, if it brings one in.
pub open spec fn brought_host(change: ProxyChangeView) -> Option<ProxyHostView> {
    match change {
        ProxyChangeView::Create(host) => Some(host),
        ProxyChangeView::Update { host, .. } => Some(host),
        ProxyChangeView::Delete { .. } => None,
    }
}

/// Records are created and updated before any is deleted, in the order of their
/// names and kinds.
pub proof fn law_record_changes_are_ordered(
    desired: Seq<DnsRecordView>,
    actual: Seq<DnsRecordView>,
    p: int,
    q: int,
)
    requires
        0 <= p < q < diff::dns_diff(desired, actual).len(),
        !(diff::dns_diff(desired, actual)[q] is Delete),
    ensures
        ({
            let first = brought_record(diff::dns_diff(desired, actual)[p]);
            let second = brought_record(diff::dns_diff(desired, actual)[q]);
            &&& first is Some
            &&& second is Some
            &&& <DnsRecordKey as MapKey>::before(
                (first->0.name, first->0.record_type),
                (second->0.name, second->0.record_type),
            )
        }),
{
    let d = diff::records_by_key(desired);
    let a = diff::records_by_key(actual);
    dns_laws::lemma_by_key(desired);
    dns_laws::lemma_by_key(actual);
    let keys = order::ascending::<DnsRecordKey>(d.dom());
    order::law_ascending_lists::<DnsRecordKey>(d.dom());
    let upserts = keys.map_values(|k: (Seq<char>, DnsRecordType)| diff::record_upsert(k, d, a));
    let deletes = order::ascending::<DnsRecordKey>(a.dom()).map_values(
        |k: (Seq<char>, DnsRecordType)| diff::record_delete(k, d, a),
    );
    let changes = diff::dns_diff(desired, actual);
    let n = diff::somes(upserts).len();
    if q >= n {
        diff::lemma_some_is_listed(deletes, q - n);
        assert(changes[q] == diff::somes(deletes)[q - n]);
        let c = choose|c: int| 0 <= c < deletes.len() && deletes[c] == Some(changes[q]);
        assert(changes[q] is Delete);
    }
    let (x, y) = lemma_somes_keep_the_order(upserts, p, q);
    assert(keys.contains(keys[x]) && keys.contains(keys[y]));
    assert(d.dom().contains(keys[x]) && d.dom().contains(keys[y]));
    assert(<DnsRecordKey as MapKey>::before(keys[x], keys[y]));
    assert(dns_provider::record_key(d[keys[x]]) == keys[x]);
    assert(dns_provider::record_key(d[keys[y]]) == keys[y]);
}

/// Hosts are created and updated before any is deleted, in the order of their
/// first domains.
pub proof fn law_host_changes_are_ordered(
    desired: Seq<ProxyHostView>,
    actual: Seq<ProxyHostView>,
    p: int,
    q: int,
)
    requires
        0 <= p < q < diff::proxy_diff(desired, actual).len(),
        !(diff::proxy_diff(desired, actual)[q] is Delete),
    ensures
        ({
            let first = brought_host(diff::proxy_diff(desired, actual)[p]);
            let second = brought_host(diff::proxy_diff(desired, actual)[q]);
            &&& first is Some && first->0.domains.len() > 0
            &&& second is Some && second->0.domains.len() > 0
            &&& order::text_before(first->0.domains[0], second->0.domains[0])
        }),
{
    let d = diff::hosts_by_domain(desired);
    let a = diff::hosts_by_domain(actual);
    proxy_laws::lemma_by_domain(desired);
    proxy_laws::lemma_by_domain(actual);
    let keys = order::ascending::<String>(d.dom());
    order::law_ascending_lists::<String>(d.dom());
    let upserts = keys.map_values(|k: Seq<char>| diff::host_upsert(k, d, a));
    let deletes = order::ascending::<String>(a.dom()).map_values(
        |k: Seq<char>| diff::host_delete(k, d, a),
    );
    let changes = diff::proxy_diff(desired, actual);
    let n = diff::somes(upserts).len();
    if q >= n {
        diff::lemma_some_is_listed(deletes, q - n);
        assert(changes[q] == diff::somes(deletes)[q - n]);
        let c = choose|c: int| 0 <= c < deletes.len() && deletes[c] == Some(changes[q]);
        assert(changes[q] is Delete);
    }
    let (x, y) = lemma_somes_keep_the_order(upserts, p, q);
    assert(keys.contains(keys[x]) && keys.contains(keys[y]));
    assert(d.dom().contains(keys[x]) && d.dom().contains(keys[y]));
    assert(<String as MapKey>::before(keys[x], keys[y]));
    assert(proxy_laws::first_domain(d[keys[x]]) == Some(keys[x]));
    assert(proxy_laws::first_domain(d[keys[y]]) == Some(keys[y]));
}

} // verus!
