//! The changes that lead from the actual state to the desired one.

use crate::cert_provider::{
    Certificate, CertificateChange, CertificateChangeView, CertificateId, CertificateView,
};
use crate::dns_provider::{
    DnsChange, DnsChangeView, DnsRecord, DnsRecordKey, DnsRecordType, DnsRecordView,
};
use crate::order::MapKey;
use crate::proxy_provider::{ProxyChange, ProxyChangeView, ProxyHost, ProxyHostView};
use crate::sorted_map::SortedMap;
use crate::reconciler::desired;
use crate::{cert_provider, dns_provider, order, proxy_provider, text};
use vstd::prelude::*;

verus! {

/// The values that are there, in order.
pub open spec fn somes<T>(list: Seq<Option<T>>) -> Seq<T>
    decreases list.len(),
{
    if list.len() == 0 {
        Seq::empty()
    } else {
        match list.last() {
            Some(value) => somes(list.drop_last()).push(value),
            None => somes(list.drop_last()),
        }
    }
}

/// The records by name and kind. Of several with the same key the last counts.
pub open spec fn records_by_key(records: Seq<DnsRecordView>) -> Map<
    (Seq<char>, DnsRecordType),
    DnsRecordView,
>
    decreases records.len(),
{
    if records.len() == 0 {
        Map::empty()
    } else {
        records_by_key(records.drop_last()).insert(
            dns_provider::record_key(records.last()),
            records.last(),
        )
    }
}

/// Whether two records say the same, whatever the provider calls them.
pub open spec fn same_record(left: DnsRecordView, right: DnsRecordView) -> bool {
    &&& left.name == right.name
    &&& left.record_type == right.record_type
    &&& left.value == right.value
    &&& left.ttl == right.ttl
}

/// The change that a desired record calls for: it is created where the key is
/// missing and updated where the actual record says something else.
pub open spec fn record_upsert(
    key: (Seq<char>, DnsRecordType),
    desired: Map<(Seq<char>, DnsRecordType), DnsRecordView>,
    actual: Map<(Seq<char>, DnsRecordType), DnsRecordView>,
) -> Option<DnsChangeView> {
    if !actual.dom().contains(key) {
        Some(DnsChangeView::Create(desired[key]))
    } else if same_record(desired[key], actual[key]) {
        None
    } else {
        match actual[key].id {
            Some(id) => Some(DnsChangeView::Update { id, record: desired[key] }),
            None => None,
        }
    }
}

/// The change that an actual record calls for: it is deleted where nobody
/// desires its key.
pub open spec fn record_delete(
    key: (Seq<char>, DnsRecordType),
    desired: Map<(Seq<char>, DnsRecordType), DnsRecordView>,
    actual: Map<(Seq<char>, DnsRecordType), DnsRecordView>,
) -> Option<DnsChangeView> {
    if desired.dom().contains(key) {
        None
    } else {
        match actual[key].id {
            Some(id) => Some(DnsChangeView::Delete { id }),
            None => None,
        }
    }
}

/// The changes to the records of a zone: those that the desired records call
/// for, then those that the actual ones do, both in the order of their keys.
pub open spec fn dns_diff(
    desired: Seq<DnsRecordView>,
    actual: Seq<DnsRecordView>,
) -> Seq<DnsChangeView> {
    let d = records_by_key(desired);
    let a = records_by_key(actual);
    somes(
        order::ascending::<DnsRecordKey>(d.dom()).map_values(
            |k: (Seq<char>, DnsRecordType)| record_upsert(k, d, a),
        ),
    ) + somes(
        order::ascending::<DnsRecordKey>(a.dom()).map_values(
            |k: (Seq<char>, DnsRecordType)| record_delete(k, d, a),
        ),
    )
}

/// Whether an index finds, for each key, the record that counts.
spec fn indexes_records(
    index: Map<(Seq<char>, DnsRecordType), usize>,
    records: Seq<DnsRecordView>,
) -> bool {
    &&& index.dom() == records_by_key(records).dom()
    &&& forall|k: (Seq<char>, DnsRecordType)| #[trigger]
        index.dom().contains(k) ==> index[k] < records.len() && records[index[k] as int]
            == records_by_key(records)[k]
}

/// The key of a record.
pub fn dns_record_key(record: &DnsRecord) -> (r: DnsRecordKey)
    ensures
        r.model() == dns_provider::record_key(record@),
{
    DnsRecordKey { name: record.name.clone(), record_type: record.record_type }
}

/// Whether two records say the same, whatever the provider calls them.
pub fn same_dns_record(left: &DnsRecord, right: &DnsRecord) -> (r: bool)
    ensures
        r == same_record(left@, right@),
{
    left.name == right.name && left.record_type == right.record_type && left.value == right.value
        && left.ttl == right.ttl
}

fn index_records(records: &[DnsRecord]) -> (r: SortedMap<DnsRecordKey, usize>)
    ensures
        indexes_records(r@, dns_provider::records_view(records@)),
{
    let ghost views = dns_provider::records_view(records@);
    let mut index: SortedMap<DnsRecordKey, usize> = SortedMap::new();
    let mut i: usize = 0;
    assert(index@.dom() =~= records_by_key(views.take(0)).dom());
    while i < records.len()
        invariant
            i <= records@.len(),
            views == dns_provider::records_view(records@),
            indexes_records(index@, views.take(i as int)),
        decreases records@.len() - i,
    {
        let ghost before = views.take(i as int);
        let ghost after = views.take(i + 1);
        assert(after.drop_last() =~= before);
        assert(after.last() == records@[i as int]@);
        index.insert(dns_record_key(&records[i]), i);
        assert(index@.dom() =~= records_by_key(after).dom());
        i = i + 1;
    }
    assert(views.take(i as int) =~= views);
    index
}

proof fn lemma_somes_step<T>(list: Seq<Option<T>>, i: int)
    requires
        0 <= i < list.len(),
    ensures
        somes(list.take(i + 1)) == match list[i] {
            Some(value) => somes(list.take(i)).push(value),
            None => somes(list.take(i)),
        },
{
    assert(list.take(i + 1).drop_last() =~= list.take(i));
}

/// Of a list without values none is there.
pub proof fn lemma_no_somes<T>(list: Seq<Option<T>>)
    requires
        forall|i: int| 0 <= i < list.len() ==> list[i] is None,
    ensures
        somes(list) == Seq::<T>::empty(),
    decreases list.len(),
{
    if list.len() > 0 {
        lemma_no_somes(list.drop_last());
    }
}

/// Each value that is there comes from the list.
pub proof fn lemma_some_is_listed<T>(list: Seq<Option<T>>, i: int)
    requires
        0 <= i < somes(list).len(),
    ensures
        list.contains(Some(somes(list)[i])),
    decreases list.len(),
{
    let before = list.drop_last();
    assert(list[list.len() - 1] == list.last());
    if i < somes(before).len() {
        lemma_some_is_listed(before, i);
        let j = choose|j: int| 0 <= j < before.len() && before[j] == Some(somes(before)[i]);
        assert(list[j] == Some(somes(list)[i]));
    }
}

/// The changes that lead from the actual records to the desired ones.
pub fn diff_dns_records(desired: &[DnsRecord], actual: &[DnsRecord]) -> (r: Vec<DnsChange>)
    ensures
        dns_provider::dns_changes_view(r@) == dns_diff(
            dns_provider::records_view(desired@),
            dns_provider::records_view(actual@),
        ),
{
    let desired_index = index_records(desired);
    let actual_index = index_records(actual);
    let ghost d = records_by_key(dns_provider::records_view(desired@));
    let ghost a = records_by_key(dns_provider::records_view(actual@));
    let ghost upserts = order::ascending::<DnsRecordKey>(d.dom()).map_values(
        |k: (Seq<char>, DnsRecordType)| record_upsert(k, d, a),
    );
    let ghost deletes = order::ascending::<DnsRecordKey>(a.dom()).map_values(
        |k: (Seq<char>, DnsRecordType)| record_delete(k, d, a),
    );
    let mut changes: Vec<DnsChange> = Vec::new();
    let n: usize = desired_index.len();
    let mut i: usize = 0;
    assert(dns_provider::dns_changes_view(changes@) =~= somes(upserts.take(0)));
    while i < n
        invariant
            i <= n,
            n == upserts.len(),
            d == records_by_key(dns_provider::records_view(desired@)),
            a == records_by_key(dns_provider::records_view(actual@)),
            upserts == order::ascending::<DnsRecordKey>(d.dom()).map_values(
                |k: (Seq<char>, DnsRecordType)| record_upsert(k, d, a),
            ),
            indexes_records(desired_index@, dns_provider::records_view(desired@)),
            indexes_records(actual_index@, dns_provider::records_view(actual@)),
            dns_provider::dns_changes_view(changes@) == somes(upserts.take(i as int)),
        decreases n - i,
    {
        let (key, at) = desired_index.entry_at(i);
        let wanted = &desired[*at];
        let ghost before = changes@;
        assert(wanted@ == d[key.model()]);
        match actual_index.get(key) {
            Some(found) => {
                let held = &actual[*found];
                assert(held@ == a[key.model()]);
                if !same_dns_record(wanted, held) {
                    if let Some(id) = &held.id {
                        changes.push(DnsChange::Update { id: id.clone(), record: wanted.clone() });
                    }
                }
            },
            None => {
                changes.push(DnsChange::Create(wanted.clone()));
            },
        }
        proof {
            lemma_somes_step(upserts, i as int);
            assert(upserts[i as int] == record_upsert(key.model(), d, a));
            if changes@.len() > before.len() {
                assert(dns_provider::dns_changes_view(changes@)
                    =~= dns_provider::dns_changes_view(before).push(changes@.last()@));
            }
        }
        i = i + 1;
    }
    assert(upserts.take(n as int) =~= upserts);
    let m: usize = actual_index.len();
    let mut j: usize = 0;
    assert(somes(upserts) + somes(deletes.take(0)) =~= somes(upserts));
    while j < m
        invariant
            j <= m,
            m == deletes.len(),
            d == records_by_key(dns_provider::records_view(desired@)),
            a == records_by_key(dns_provider::records_view(actual@)),
            deletes == order::ascending::<DnsRecordKey>(a.dom()).map_values(
                |k: (Seq<char>, DnsRecordType)| record_delete(k, d, a),
            ),
            indexes_records(desired_index@, dns_provider::records_view(desired@)),
            indexes_records(actual_index@, dns_provider::records_view(actual@)),
            dns_provider::dns_changes_view(changes@) == somes(upserts) + somes(
                deletes.take(j as int),
            ),
        decreases m - j,
    {
        let (key, at) = actual_index.entry_at(j);
        let held = &actual[*at];
        let ghost before = changes@;
        assert(held@ == a[key.model()]);
        if !desired_index.contains_key(key) {
            if let Some(id) = &held.id {
                changes.push(DnsChange::Delete { id: id.clone() });
            }
        }
        proof {
            lemma_somes_step(deletes, j as int);
            assert(deletes[j as int] == record_delete(key.model(), d, a));
            if changes@.len() > before.len() {
                assert(dns_provider::dns_changes_view(changes@)
                    =~= dns_provider::dns_changes_view(before).push(changes@.last()@));
                assert(dns_provider::dns_changes_view(changes@) =~= somes(upserts) + somes(
                    deletes.take(j + 1),
                ));
            }
        }
        j = j + 1;
    }
    assert(deletes.take(m as int) =~= deletes);
    changes
}

/// The hosts by their first domain. Hosts without a domain do not count, and of
/// several with the same first domain the last does.
pub open spec fn hosts_by_domain(hosts: Seq<ProxyHostView>) -> Map<Seq<char>, ProxyHostView>
    decreases hosts.len(),
{
    if hosts.len() == 0 {
        Map::empty()
    } else {
        let before = hosts_by_domain(hosts.drop_last());
        if hosts.last().domains.len() == 0 {
            before
        } else {
            before.insert(hosts.last().domains[0], hosts.last())
        }
    }
}

/// Whether two hosts are the same, whatever the proxy calls them.
pub open spec fn same_host(left: ProxyHostView, right: ProxyHostView) -> bool {
    &&& left.domains == right.domains
    &&& left.upstream == right.upstream
    &&& left.websocket == right.websocket
    &&& left.certificate == right.certificate
    &&& left.force_https == right.force_https
}

/// The change that a desired host calls for: it is created where its domain is
/// missing and updated where the actual host differs.
pub open spec fn host_upsert(
    domain: Seq<char>,
    desired: Map<Seq<char>, ProxyHostView>,
    actual: Map<Seq<char>, ProxyHostView>,
) -> Option<ProxyChangeView> {
    if !actual.dom().contains(domain) {
        Some(ProxyChangeView::Create(desired[domain]))
    } else if same_host(desired[domain], actual[domain]) {
        None
    } else {
        match actual[domain].id {
            Some(id) => Some(ProxyChangeView::Update { id, host: desired[domain] }),
            None => None,
        }
    }
}

/// The change that an actual host calls for: it is deleted where nobody desires
/// its domain.
pub open spec fn host_delete(
    domain: Seq<char>,
    desired: Map<Seq<char>, ProxyHostView>,
    actual: Map<Seq<char>, ProxyHostView>,
) -> Option<ProxyChangeView> {
    if desired.dom().contains(domain) {
        None
    } else {
        match actual[domain].id {
            Some(id) => Some(ProxyChangeView::Delete { id }),
            None => None,
        }
    }
}

/// The changes to the hosts of a proxy: those that the desired hosts call for,
/// then those that the actual ones do, both in the order of their domains.
pub open spec fn proxy_diff(
    desired: Seq<ProxyHostView>,
    actual: Seq<ProxyHostView>,
) -> Seq<ProxyChangeView> {
    let d = hosts_by_domain(desired);
    let a = hosts_by_domain(actual);
    somes(
        order::ascending::<String>(d.dom()).map_values(|k: Seq<char>| host_upsert(k, d, a)),
    ) + somes(order::ascending::<String>(a.dom()).map_values(|k: Seq<char>| host_delete(k, d, a)))
}

/// Whether an index finds, for each first domain, the host that counts.
spec fn indexes_hosts(index: Map<Seq<char>, usize>, hosts: Seq<ProxyHostView>) -> bool {
    &&& index.dom() == hosts_by_domain(hosts).dom()
    &&& forall|k: Seq<char>| #[trigger]
        index.dom().contains(k) ==> index[k] < hosts.len() && hosts[index[k] as int]
            == hosts_by_domain(hosts)[k]
}

/// The first domain of a host.
pub fn primary_domain(host: &ProxyHost) -> (r: Option<&String>)
    ensures
        match r {
            Some(domain) => host@.domains.len() > 0 && domain@ == host@.domains[0],
            None => host@.domains.len() == 0,
        },
{
    if host.domains.len() == 0 {
        None
    } else {
        Some(&host.domains[0])
    }
}

/// Whether two hosts are the same, whatever the proxy calls them.
pub fn same_proxy_host(left: &ProxyHost, right: &ProxyHost) -> (r: bool)
    ensures
        r == same_host(left@, right@),
{
    text::texts_eq(&left.domains, &right.domains) && left.upstream.scheme == right.upstream.scheme
        && left.upstream.host == right.upstream.host && left.upstream.port == right.upstream.port
        && left.websocket == right.websocket && same_certificate_ref(left, right)
        && left.force_https == right.force_https
}

fn same_certificate_ref(left: &ProxyHost, right: &ProxyHost) -> (r: bool)
    ensures
        r == (left.certificate == right.certificate),
{
    match (left.certificate, right.certificate) {
        (Some(x), Some(y)) => x.id == y.id,
        (None, None) => true,
        _ => false,
    }
}

fn index_hosts(hosts: &[ProxyHost]) -> (r: SortedMap<String, usize>)
    ensures
        indexes_hosts(r@, proxy_provider::hosts_view(hosts@)),
{
    let ghost views = proxy_provider::hosts_view(hosts@);
    let mut index: SortedMap<String, usize> = SortedMap::new();
    let mut i: usize = 0;
    assert(index@.dom() =~= hosts_by_domain(views.take(0)).dom());
    while i < hosts.len()
        invariant
            i <= hosts@.len(),
            views == proxy_provider::hosts_view(hosts@),
            indexes_hosts(index@, views.take(i as int)),
        decreases hosts@.len() - i,
    {
        let ghost before = views.take(i as int);
        let ghost after = views.take(i + 1);
        assert(after.drop_last() =~= before);
        assert(after.last() == hosts@[i as int]@);
        if let Some(domain) = primary_domain(&hosts[i]) {
            index.insert(domain.clone(), i);
        }
        assert(index@.dom() =~= hosts_by_domain(after).dom());
        i = i + 1;
    }
    assert(views.take(i as int) =~= views);
    index
}

/// The changes that lead from the actual hosts to the desired ones.
pub fn diff_proxy_hosts(desired: &[ProxyHost], actual: &[ProxyHost]) -> (r: Vec<ProxyChange>)
    ensures
        proxy_provider::proxy_changes_view(r@) == proxy_diff(
            proxy_provider::hosts_view(desired@),
            proxy_provider::hosts_view(actual@),
        ),
{
    let desired_index = index_hosts(desired);
    let actual_index = index_hosts(actual);
    let ghost d = hosts_by_domain(proxy_provider::hosts_view(desired@));
    let ghost a = hosts_by_domain(proxy_provider::hosts_view(actual@));
    let ghost upserts = order::ascending::<String>(d.dom()).map_values(
        |k: Seq<char>| host_upsert(k, d, a),
    );
    let ghost deletes = order::ascending::<String>(a.dom()).map_values(
        |k: Seq<char>| host_delete(k, d, a),
    );
    let mut changes: Vec<ProxyChange> = Vec::new();
    let n: usize = desired_index.len();
    let mut i: usize = 0;
    assert(proxy_provider::proxy_changes_view(changes@) =~= somes(upserts.take(0)));
    while i < n
        invariant
            i <= n,
            n == upserts.len(),
            d == hosts_by_domain(proxy_provider::hosts_view(desired@)),
            a == hosts_by_domain(proxy_provider::hosts_view(actual@)),
            upserts == order::ascending::<String>(d.dom()).map_values(
                |k: Seq<char>| host_upsert(k, d, a),
            ),
            indexes_hosts(desired_index@, proxy_provider::hosts_view(desired@)),
            indexes_hosts(actual_index@, proxy_provider::hosts_view(actual@)),
            proxy_provider::proxy_changes_view(changes@) == somes(upserts.take(i as int)),
        decreases n - i,
    {
        let (domain, at) = desired_index.entry_at(i);
        let wanted = &desired[*at];
        let ghost before = changes@;
        assert(wanted@ == d[domain@]);
        match actual_index.get(domain) {
            Some(found) => {
                let held = &actual[*found];
                assert(held@ == a[domain@]);
                if !same_proxy_host(wanted, held) {
                    if let Some(id) = &held.id {
                        changes.push(ProxyChange::Update { id: id.clone(), host: wanted.clone() });
                    }
                }
            },
            None => {
                changes.push(ProxyChange::Create(wanted.clone()));
            },
        }
        proof {
            lemma_somes_step(upserts, i as int);
            assert(upserts[i as int] == host_upsert(domain@, d, a));
            if changes@.len() > before.len() {
                assert(proxy_provider::proxy_changes_view(changes@)
                    =~= proxy_provider::proxy_changes_view(before).push(changes@.last()@));
            }
        }
        i = i + 1;
    }
    assert(upserts.take(n as int) =~= upserts);
    let m: usize = actual_index.len();
    let mut j: usize = 0;
    assert(somes(upserts) + somes(deletes.take(0)) =~= somes(upserts));
    while j < m
        invariant
            j <= m,
            m == deletes.len(),
            d == hosts_by_domain(proxy_provider::hosts_view(desired@)),
            a == hosts_by_domain(proxy_provider::hosts_view(actual@)),
            deletes == order::ascending::<String>(a.dom()).map_values(
                |k: Seq<char>| host_delete(k, d, a),
            ),
            indexes_hosts(desired_index@, proxy_provider::hosts_view(desired@)),
            indexes_hosts(actual_index@, proxy_provider::hosts_view(actual@)),
            proxy_provider::proxy_changes_view(changes@) == somes(upserts) + somes(
                deletes.take(j as int),
            ),
        decreases m - j,
    {
        let (domain, at) = actual_index.entry_at(j);
        let held = &actual[*at];
        let ghost before = changes@;
        assert(held@ == a[domain@]);
        if !desired_index.contains_key(domain) {
            if let Some(id) = &held.id {
                changes.push(ProxyChange::Delete { id: id.clone() });
            }
        }
        proof {
            lemma_somes_step(deletes, j as int);
            assert(deletes[j as int] == host_delete(domain@, d, a));
            if changes@.len() > before.len() {
                assert(proxy_provider::proxy_changes_view(changes@)
                    =~= proxy_provider::proxy_changes_view(before).push(changes@.last()@));
                assert(proxy_provider::proxy_changes_view(changes@) =~= somes(upserts) + somes(
                    deletes.take(j + 1),
                ));
            }
        }
        j = j + 1;
    }
    assert(deletes.take(m as int) =~= deletes);
    changes
}

/// The lists of texts that a list of lists of strings holds.
pub open spec fn text_lists(lists: Seq<Vec<String>>) -> Seq<Seq<Seq<char>>> {
    lists.map_values(|list: Vec<String>| text::texts(list@))
}

/// Domains in lower case.
pub open spec fn normalized(domains: Seq<Seq<char>>) -> Seq<Seq<char>> {
    domains.map_values(|domain: Seq<char>| text::lowered(domain))
}

/// The domains of certificates, in lower case.
pub open spec fn normalized_all(certificates: Seq<CertificateView>) -> Seq<Seq<Seq<char>>> {
    certificates.map_values(|c: CertificateView| normalized(c.domains))
}

/// The place of the first list that holds the same texts as `wanted`, in any
/// order and number.
pub open spec fn first_match(
    present: Seq<Seq<Seq<char>>>,
    wanted: Seq<Seq<char>>,
) -> Option<int>
    decreases present.len(),
{
    if present.len() == 0 {
        None
    } else {
        match first_match(present.drop_last(), wanted) {
            Some(at) => Some(at),
            None => if present.last().to_set() == wanted.to_set() {
                Some(present.len() - 1)
            } else {
                None
            },
        }
    }
}

/// The creation of each certificate whose domains are not the domains of a
/// certificate that is there.
pub open spec fn missing(
    desired: Seq<CertificateView>,
    wanted: Seq<Seq<Seq<char>>>,
    present: Seq<Seq<Seq<char>>>,
) -> Seq<CertificateChangeView> {
    somes(
        Seq::new(
            desired.len(),
            |i: int|
                if first_match(present, wanted[i]) is Some {
                    None
                } else {
                    Some(CertificateChangeView::Create(desired[i]))
                },
        ),
    )
}

/// The changes to the certificates: the missing ones are created. Nothing is
/// ever deleted.
pub open spec fn certificate_diff(
    desired: Seq<CertificateView>,
    actual: Seq<CertificateView>,
) -> Seq<CertificateChangeView> {
    missing(desired, normalized_all(desired), normalized_all(actual))
}

/// The id of the first certificate for exactly the given domains.
pub open spec fn certificate_id_for(
    certificates: Seq<CertificateView>,
    domains: Seq<Seq<char>>,
) -> Option<Seq<char>> {
    match first_match(normalized_all(certificates), normalized(domains)) {
        Some(at) => certificates[at].id,
        None => None,
    }
}

fn holds_text(list: &Vec<String>, wanted: &String) -> (r: bool)
    ensures
        r == text::texts(list@).to_set().contains(wanted@),
{
    let ghost views = text::texts(list@);
    let mut i: usize = 0;
    while i < list.len()
        invariant
            i <= list@.len(),
            views == text::texts(list@),
            forall|j: int| 0 <= j < i ==> views[j] != wanted@,
        decreases list@.len() - i,
    {
        assert(views[i as int] == list@[i as int]@);
        if list[i] == *wanted {
            assert(views.contains(wanted@));
            return true;
        }
        i = i + 1;
    }
    false
}

fn holds_all(list: &Vec<String>, wanted: &Vec<String>) -> (r: bool)
    ensures
        r == text::texts(wanted@).to_set().subset_of(text::texts(list@).to_set()),
{
    let ghost views = text::texts(wanted@);
    let mut i: usize = 0;
    while i < wanted.len()
        invariant
            i <= wanted@.len(),
            views == text::texts(wanted@),
            forall|j: int| 0 <= j < i ==> text::texts(list@).to_set().contains(#[trigger] views[j]),
        decreases wanted@.len() - i,
    {
        assert(views[i as int] == wanted@[i as int]@);
        if !holds_text(list, &wanted[i]) {
            assert(views.contains(views[i as int]));
            assert(views.to_set().contains(views[i as int]));
            return false;
        }
        i = i + 1;
    }
    true
}

/// Whether two lists hold the same texts, in any order and number.
pub fn same_text_set(a: &Vec<String>, b: &Vec<String>) -> (r: bool)
    ensures
        r == (text::texts(a@).to_set() == text::texts(b@).to_set()),
{
    let r = holds_all(a, b) && holds_all(b, a);
    proof {
        if r {
            assert(text::texts(a@).to_set() =~= text::texts(b@).to_set());
        }
    }
    r
}

/// The domains in lower case.
pub fn normalized_domain_set(domains: &[String]) -> (r: Vec<String>)
    ensures
        text::texts(r@) == normalized(text::texts(domains@)),
{
    let ghost want = normalized(text::texts(domains@));
    let mut out: Vec<String> = Vec::new();
    let mut i: usize = 0;
    while i < domains.len()
        invariant
            i <= domains@.len(),
            want == normalized(text::texts(domains@)),
            text::texts(out@) == want.take(i as int),
        decreases domains@.len() - i,
    {
        let small = text::to_lower(domains[i].as_str());
        let ghost before = out@;
        out.push(small);
        assert(text::texts(out@) =~= text::texts(before).push(small@));
        assert(want.take(i + 1) =~= want.take(i as int).push(want[i as int]));
        i = i + 1;
    }
    assert(want.take(i as int) =~= want);
    out
}

fn normalized_sets(certificates: &[Certificate]) -> (r: Vec<Vec<String>>)
    ensures
        text_lists(r@) == normalized_all(cert_provider::certificates_view(certificates@)),
{
    let ghost want = normalized_all(cert_provider::certificates_view(certificates@));
    let mut out: Vec<Vec<String>> = Vec::new();
    let mut i: usize = 0;
    while i < certificates.len()
        invariant
            i <= certificates@.len(),
            want == normalized_all(cert_provider::certificates_view(certificates@)),
            text_lists(out@) == want.take(i as int),
        decreases certificates@.len() - i,
    {
        let set = normalized_domain_set(certificates[i].domains.as_slice());
        let ghost before = out@;
        out.push(set);
        assert(text_lists(out@) =~= text_lists(before).push(text::texts(set@)));
        assert(want.take(i + 1) =~= want.take(i as int).push(want[i as int]));
        i = i + 1;
    }
    assert(want.take(i as int) =~= want);
    out
}

/// The place of the first list that holds the same texts as `wanted`, in any
/// order and number.
pub fn find_same_set(present: &Vec<Vec<String>>, wanted: &Vec<String>) -> (r: Option<usize>)
    ensures
        match r {
            Some(at) => first_match(text_lists(present@), text::texts(wanted@)) == Some(at as int)
                && at < present@.len(),
            None => first_match(text_lists(present@), text::texts(wanted@)) is None,
        },
{
    let ghost lists = text_lists(present@);
    let ghost want = text::texts(wanted@);
    let mut i: usize = 0;
    while i < present.len()
        invariant
            i <= present@.len(),
            lists == text_lists(present@),
            want == text::texts(wanted@),
            first_match(lists.take(i as int), want) is None,
        decreases present@.len() - i,
    {
        assert(lists.take(i + 1).drop_last() =~= lists.take(i as int));
        assert(lists[i as int] == text::texts(present@[i as int]@));
        if same_text_set(&present[i], wanted) {
            proof {
                lemma_match_stays(lists, i + 1, want);
            }
            return Some(i);
        }
        i = i + 1;
    }
    assert(lists.take(i as int) =~= lists);
    None
}

proof fn lemma_match_stays(present: Seq<Seq<Seq<char>>>, k: int, wanted: Seq<Seq<char>>)
    requires
        0 <= k <= present.len(),
        first_match(present.take(k), wanted) is Some,
    ensures
        first_match(present, wanted) == first_match(present.take(k), wanted),
    decreases present.len() - k,
{
    if k == present.len() {
        assert(present.take(k) =~= present);
    } else {
        assert(present.take(k + 1).drop_last() =~= present.take(k));
        lemma_match_stays(present, k + 1, wanted);
    }
}

/// The creation of each certificate whose domains, given in `wanted`, are not
/// in `present`.
pub fn missing_certificates(
    desired: &[Certificate],
    wanted: &Vec<Vec<String>>,
    present: &Vec<Vec<String>>,
) -> (r: Vec<CertificateChange>)
    requires
        wanted@.len() == desired@.len(),
    ensures
        cert_provider::certificate_changes_view(r@) == missing(
            cert_provider::certificates_view(desired@),
            text_lists(wanted@),
            text_lists(present@),
        ),
{
    let ghost views = cert_provider::certificates_view(desired@);
    let ghost steps = Seq::new(
        views.len(),
        |i: int|
            if first_match(text_lists(present@), text_lists(wanted@)[i]) is Some {
                None
            } else {
                Some(CertificateChangeView::Create(views[i]))
            },
    );
    let mut changes: Vec<CertificateChange> = Vec::new();
    let mut i: usize = 0;
    assert(cert_provider::certificate_changes_view(changes@) =~= somes(steps.take(0)));
    while i < desired.len()
        invariant
            i <= desired@.len(),
            wanted@.len() == desired@.len(),
            views == cert_provider::certificates_view(desired@),
            steps == Seq::new(
                views.len(),
                |i: int|
                    if first_match(text_lists(present@), text_lists(wanted@)[i]) is Some {
                        None
                    } else {
                        Some(CertificateChangeView::Create(views[i]))
                    },
            ),
            cert_provider::certificate_changes_view(changes@) == somes(steps.take(i as int)),
        decreases desired@.len() - i,
    {
        let ghost before = changes@;
        assert(text_lists(wanted@)[i as int] == text::texts(wanted@[i as int]@));
        if find_same_set(present, &wanted[i]).is_none() {
            changes.push(CertificateChange::Create(desired[i].clone()));
        }
        proof {
            lemma_somes_step(steps, i as int);
            if changes@.len() > before.len() {
                assert(cert_provider::certificate_changes_view(changes@)
                    =~= cert_provider::certificate_changes_view(before).push(changes@.last()@));
            }
        }
        i = i + 1;
    }
    assert(steps.take(i as int) =~= steps);
    changes
}

/// The changes that lead from the actual certificates to the desired ones.
pub fn diff_certificates(desired: &[Certificate], actual: &[Certificate]) -> (r: Vec<
    CertificateChange,
>)
    ensures
        cert_provider::certificate_changes_view(r@) == certificate_diff(
            cert_provider::certificates_view(desired@),
            cert_provider::certificates_view(actual@),
        ),
{
    let wanted = normalized_sets(desired);
    let present = normalized_sets(actual);
    assert(text_lists(wanted@).len() == wanted@.len());
    missing_certificates(desired, &wanted, &present)
}

/// The id of the first certificate for exactly the given domains.
pub fn find_certificate_id(certificates: &[Certificate], domains: &[String]) -> (r: Option<
    CertificateId,
>)
    ensures
        cert_provider::opt_certificate_id(r) == certificate_id_for(
            cert_provider::certificates_view(certificates@),
            text::texts(domains@),
        ),
{
    let wanted = normalized_domain_set(domains);
    let present = normalized_sets(certificates);
    assert(text_lists(present@).len() == present@.len());
    match find_same_set(&present, &wanted) {
        Some(at) => cert_provider::clone_certificate_id(&certificates[at].id),
        None => None,
    }
}

/// The id of the wildcard certificate of the zone, if there is one.
pub fn existing_wildcard_certificate_id(zone: &str, certificates: &[Certificate]) -> (r: Option<
    CertificateId,
>)
    ensures
        cert_provider::opt_certificate_id(r) == certificate_id_for(
            cert_provider::certificates_view(certificates@),
            seq![desired::wildcard(zone@)],
        ),
{
    let mut domains: Vec<String> = Vec::new();
    domains.push(desired::wildcard_domain(zone));
    assert(text::texts(domains@) =~= seq![desired::wildcard(zone@)]);
    find_certificate_id(certificates, domains.as_slice())
}

/// The certificates are changed by creating desired ones only: none is ever
/// renewed or deleted.
pub proof fn law_certificates_are_only_created(
    desired: Seq<CertificateView>,
    actual: Seq<CertificateView>,
    i: int,
)
    requires
        0 <= i < certificate_diff(desired, actual).len(),
    ensures
        certificate_diff(desired, actual)[i] is Create,
        desired.contains(certificate_diff(desired, actual)[i]->Create_0),
{
    let wanted = normalized_all(desired);
    let present = normalized_all(actual);
    let steps = Seq::new(
        desired.len(),
        |i: int|
            if first_match(present, wanted[i]) is Some {
                None
            } else {
                Some(CertificateChangeView::Create(desired[i]))
            },
    );
    lemma_some_is_listed(steps, i);
    let j = choose|j: int|
        0 <= j < steps.len() && steps[j] == Some(certificate_diff(desired, actual)[i]);
    assert(desired[j] == certificate_diff(desired, actual)[i]->Create_0);
}

/// A certificate is created exactly where no certificate for its domains is
/// there, and the created one is then found under its id.
pub proof fn law_created_certificate_is_found(
    certificate: CertificateView,
    actual: Seq<CertificateView>,
    id: Seq<char>,
)
    ensures
        certificate_diff(seq![certificate], actual) == if first_match(
            normalized_all(actual),
            normalized(certificate.domains),
        ) is None {
            seq![CertificateChangeView::Create(certificate)]
        } else {
            Seq::empty()
        },
        first_match(normalized_all(actual), normalized(certificate.domains)) is None
            ==> certificate_id_for(
            actual.push(CertificateView { id: Some(id), ..certificate }),
            certificate.domains,
        ) == Some(id),
{
    let desired = seq![certificate];
    let wanted = normalized_all(desired);
    let present = normalized_all(actual);
    let steps = Seq::new(
        desired.len(),
        |i: int|
            if first_match(present, wanted[i]) is Some {
                None
            } else {
                Some(CertificateChangeView::Create(desired[i]))
            },
    );
    assert(steps.drop_last() =~= Seq::empty());
    assert(somes(steps.drop_last()) =~= Seq::empty());
    let created = actual.push(CertificateView { id: Some(id), ..certificate });
    assert(normalized_all(created).drop_last() =~= present);
}

/// The letter case of a domain does not matter when a certificate is looked for.
pub proof fn law_letter_case_does_not_matter(
    certificates: Seq<CertificateView>,
    domain: Seq<char>,
    other: Seq<char>,
)
    requires
        vstd::utf8::is_ascii_chars(domain),
        vstd::utf8::is_ascii_chars(other),
        text::ascii_lower(domain) == text::ascii_lower(other),
    ensures
        certificate_id_for(certificates, seq![domain]) == certificate_id_for(
            certificates,
            seq![other],
        ),
{
    assert(normalized(seq![domain]) =~= normalized(seq![other]));
}

/// Two records count as the same exactly when they are equal in everything but
/// the id.
pub proof fn law_same_record_is_equal_but_for_the_id(left: DnsRecordView, right: DnsRecordView)
    ensures
        same_record(left, right) <==> ((DnsRecordView { id: None, ..left }) == (DnsRecordView {
            id: None,
            ..right
        })),
{
}

/// Two hosts count as the same exactly when they are equal in everything but the
/// id.
pub proof fn law_same_host_is_equal_but_for_the_id(left: ProxyHostView, right: ProxyHostView)
    ensures
        same_host(left, right) <==> ((ProxyHostView { id: None, ..left }) == (ProxyHostView {
            id: None,
            ..right
        })),
{
}

/// One actual record or host under the key of the only desired one leads to one
/// change: none if they are equal but for the id, and otherwise an update of that
/// id to what is desired.
pub proof fn law_one_differing_resource_is_updated(
    record: DnsRecordView,
    held_record: DnsRecordView,
    host: ProxyHostView,
    held_host: ProxyHostView,
    id: Seq<char>,
)
    requires
        held_record.id == Some(id),
        held_host.id == Some(id),
        record.name == held_record.name,
        record.record_type == held_record.record_type,
        host.domains.len() > 0,
        held_host.domains.len() > 0,
        host.domains[0] == held_host.domains[0],
    ensures
        record.value == held_record.value && record.ttl == held_record.ttl ==> dns_diff(
            seq![record],
            seq![held_record],
        ) == Seq::<DnsChangeView>::empty(),
        record.value != held_record.value || record.ttl != held_record.ttl ==> dns_diff(
            seq![record],
            seq![held_record],
        ) == seq![(DnsChangeView::Update { id, record })],
        ((ProxyHostView { id: None, ..host }) == (ProxyHostView { id: None, ..held_host }))
            ==> proxy_diff(seq![host], seq![held_host]) == Seq::<ProxyChangeView>::empty(),
        ((ProxyHostView { id: None, ..host }) != (ProxyHostView { id: None, ..held_host }))
            ==> proxy_diff(seq![host], seq![held_host]) == seq![
            (ProxyChangeView::Update { id, host }),
        ],
{
    let d = records_by_key(seq![record]);
    let a = records_by_key(seq![held_record]);
    let key = (record.name, record.record_type);
    reveal_with_fuel(records_by_key, 2);
    reveal_with_fuel(hosts_by_domain, 2);
    assert(seq![record].drop_last() =~= Seq::empty());
    assert(seq![held_record].drop_last() =~= Seq::empty());
    assert(d.dom() =~= set![key]);
    assert(a.dom() =~= set![key]);
    lemma_one_key::<DnsRecordKey>(key);
    lemma_one_step(record_upsert(key, d, a));
    lemma_one_step(record_delete(key, d, a));
    assert(seq![key].map_values(|k: (Seq<char>, DnsRecordType)| record_upsert(k, d, a))
        =~= seq![record_upsert(key, d, a)]);
    assert(seq![key].map_values(|k: (Seq<char>, DnsRecordType)| record_delete(k, d, a))
        =~= seq![record_delete(key, d, a)]);
    assert(dns_diff(seq![record], seq![held_record]) =~= somes(seq![record_upsert(key, d, a)])
        + somes(seq![record_delete(key, d, a)]));
    let dh = hosts_by_domain(seq![host]);
    let ah = hosts_by_domain(seq![held_host]);
    let domain = host.domains[0];
    assert(seq![host].drop_last() =~= Seq::empty());
    assert(seq![held_host].drop_last() =~= Seq::empty());
    assert(dh.dom() =~= set![domain]);
    assert(ah.dom() =~= set![domain]);
    lemma_one_key::<String>(domain);
    lemma_one_step(host_upsert(domain, dh, ah));
    lemma_one_step(host_delete(domain, dh, ah));
    assert(seq![domain].map_values(|k: Seq<char>| host_upsert(k, dh, ah)) =~= seq![
        host_upsert(domain, dh, ah),
    ]);
    assert(seq![domain].map_values(|k: Seq<char>| host_delete(k, dh, ah)) =~= seq![
        host_delete(domain, dh, ah),
    ]);
    assert(proxy_diff(seq![host], seq![held_host]) =~= somes(seq![host_upsert(domain, dh, ah)])
        + somes(seq![host_delete(domain, dh, ah)]));
    law_same_host_is_equal_but_for_the_id(host, held_host);
}

pub(crate) proof fn lemma_one_key<K: MapKey>(key: K::Model)
    ensures
        order::ascending::<K>(set![key]) == seq![key],
{
    let keys = seq![key];
    assert(keys[0] == key);
    assert forall|k: K::Model| #[trigger] keys.contains(k) <==> set![key].contains(k) by {}
    order::law_ascending_is_unique::<K>(keys, set![key]);
}

pub(crate) proof fn lemma_one_step<T>(step: Option<T>)
    ensures
        somes(seq![step]) == match step {
            Some(value) => seq![value],
            None => Seq::empty(),
        },
{
    assert(seq![step].drop_last() =~= Seq::empty());
    assert(somes(Seq::<Option<T>>::empty()) =~= Seq::empty());
    if let Some(value) = step {
        assert(Seq::<T>::empty().push(value) =~= seq![value]);
    }
}

/// A certificate is found for ASCII domains only where it is for exactly these
/// domains, in any letter case, and it is the first such certificate.
pub proof fn law_found_certificate_is_for_the_domains(
    certificates: Seq<CertificateView>,
    domains: Seq<Seq<char>>,
    at: int,
)
    requires
        0 <= at < certificates.len(),
        forall|j: int| 0 <= j < domains.len() ==> vstd::utf8::is_ascii_chars(#[trigger] domains[j]),
        forall|i: int, j: int|
            0 <= i < certificates.len() && 0 <= j < certificates[i].domains.len()
                ==> vstd::utf8::is_ascii_chars(#[trigger] certificates[i].domains[j]),
        for_domains(certificates[at], domains),
        forall|i: int| 0 <= i < at ==> !for_domains(#[trigger] certificates[i], domains),
    ensures
        certificate_id_for(certificates, domains) == certificates[at].id,
{
    let present = normalized_all(certificates);
    let wanted = normalized(domains);
    assert forall|i: int| 0 <= i < certificates.len() implies (present[i].to_set()
        == wanted.to_set()) == for_domains(#[trigger] certificates[i], domains) by {
        lemma_same_sets(certificates[i], domains);
    }
    lemma_first_match_is(present, wanted, at);
}

/// Without a certificate for exactly the domains, in any letter case, none is
/// found.
pub proof fn law_no_certificate_is_found_for_other_domains(
    certificates: Seq<CertificateView>,
    domains: Seq<Seq<char>>,
)
    requires
        forall|j: int| 0 <= j < domains.len() ==> vstd::utf8::is_ascii_chars(#[trigger] domains[j]),
        forall|i: int, j: int|
            0 <= i < certificates.len() && 0 <= j < certificates[i].domains.len()
                ==> vstd::utf8::is_ascii_chars(#[trigger] certificates[i].domains[j]),
        forall|i: int|
            0 <= i < certificates.len() ==> !for_domains(#[trigger] certificates[i], domains),
    ensures
        certificate_id_for(certificates, domains) is None,
{
    let present = normalized_all(certificates);
    let wanted = normalized(domains);
    assert forall|i: int| 0 <= i < certificates.len() implies present[i].to_set()
        != wanted.to_set() by {
        assert(!for_domains(certificates[i], domains));
        lemma_same_sets(certificates[i], domains);
    }
    lemma_no_match(present, wanted);
}

/// Whether two ASCII texts are the same but for the case of their letters.
pub open spec fn same_letters(a: Seq<char>, b: Seq<char>) -> bool {
    a.len() == b.len() && forall|i: int|
        0 <= i < a.len() ==> {
            let (x, y) = (#[trigger] a[i] as int, b[i] as int);
            ||| x == y
            ||| ('A' as int <= x <= 'Z' as int && y == x + 32)
            ||| ('A' as int <= y <= 'Z' as int && x == y + 32)
        }
}

/// Whether a list has a text that is the same as the given one but for the case
/// of the letters.
pub open spec fn lists(list: Seq<Seq<char>>, wanted: Seq<char>) -> bool {
    exists|i: int| 0 <= i < list.len() && same_letters(#[trigger] list[i], wanted)
}

/// Whether a certificate is for exactly these ASCII domains, in any letter case.
#[verifier::opaque]
pub open spec fn for_domains(certificate: CertificateView, domains: Seq<Seq<char>>) -> bool {
    &&& forall|j: int| 0 <= j < domains.len() ==> lists(certificate.domains, #[trigger] domains[j])
    &&& forall|i: int|
        0 <= i < certificate.domains.len() ==> lists(domains, #[trigger] certificate.domains[i])
}

proof fn lemma_same_letters(a: Seq<char>, b: Seq<char>)
    requires
        vstd::utf8::is_ascii_chars(a),
        vstd::utf8::is_ascii_chars(b),
    ensures
        same_letters(a, b) <==> text::lowered(a) == text::lowered(b),
{
    if same_letters(a, b) {
        assert(text::lowered(a) =~= text::lowered(b));
    }
    if text::lowered(a) == text::lowered(b) {
        assert(text::lowered(a).len() == text::lowered(b).len());
        assert forall|i: int| 0 <= i < a.len() implies ({
            let (x, y) = (#[trigger] a[i] as int, b[i] as int);
            ||| x == y
            ||| ('A' as int <= x <= 'Z' as int && y == x + 32)
            ||| ('A' as int <= y <= 'Z' as int && x == y + 32)
        }) by {
            assert(text::lowered(a)[i] == text::lowered(b)[i]);
        }
    }
}

proof fn lemma_listed(list: Seq<Seq<char>>, wanted: Seq<char>)
    requires
        vstd::utf8::is_ascii_chars(wanted),
        forall|i: int| 0 <= i < list.len() ==> vstd::utf8::is_ascii_chars(#[trigger] list[i]),
    ensures
        lists(list, wanted) <==> normalized(list).contains(text::lowered(wanted)),
{
    let n = normalized(list);
    if lists(list, wanted) {
        let i = choose|i: int| 0 <= i < list.len() && same_letters(#[trigger] list[i], wanted);
        lemma_same_letters(list[i], wanted);
        assert(n[i] == text::lowered(wanted));
    }
    if n.contains(text::lowered(wanted)) {
        let i = choose|i: int| 0 <= i < n.len() && n[i] == text::lowered(wanted);
        assert(vstd::utf8::is_ascii_chars(list[i]));
        lemma_same_letters(list[i], wanted);
    }
}

proof fn lemma_covered(x: Seq<Seq<char>>, y: Seq<Seq<char>>)
    requires
        forall|i: int| 0 <= i < x.len() ==> vstd::utf8::is_ascii_chars(#[trigger] x[i]),
        forall|j: int| 0 <= j < y.len() ==> vstd::utf8::is_ascii_chars(#[trigger] y[j]),
    ensures
        (forall|j: int| 0 <= j < y.len() ==> lists(x, #[trigger] y[j])) <==> normalized(
            y,
        ).to_set().subset_of(normalized(x).to_set()),
{
    let nx = normalized(x);
    let ny = normalized(y);
    if forall|j: int| 0 <= j < y.len() ==> lists(x, #[trigger] y[j]) {
        assert forall|d: Seq<char>| ny.to_set().contains(d) implies nx.to_set().contains(d) by {
            assert(ny.contains(d));
            let j = choose|j: int| 0 <= j < ny.len() && ny[j] == d;
            assert(lists(x, y[j]));
            lemma_listed(x, y[j]);
            assert(nx.contains(d));
        }
    }
    if ny.to_set().subset_of(nx.to_set()) {
        assert forall|j: int| 0 <= j < y.len() implies lists(x, #[trigger] y[j]) by {
            assert(ny.contains(ny[j]));
            assert(ny.to_set().contains(ny[j]));
            assert(nx.contains(ny[j]));
            lemma_listed(x, y[j]);
        }
    }
}

pub(crate) proof fn lemma_same_sets(certificate: CertificateView, domains: Seq<Seq<char>>)
    requires
        forall|i: int|
            0 <= i < certificate.domains.len() ==> vstd::utf8::is_ascii_chars(
                #[trigger] certificate.domains[i],
            ),
        forall|j: int| 0 <= j < domains.len() ==> vstd::utf8::is_ascii_chars(#[trigger] domains[j]),
    ensures
        normalized(certificate.domains).to_set() == normalized(domains).to_set() <==> for_domains(
            certificate,
            domains,
        ),
{
    reveal(for_domains);
    let nx = normalized(certificate.domains).to_set();
    let ny = normalized(domains).to_set();
    lemma_covered(certificate.domains, domains);
    lemma_covered(domains, certificate.domains);
    if nx.subset_of(ny) && ny.subset_of(nx) {
        assert(nx =~= ny);
    }
}

proof fn lemma_no_match(present: Seq<Seq<Seq<char>>>, wanted: Seq<Seq<char>>)
    requires
        forall|i: int|
            0 <= i < present.len() ==> (#[trigger] present[i]).to_set() != wanted.to_set(),
    ensures
        first_match(present, wanted) is None,
    decreases present.len(),
{
    if present.len() > 0 {
        let before = present.drop_last();
        assert forall|i: int| 0 <= i < before.len() implies (#[trigger] before[i]).to_set()
            != wanted.to_set() by {
            assert(before[i] == present[i]);
        }
        lemma_no_match(before, wanted);
        assert(present[present.len() - 1].to_set() != wanted.to_set());
    }
}

proof fn lemma_first_match_is(present: Seq<Seq<Seq<char>>>, wanted: Seq<Seq<char>>, at: int)
    requires
        0 <= at < present.len(),
        present[at].to_set() == wanted.to_set(),
        forall|i: int| 0 <= i < at ==> (#[trigger] present[i]).to_set() != wanted.to_set(),
    ensures
        first_match(present, wanted) == Some(at),
{
    let head = present.take(at);
    assert forall|i: int| 0 <= i < head.len() implies (#[trigger] head[i]).to_set()
        != wanted.to_set() by {
        assert(head[i] == present[i]);
    }
    lemma_no_match(head, wanted);
    assert(present.take(at + 1).drop_last() =~= head);
    lemma_match_stays(present, at + 1, wanted);
}

/// Of the desired certificates with ASCII domains, exactly those are created for
/// whose domains there is no certificate, in their order.
pub proof fn law_missing_certificates_are_created(
    desired: Seq<CertificateView>,
    actual: Seq<CertificateView>,
    certificate: CertificateView,
)
    requires
        forall|i: int, j: int|
            0 <= i < desired.len() && 0 <= j < desired[i].domains.len()
                ==> vstd::utf8::is_ascii_chars(#[trigger] desired[i].domains[j]),
        forall|i: int, j: int|
            0 <= i < actual.len() && 0 <= j < actual[i].domains.len()
                ==> vstd::utf8::is_ascii_chars(#[trigger] actual[i].domains[j]),
        forall|j: int|
            0 <= j < certificate.domains.len() ==> vstd::utf8::is_ascii_chars(
                #[trigger] certificate.domains[j],
            ),
    ensures
        (exists|i: int|
            0 <= i < actual.len() && for_domains(#[trigger] actual[i], certificate.domains))
            ==> certificate_diff(desired.push(certificate), actual) == certificate_diff(
            desired,
            actual,
        ),
        !(exists|i: int|
            0 <= i < actual.len() && for_domains(#[trigger] actual[i], certificate.domains))
            ==> certificate_diff(desired.push(certificate), actual) == certificate_diff(
            desired,
            actual,
        ).push(CertificateChangeView::Create(certificate)),
        certificate_diff(Seq::empty(), actual) == Seq::<CertificateChangeView>::empty(),
{
    let present = normalized_all(actual);
    let wanted = normalized(certificate.domains);
    lemma_missing_one_more(desired, certificate, present);
    if exists|i: int|
        0 <= i < actual.len() && for_domains(#[trigger] actual[i], certificate.domains) {
        let i = choose|i: int|
            0 <= i < actual.len() && for_domains(#[trigger] actual[i], certificate.domains);
        lemma_same_sets(actual[i], certificate.domains);
        if first_match(present, wanted) is None {
            lemma_match_missing(present, wanted, i);
        }
    } else {
        assert forall|i: int| 0 <= i < present.len() implies (#[trigger] present[i]).to_set()
            != wanted.to_set() by {
            assert(!for_domains(actual[i], certificate.domains));
            lemma_same_sets(actual[i], certificate.domains);
        }
        lemma_no_match(present, wanted);
    }
}

proof fn lemma_missing_one_more(
    desired: Seq<CertificateView>,
    certificate: CertificateView,
    present: Seq<Seq<Seq<char>>>,
)
    ensures
        first_match(present, normalized(certificate.domains)) is Some ==> missing(
            desired.push(certificate),
            normalized_all(desired.push(certificate)),
            present,
        ) == missing(desired, normalized_all(desired), present),
        first_match(present, normalized(certificate.domains)) is None ==> missing(
            desired.push(certificate),
            normalized_all(desired.push(certificate)),
            present,
        ) == missing(desired, normalized_all(desired), present).push(
            CertificateChangeView::Create(certificate),
        ),
        missing(Seq::empty(), normalized_all(Seq::empty()), present) == Seq::<
            CertificateChangeView,
        >::empty(),
{
    let more = desired.push(certificate);
    let wanted = normalized_all(more);
    let steps = Seq::new(
        more.len(),
        |i: int|
            if first_match(present, wanted[i]) is Some {
                None
            } else {
                Some(CertificateChangeView::Create(more[i]))
            },
    );
    let before = normalized_all(desired);
    let earlier = Seq::new(
        desired.len(),
        |i: int|
            if first_match(present, before[i]) is Some {
                None
            } else {
                Some(CertificateChangeView::Create(desired[i]))
            },
    );
    assert(steps.drop_last() =~= earlier);
    assert(wanted[desired.len() as int] == normalized(certificate.domains));
    assert(missing(more, wanted, present) == somes(steps));
    assert(missing(desired, before, present) == somes(earlier));
}

proof fn lemma_match_missing(present: Seq<Seq<Seq<char>>>, wanted: Seq<Seq<char>>, at: int)
    requires
        first_match(present, wanted) is None,
        0 <= at < present.len(),
    ensures
        present[at].to_set() != wanted.to_set(),
    decreases present.len(),
{
    if at < present.len() - 1 {
        lemma_match_missing(present.drop_last(), wanted, at);
    }
}

} // verus!
