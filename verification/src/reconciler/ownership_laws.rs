//! What is managed is recognised, and nothing else is changed.

use crate::dns_provider::cloudflare::CloudflareRecordView;
use crate::dns_provider::{Dns01ProviderConfigView, DnsChangeView, DnsRecordView};
use crate::proxy_provider::npm::{NpmCertificateView, NpmProxyHostView};
use crate::proxy_provider::{ProxyChangeView, ProxyHostView};
use crate::reconciler::{desired, diff, dns_laws, proxy_laws};
use crate::{dns_provider, proxy_provider, text};
use vstd::prelude::*;

verus! {

/// Whether a listed record of the id is managed.
pub open spec fn managed_record(listed: Seq<CloudflareRecordView>, id: Seq<char>) -> bool {
    exists|j: int| 0 <= j < listed.len() && (#[trigger] listed[j]).managed() && listed[j].id == id
}

/// Whether a listed host of the number is managed.
pub open spec fn managed_host(listed: Seq<NpmProxyHostView>, id: nat) -> bool {
    exists|j: int| 0 <= j < listed.len() && (#[trigger] listed[j]).managed() && listed[j].id == id
}

proof fn lemma_records_are_managed(
    listed: Seq<CloudflareRecordView>,
    records: Seq<DnsRecordView>,
    k: int,
)
    requires
        dns_provider::cloudflare::managed_of(listed) == Ok::<
            Seq<DnsRecordView>,
            dns_provider::DnsProviderErrorView,
        >(records),
        0 <= k < records.len(),
    ensures
        records[k].id is Some,
        managed_record(listed, records[k].id->0),
    decreases listed.len(),
{
    let before = listed.drop_last();
    let held = dns_provider::cloudflare::managed_of(before)->Ok_0;
    if k < held.len() {
        lemma_records_are_managed(before, held, k);
        let j = choose|j: int|
            0 <= j < before.len() && (#[trigger] before[j]).managed() && before[j].id
                == records[k].id->0;
        assert(listed[j].managed() && listed[j].id == records[k].id->0);
    } else {
        let j = listed.len() - 1;
        assert(listed[j].managed() && listed[j].id == records[k].id->0);
    }
}

proof fn lemma_hosts_are_managed(
    listed: Seq<NpmProxyHostView>,
    hosts: Seq<ProxyHostView>,
    k: int,
) -> (id: u32)
    requires
        proxy_provider::npm::managed_of(listed) == Ok::<
            Seq<ProxyHostView>,
            proxy_provider::ProxyErrorView,
        >(hosts),
        0 <= k < hosts.len(),
    ensures
        hosts[k].id == Some(text::decimal(id as nat)),
        managed_host(listed, id as nat),
    decreases listed.len(),
{
    let before = listed.drop_last();
    let held = proxy_provider::npm::managed_of(before)->Ok_0;
    if k < held.len() {
        let id = lemma_hosts_are_managed(before, held, k);
        let j = choose|j: int|
            0 <= j < before.len() && (#[trigger] before[j]).managed() && before[j].id == id as nat;
        assert(listed[j].managed() && listed[j].id == id as nat);
        id
    } else {
        let j = listed.len() - 1;
        assert(listed[j].managed());
        listed[j].id
    }
}

/// Whatever a zone holds, a record that is updated or deleted is a managed one.
pub proof fn law_only_managed_records_are_changed(
    listed: Seq<CloudflareRecordView>,
    desired: Seq<DnsRecordView>,
    i: int,
)
    requires
        dns_provider::cloudflare::managed_of(listed) is Ok,
        0 <= i < diff::dns_diff(
            desired,
            dns_provider::cloudflare::managed_of(listed)->Ok_0,
        ).len(),
    ensures
        match diff::dns_diff(desired, dns_provider::cloudflare::managed_of(listed)->Ok_0)[i] {
            DnsChangeView::Create(_) => true,
            DnsChangeView::Update { id, .. } => managed_record(listed, id),
            DnsChangeView::Delete { id } => managed_record(listed, id),
        },
{
    let records = dns_provider::cloudflare::managed_of(listed)->Ok_0;
    let change = diff::dns_diff(desired, records)[i];
    dns_laws::law_dns_changes_touch_listed_records_only(desired, records, i);
    match change {
        DnsChangeView::Create(_) => {},
        DnsChangeView::Update { id, record } => {
            let k = choose|k: int|
                0 <= k < records.len() && (#[trigger] records[k]).id == Some(id)
                    && dns_provider::record_key(records[k]) == dns_provider::record_key(record);
            lemma_records_are_managed(listed, records, k);
        },
        DnsChangeView::Delete { id } => {
            let key = choose|key: (Seq<char>, dns_provider::DnsRecordType)| #[trigger]
                dns_laws::listed_under(records, id, key) && !diff::records_by_key(
                    desired,
                ).dom().contains(key);
            let k = choose|k: int|
                0 <= k < records.len() && (#[trigger] records[k]).id == Some(id)
                    && dns_provider::record_key(records[k]) == key;
            lemma_records_are_managed(listed, records, k);
        },
    }
}

/// Whatever a proxy holds, a host that is updated or deleted is a managed one,
/// and the id of the change denotes its number.
pub proof fn law_only_managed_hosts_are_changed(
    listed: Seq<NpmProxyHostView>,
    desired: Seq<ProxyHostView>,
    i: int,
)
    requires
        proxy_provider::npm::managed_of(listed) is Ok,
        0 <= i < diff::proxy_diff(desired, proxy_provider::npm::managed_of(listed)->Ok_0).len(),
    ensures
        match diff::proxy_diff(desired, proxy_provider::npm::managed_of(listed)->Ok_0)[i] {
            ProxyChangeView::Create(_) => true,
            ProxyChangeView::Update { id, .. } => proxy_provider::npm::id_number(id) is Some
                && managed_host(listed, proxy_provider::npm::id_number(id)->0),
            ProxyChangeView::Delete { id } => proxy_provider::npm::id_number(id) is Some
                && managed_host(listed, proxy_provider::npm::id_number(id)->0),
        },
{
    let hosts = proxy_provider::npm::managed_of(listed)->Ok_0;
    let change = diff::proxy_diff(desired, hosts)[i];
    proxy_laws::law_proxy_changes_touch_listed_hosts_only(desired, hosts, i);
    match change {
        ProxyChangeView::Create(_) => {},
        ProxyChangeView::Update { id, host } => {
            let k = choose|k: int|
                0 <= k < hosts.len() && (#[trigger] hosts[k]).id == Some(id)
                    && proxy_laws::first_domain(hosts[k]) == Some(host.domains[0]);
            let number = lemma_hosts_are_managed(listed, hosts, k);
            proxy_provider::npm::law_listed_id_denotes_its_number(number);
        },
        ProxyChangeView::Delete { id } => {
            let domain = choose|domain: Seq<char>| #[trigger]
                proxy_laws::listed_under(hosts, id, domain) && !diff::hosts_by_domain(
                    desired,
                ).dom().contains(domain);
            let k = choose|k: int|
                0 <= k < hosts.len() && (#[trigger] hosts[k]).id == Some(id)
                    && proxy_laws::first_domain(hosts[k]) == Some(domain);
            let number = lemma_hosts_are_managed(listed, hosts, k);
            proxy_provider::npm::law_listed_id_denotes_its_number(number);
        },
    }
}

/// Where the wildcard certificate of a zone is missing and is ordered, and the
/// API keeps the order as it was told, the certificate is found under its number
/// when the certificates are listed again.
pub proof fn law_ordered_certificate_is_found(
    listed: Seq<NpmCertificateView>,
    zone: Seq<char>,
    dns01: Option<Dns01ProviderConfigView>,
    id: u32,
    name: Seq<char>,
)
    requires
        diff::first_match(
            diff::normalized_all(proxy_provider::npm::counted_of(listed)),
            diff::normalized(seq![desired::wildcard(zone)]),
        ) is None,
    ensures
        ({
            let wanted = desired::wildcard_certificate_of(zone, dns01, None);
            let kept = proxy_provider::npm::kept_certificate(
                proxy_provider::npm::certificate_request(wanted),
                id,
                name,
            );
            let again = proxy_provider::npm::counted_of(listed.push(kept));
            &&& diff::certificate_id_for(again, seq![desired::wildcard(zone)]) == Some(
                text::decimal(id as nat),
            )
            &&& desired::certificate_number(text::decimal(id as nat)) == Some(id as nat)
        }),
{
    let wanted = desired::wildcard_certificate_of(zone, dns01, None);
    let kept = proxy_provider::npm::kept_certificate(
        proxy_provider::npm::certificate_request(wanted),
        id,
        name,
    );
    proxy_provider::npm::law_kept_certificate_is_managed(wanted, id, name, zone);
    assert(listed.push(kept).drop_last() =~= listed);
    let before = proxy_provider::npm::counted_of(listed);
    let again = before.push(kept.certificate());
    assert(diff::normalized_all(again).drop_last() =~= diff::normalized_all(before));
    text::law_decimal_round_trip(id as nat, u32::MAX as nat);
}

} // verus!
