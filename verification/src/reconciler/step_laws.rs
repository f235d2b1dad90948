//! What each step on the way to the desired state comes to.

use super::{DesiredStateView, ReconcileErrorView};
use crate::cert_provider::{CertProviderErrorView, CertificateChangeView, CertificateView};
use crate::config::{
    CertificateConfig, Config, DnsConfig, ProxyConfig, ServiceConfigView, ServicesFile,
};
use crate::dns_provider::{
    Dns01ProviderConfigView, DnsChangeView, DnsProviderErrorView, DnsRecordType, DnsRecordView,
};
use crate::proxy_provider::{
    CertificateRef, ProxyChangeView, ProxyErrorView, ProxyHostView, UpstreamScheme,
};
use crate::reconciler::run::{ActionView, EventView, Goal, StageView};
use crate::reconciler::run_laws::Holdings;
use crate::reconciler::{
    desired, diff, dns_laws, plan, proxy_laws, run, run_laws, service_laws,
};
use crate::{address, config, order, text};
use vstd::prelude::*;

verus! {

/// A run of a valid configuration starts with the certificates where some service
/// wants TLS, with what the DNS provider offers and the configured waiting time,
/// and with the records otherwise. Without an offer TLS services are refused, and
/// so is a configuration that is not valid.
pub proof fn law_run_starts_with_the_certificate(
    goal: Goal,
    propagation_seconds: Option<u32>,
    offered: Option<Dns01ProviderConfigView>,
)
    requires
        goal.services.dom().finite(),
    ensures
        ({
            let first = run::first_stage(goal, propagation_seconds, offered);
            let tls = exists|n: Seq<char>| #[trigger]
                goal.services.dom().contains(n) && goal.services[n].tls;
            if !super::valid(goal.proxy_host, goal.zone, goal.services) {
                first is Err && first->Err_0 is InvalidConfig
            } else if tls && offered is None {
                first == Err::<StageView, ReconcileErrorView>(
                    ReconcileErrorView::InvalidConfig("DNS provider does not support DNS-01"@),
                )
            } else if tls {
                &&& first is Ok
                &&& first->Ok_0 is FindCertificate
                &&& first->Ok_0->dns01.provider == offered->0.provider
                &&& first->Ok_0->dns01.credentials == offered->0.credentials
                &&& first->Ok_0->dns01.propagation_seconds == propagation_seconds
            } else {
                &&& first is Ok
                &&& first->Ok_0 is ReadRecords
                &&& first->Ok_0->ReadRecords_records.len() == goal.services.dom().len()
                &&& first->Ok_0->ReadRecords_hosts.len() == goal.services.dom().len()
            }
        }),
{
    super::law_valid_means_no_fault(goal.proxy_host, goal.zone, goal.services);
    service_laws::law_desired_state_covers_the_services(
        goal.proxy_host,
        goal.zone,
        goal.services,
        None,
    );
}

/// Where a provider fails, the run ends with its error, whatever the stage.
pub proof fn law_failure_ends_the_run(
    goal: Goal,
    stage: StageView,
    certificate_error: CertProviderErrorView,
    dns_error: DnsProviderErrorView,
    proxy_error: ProxyErrorView,
)
    ensures
        run::next_stage(goal, stage, EventView::Certificates(Err(certificate_error))) == Err::<
            StageView,
            ReconcileErrorView,
        >(ReconcileErrorView::Certificate(certificate_error)),
        run::next_stage(goal, stage, EventView::CertificateApplied(Err(certificate_error)))
            == Err::<StageView, ReconcileErrorView>(
            ReconcileErrorView::Certificate(certificate_error),
        ),
        run::next_stage(goal, stage, EventView::Records(Err(dns_error))) == Err::<
            StageView,
            ReconcileErrorView,
        >(ReconcileErrorView::Dns(dns_error)),
        run::next_stage(goal, stage, EventView::DnsApplied(Err(dns_error))) == Err::<
            StageView,
            ReconcileErrorView,
        >(ReconcileErrorView::Dns(dns_error)),
        run::next_stage(goal, stage, EventView::Hosts(Err(proxy_error))) == Err::<
            StageView,
            ReconcileErrorView,
        >(ReconcileErrorView::Proxy(proxy_error)),
        run::next_stage(goal, stage, EventView::ProxyApplied(Err(proxy_error))) == Err::<
            StageView,
            ReconcileErrorView,
        >(ReconcileErrorView::Proxy(proxy_error)),
{
}

/// Each stage asks for its own action, and a stage that is about changes asks for
/// the first of them.
pub proof fn law_stage_asks_for_its_action(
    dns01: Dns01ProviderConfigView,
    certificates: Seq<CertificateChangeView>,
    dns: Seq<DnsChangeView>,
    proxy: Seq<ProxyChangeView>,
    records: Seq<DnsRecordView>,
    hosts: Seq<ProxyHostView>,
)
    ensures
        run::due((StageView::FindCertificate { dns01 })) is ListCertificates,
        run::due((StageView::CreateCertificate { changes: certificates }))
            == ActionView::ApplyCertificate(certificates.first()),
        run::due(StageView::ConfirmCertificate) is ListCertificates,
        run::due((StageView::ReadRecords { records, hosts })) is ListRecords,
        run::due((StageView::ChangeRecords { changes: dns, hosts })) == ActionView::ApplyDns(
            dns.first(),
        ),
        run::due((StageView::ReadHosts { hosts })) is ListHosts,
        run::due((StageView::ChangeHosts { changes: proxy })) == ActionView::ApplyProxy(
            proxy.first(),
        ),
        run::due(StageView::Reached) is Done,
{
}

/// Changes are made one by one: the first is taken off, and after the last one
/// the next thing is read. Nothing is lost on the way.
pub proof fn law_changes_are_made_one_by_one(
    goal: Goal,
    certificate: CertificateChangeView,
    certificates: Seq<CertificateChangeView>,
    dns: DnsChangeView,
    dns_changes: Seq<DnsChangeView>,
    proxy: ProxyChangeView,
    proxy_changes: Seq<ProxyChangeView>,
    hosts: Seq<ProxyHostView>,
)
    ensures
        ({
            let after_certificate = run::next_stage(
                goal,
                StageView::CreateCertificate { changes: seq![certificate] + certificates },
                EventView::CertificateApplied(Ok(())),
            );
            let after_dns = run::next_stage(
                goal,
                StageView::ChangeRecords { changes: seq![dns] + dns_changes, hosts },
                EventView::DnsApplied(Ok(())),
            );
            let after_proxy = run::next_stage(
                goal,
                StageView::ChangeHosts { changes: seq![proxy] + proxy_changes },
                EventView::ProxyApplied(Ok(())),
            );
            &&& after_certificate == Ok::<StageView, ReconcileErrorView>(
                if certificates.len() > 0 {
                    StageView::CreateCertificate { changes: certificates }
                } else {
                    StageView::ConfirmCertificate
                },
            )
            &&& after_dns == Ok::<StageView, ReconcileErrorView>(
                if dns_changes.len() > 0 {
                    StageView::ChangeRecords { changes: dns_changes, hosts }
                } else {
                    StageView::ReadHosts { hosts }
                },
            )
            &&& after_proxy == Ok::<StageView, ReconcileErrorView>(
                if proxy_changes.len() > 0 {
                    StageView::ChangeHosts { changes: proxy_changes }
                } else {
                    StageView::Reached
                },
            )
        }),
{
    assert((seq![certificate] + certificates).skip(1) =~= certificates);
    assert((seq![dns] + dns_changes).skip(1) =~= dns_changes);
    assert((seq![proxy] + proxy_changes).skip(1) =~= proxy_changes);
}

/// What is read of the records and of the hosts decides which changes are made
/// next: none where they are as desired.
pub proof fn law_what_is_read_decides_the_changes(
    goal: Goal,
    records: Seq<DnsRecordView>,
    hosts: Seq<ProxyHostView>,
    actual_records: Seq<DnsRecordView>,
    actual_hosts: Seq<ProxyHostView>,
)
    ensures
        ({
            let dns = diff::dns_diff(records, actual_records);
            let proxy = diff::proxy_diff(hosts, actual_hosts);
            let after_records = run::next_stage(
                goal,
                StageView::ReadRecords { records, hosts },
                EventView::Records(Ok(actual_records)),
            );
            let after_hosts = run::next_stage(
                goal,
                StageView::ReadHosts { hosts },
                EventView::Hosts(Ok(actual_hosts)),
            );
            &&& after_records is Ok && after_hosts is Ok
            &&& dns.len() == 0 ==> after_records->Ok_0 == (StageView::ReadHosts { hosts })
            &&& dns.len() > 0 ==> after_records->Ok_0 == (StageView::ChangeRecords {
                changes: dns,
                hosts,
            })
            &&& proxy.len() == 0 ==> after_hosts->Ok_0 is Reached
            &&& proxy.len() > 0 ==> after_hosts->Ok_0 == (StageView::ChangeHosts { changes: proxy })
        }),
{
}

proof fn lemma_wildcard(zone: Seq<char>)
    requires
        vstd::utf8::is_ascii_chars(zone),
    ensures
        vstd::utf8::is_ascii_chars("*."@ + zone),
{
    reveal_strlit("*.");
    let domain = "*."@ + zone;
    assert forall|i: int| 0 <= i < domain.len() implies (#[trigger] domain[i] as u32) < 128 by {
        if i >= 2 {
            assert(domain[i] == zone[i - 2]);
        }
    }
}

/// A certificate that is for all domains right below the zone, and only for
/// these, is used: the first one where there are several. TLS services are then
/// served with it, the others with none. Where there is none, exactly one is
/// ordered, for these domains, with what the DNS provider offered.
pub proof fn law_wildcard_certificate_is_used_or_ordered(
    goal: Goal,
    dns01: Dns01ProviderConfigView,
    certificates: Seq<CertificateView>,
    at: int,
    number: u32,
)
    requires
        goal.services.dom().finite(),
        super::valid(goal.proxy_host, goal.zone, goal.services),
        vstd::utf8::is_ascii_chars(goal.zone),
        forall|i: int, j: int|
            0 <= i < certificates.len() && 0 <= j < certificates[i].domains.len()
                ==> vstd::utf8::is_ascii_chars(#[trigger] certificates[i].domains[j]),
        0 <= at <= certificates.len(),
        forall|i: int|
            0 <= i < at ==> !diff::for_domains(
                #[trigger] certificates[i],
                seq!["*."@ + goal.zone],
            ),
        at < certificates.len() ==> diff::for_domains(certificates[at], seq!["*."@ + goal.zone])
            && certificates[at].id == Some(text::decimal(number as nat)),
    ensures
        ({
            let found = run::next_stage(
                goal,
                StageView::FindCertificate { dns01 },
                EventView::Certificates(Ok(certificates)),
            );
            let confirmed = run::next_stage(
                goal,
                StageView::ConfirmCertificate,
                EventView::Certificates(Ok(certificates)),
            );
            let names = config::names(goal.services);
            &&& found is Ok
            &&& at < certificates.len() ==> {
                &&& confirmed == found
                &&& found->Ok_0 is ReadRecords
                &&& found->Ok_0->ReadRecords_hosts.len() == names.len()
                &&& forall|i: int|
                    0 <= i < names.len() ==> (
                    #[trigger] found->Ok_0->ReadRecords_hosts[i]).certificate
                        == if goal.services[names[i]].tls {
                        Some(CertificateRef { id: number })
                    } else {
                        None
                    }
            }
            &&& at == certificates.len() ==> {
                &&& confirmed is Err
                &&& found->Ok_0 is CreateCertificate
                &&& found->Ok_0->CreateCertificate_changes.len() == 1
                &&& found->Ok_0->CreateCertificate_changes[0] is Create
                &&& {
                    let ordered = found->Ok_0->CreateCertificate_changes[0]->Create_0;
                    &&& ordered.domains == seq!["*."@ + goal.zone]
                    &&& ordered.challenge is Dns01
                    &&& ordered.challenge->Dns01_0.provider == dns01.provider
                    &&& ordered.challenge->Dns01_0.credentials == dns01.credentials
                    &&& ordered.challenge->Dns01_0.propagation_seconds == dns01.propagation_seconds
                }
            }
        }),
{
    let wanted = seq!["*."@ + goal.zone];
    lemma_wildcard(goal.zone);
    assert(vstd::utf8::is_ascii_chars(wanted[0]));
    super::law_valid_means_no_fault(goal.proxy_host, goal.zone, goal.services);
    text::law_decimal_round_trip(number as nat, u32::MAX as nat);
    if at < certificates.len() {
        diff::law_found_certificate_is_for_the_domains(certificates, wanted, at);
    } else {
        diff::law_no_certificate_is_found_for_other_domains(certificates, wanted);
        let ordered = desired::wildcard_certificate_of(goal.zone, Some(dns01), None);
        let none = Seq::<CertificateView>::empty();
        diff::law_missing_certificates_are_created(none, certificates, ordered);
        assert(none.push(ordered) =~= seq![ordered]);
        assert(Seq::<CertificateChangeView>::empty().push(CertificateChangeView::Create(ordered))
            =~= seq![CertificateChangeView::Create(ordered)]);
    }
}

/// A run that ends well publishes every service: afterwards there is a record of
/// its domain that points to the host it names, or else to the proxy host, and a
/// host of its domain that forwards to its upstream, with a certificate and the
/// redirection to HTTPS exactly where it wants TLS.
pub proof fn law_run_publishes_every_service(
    goal: Goal,
    propagation_seconds: Option<u32>,
    offered: Option<Dns01ProviderConfigView>,
    held: Holdings,
    record_ids: spec_fn(int) -> Seq<char>,
    host_ids: spec_fn(int) -> Seq<char>,
    records: Seq<DnsRecordView>,
    hosts: Seq<ProxyHostView>,
    name: Seq<char>,
)
    requires
        goal.services.dom().finite(),
        goal.services.dom().contains(name),
        run_ended_well(
            goal,
            propagation_seconds,
            offered,
            held,
            record_ids,
            host_ids,
            records,
            hosts,
        ),
    ensures
        exists|j: int|
            0 <= j < records.len() && {
                let record = #[trigger] records[j];
                let service = goal.services[name];
                &&& record.name == service.domain
                &&& service.proxy_host is Some ==> record.value == service.proxy_host->0
                &&& service.proxy_host is None ==> record.value == goal.proxy_host
                &&& record.record_type is A <==> address::is_ipv4(record.value)
                &&& record.record_type is Aaaa <==> !address::is_ipv4(record.value)
                    && address::is_ipv6(record.value)
                &&& record.record_type is Cname <==> !address::is_ipv4(record.value)
                    && !address::is_ipv6(record.value)
                &&& record.ttl is None
            },
        exists|k: int|
            0 <= k < hosts.len() && {
                let host = #[trigger] hosts[k];
                let service = goal.services[name];
                &&& host.domains == seq![service.domain]
                &&& host.upstream.host == service.upstream.host
                &&& host.upstream.port == service.upstream.port
                &&& host.upstream.scheme is Https <==> service.upstream.scheme is Https
                &&& host.websocket == service.websocket
                &&& host.force_https == service.tls
                &&& host.certificate is Some <==> service.tls
            },
{
    let dns01 = run::dns01_of(propagation_seconds, goal.services, offered)->Ok_0;
    let state = run_laws::run_state(goal, dns01, held)->Ok_0;
    lemma_run_state(goal, propagation_seconds, offered, held, record_ids, host_ids, records, hosts);
    let names = config::names(goal.services);
    order::law_ascending_lists::<String>(goal.services.dom());
    assert(names.contains(name));
    let i = choose|i: int| 0 <= i < names.len() && names[i] == name;
    let certificate = run_certificate(goal, dns01, held);
    service_laws::law_declared_record_is_the_service(
        goal.proxy_host,
        goal.zone,
        goal.services,
        certificate,
        i,
    );
    service_laws::law_declared_host_is_the_service(
        goal.proxy_host,
        goal.zone,
        goal.services,
        certificate,
        i,
    );
    lemma_other_domains(goal, i);
    assert forall|k: int| i < k < state.dns_records.len() implies (
    #[trigger] state.dns_records[k]).name != state.dns_records[i].name by {
        assert(goal.services[names[k]].domain != goal.services[names[i]].domain);
        assert(state.dns_records[k].name == goal.services[names[k]].domain);
    }
    assert forall|k: int|
        i < k < state.proxy_hosts.len() && (
        #[trigger] state.proxy_hosts[k]).domains.len() > 0 implies state.proxy_hosts[k].domains[0]
        != state.proxy_hosts[i].domains[0] by {
        assert(goal.services[names[k]].domain != goal.services[names[i]].domain);
        assert(state.proxy_hosts[k].domains[0] == goal.services[names[k]].domain);
    }
    dns_laws::law_desired_record_has_its_equal(
        state.dns_records,
        held.records,
        record_ids,
        records,
        i,
    );
    proxy_laws::law_desired_host_has_its_equal(
        state.proxy_hosts,
        held.hosts,
        host_ids,
        hosts,
        i,
    );
    let j = choose|j: int|
        0 <= j < records.len() && dns_laws::equal_but_for_the_id(
            state.dns_records[i],
            #[trigger] records[j],
        );
    assert(records[j].name == goal.services[name].domain);
    let k = choose|k: int|
        0 <= k < hosts.len() && proxy_laws::equal_but_for_the_id(
            state.proxy_hosts[i],
            #[trigger] hosts[k],
        );
    assert(hosts[k].domains == seq![goal.services[name].domain]);
}

/// A run that ends well leaves nothing else: every record, and every host that
/// has a domain, is that of a service.
pub proof fn law_run_leaves_nothing_else(
    goal: Goal,
    propagation_seconds: Option<u32>,
    offered: Option<Dns01ProviderConfigView>,
    held: Holdings,
    record_ids: spec_fn(int) -> Seq<char>,
    host_ids: spec_fn(int) -> Seq<char>,
    records: Seq<DnsRecordView>,
    hosts: Seq<ProxyHostView>,
    j: int,
    k: int,
)
    requires
        goal.services.dom().finite(),
        run_ended_well(
            goal,
            propagation_seconds,
            offered,
            held,
            record_ids,
            host_ids,
            records,
            hosts,
        ),
        0 <= j < records.len(),
        0 <= k < hosts.len(),
        hosts[k].domains.len() > 0,
    ensures
        exists|n: Seq<char>| #[trigger]
            goal.services.dom().contains(n) && records[j].name == goal.services[n].domain,
        exists|n: Seq<char>| #[trigger]
            goal.services.dom().contains(n) && hosts[k].domains == seq![goal.services[n].domain],
{
    let dns01 = run::dns01_of(propagation_seconds, goal.services, offered)->Ok_0;
    lemma_run_state(goal, propagation_seconds, offered, held, record_ids, host_ids, records, hosts);
    let certificate = run_certificate(goal, dns01, held);
    lemma_record_is_of_a_service(goal, certificate, held, record_ids, records, j);
    lemma_host_is_of_a_service(goal, certificate, held, host_ids, hosts, k);
}

proof fn lemma_record_is_of_a_service(
    goal: Goal,
    certificate: Option<CertificateRef>,
    held: Holdings,
    ids: spec_fn(int) -> Seq<char>,
    records: Seq<DnsRecordView>,
    j: int,
)
    requires
        goal.services.dom().finite(),
        dns_laws::sound_zone(held.records.to_set()),
        dns_laws::fresh_record_ids(held.records.to_set(), ids),
        records.to_set() == dns_laws::records_applied(
            held.records.to_set(),
            diff::dns_diff(
                desired::declared_state(
                    goal.proxy_host,
                    goal.zone,
                    goal.services,
                    certificate,
                ).dns_records,
                held.records,
            ),
            ids,
        ),
        0 <= j < records.len(),
    ensures
        exists|n: Seq<char>| #[trigger]
            goal.services.dom().contains(n) && records[j].name == goal.services[n].domain,
{
    let wanted = desired::declared_state(
        goal.proxy_host,
        goal.zone,
        goal.services,
        certificate,
    ).dns_records;
    dns_laws::law_applied_record_equals_a_desired_one(wanted, held.records, ids, records, j);
    let a = choose|a: int|
        0 <= a < wanted.len() && dns_laws::equal_but_for_the_id(#[trigger] wanted[a], records[j]);
    let names = config::names(goal.services);
    order::law_ascending_lists::<String>(goal.services.dom());
    service_laws::law_declared_record_is_the_service(
        goal.proxy_host,
        goal.zone,
        goal.services,
        certificate,
        a,
    );
    assert(names.contains(names[a]));
    assert(goal.services.dom().contains(names[a]));
}

proof fn lemma_host_is_of_a_service(
    goal: Goal,
    certificate: Option<CertificateRef>,
    held: Holdings,
    ids: spec_fn(int) -> Seq<char>,
    hosts: Seq<ProxyHostView>,
    k: int,
)
    requires
        goal.services.dom().finite(),
        proxy_laws::sound_hosts(held.hosts.to_set()),
        proxy_laws::fresh_host_ids(held.hosts.to_set(), ids),
        hosts.to_set() == proxy_laws::hosts_applied(
            held.hosts.to_set(),
            diff::proxy_diff(
                desired::declared_state(
                    goal.proxy_host,
                    goal.zone,
                    goal.services,
                    certificate,
                ).proxy_hosts,
                held.hosts,
            ),
            ids,
        ),
        0 <= k < hosts.len(),
        hosts[k].domains.len() > 0,
    ensures
        exists|n: Seq<char>| #[trigger]
            goal.services.dom().contains(n) && hosts[k].domains == seq![goal.services[n].domain],
{
    let wanted = desired::declared_state(
        goal.proxy_host,
        goal.zone,
        goal.services,
        certificate,
    ).proxy_hosts;
    proxy_laws::law_applied_host_equals_a_desired_one(wanted, held.hosts, ids, hosts, k);
    let b = choose|b: int|
        0 <= b < wanted.len() && proxy_laws::equal_but_for_the_id(#[trigger] wanted[b], hosts[k]);
    let names = config::names(goal.services);
    order::law_ascending_lists::<String>(goal.services.dom());
    service_laws::law_declared_host_is_the_service(
        goal.proxy_host,
        goal.zone,
        goal.services,
        certificate,
        b,
    );
    assert(names.contains(names[b]));
    assert(goal.services.dom().contains(names[b]));
}

/// Whether a run ended well, from sound holdings, and what it applied led to these
/// records and hosts.
pub open spec fn run_ended_well(
    goal: Goal,
    propagation_seconds: Option<u32>,
    offered: Option<Dns01ProviderConfigView>,
    held: Holdings,
    record_ids: spec_fn(int) -> Seq<char>,
    host_ids: spec_fn(int) -> Seq<char>,
    records: Seq<DnsRecordView>,
    hosts: Seq<ProxyHostView>,
) -> bool {
    let first = run::first_stage(goal, propagation_seconds, offered);
    let journey = run_laws::journey(goal, first->Ok_0, held);
    &&& first is Ok
    &&& journey.1 is Ok
    &&& dns_laws::sound_zone(held.records.to_set())
    &&& dns_laws::fresh_record_ids(held.records.to_set(), record_ids)
    &&& proxy_laws::sound_hosts(held.hosts.to_set())
    &&& proxy_laws::fresh_host_ids(held.hosts.to_set(), host_ids)
    &&& records.to_set() == dns_laws::records_applied(
        held.records.to_set(),
        run_laws::dns_changes_among(journey.0),
        record_ids,
    )
    &&& hosts.to_set() == proxy_laws::hosts_applied(
        held.hosts.to_set(),
        run_laws::proxy_changes_among(journey.0),
        host_ids,
    )
}

/// The certificate that TLS services are served with after a run.
spec fn run_certificate(
    goal: Goal,
    dns01: Option<Dns01ProviderConfigView>,
    held: Holdings,
) -> Option<CertificateRef> {
    match run_laws::certificate_outcome(goal, dns01, held)->Ok_0 {
        Some(id) => Some(CertificateRef { id: desired::certificate_number(id)->0 as u32 }),
        None => None,
    }
}

proof fn lemma_run_state(
    goal: Goal,
    propagation_seconds: Option<u32>,
    offered: Option<Dns01ProviderConfigView>,
    held: Holdings,
    record_ids: spec_fn(int) -> Seq<char>,
    host_ids: spec_fn(int) -> Seq<char>,
    records: Seq<DnsRecordView>,
    hosts: Seq<ProxyHostView>,
)
    requires
        goal.services.dom().finite(),
        run_ended_well(
            goal,
            propagation_seconds,
            offered,
            held,
            record_ids,
            host_ids,
            records,
            hosts,
        ),
    ensures
        ({
            let dns01 = run::dns01_of(propagation_seconds, goal.services, offered)->Ok_0;
            let state = run_laws::run_state(goal, dns01, held)->Ok_0;
            &&& super::valid(goal.proxy_host, goal.zone, goal.services)
            &&& run_laws::run_state(goal, dns01, held) is Ok
            &&& state == desired::declared_state(
                goal.proxy_host,
                goal.zone,
                goal.services,
                run_certificate(goal, dns01, held),
            )
            &&& desired::any_tls(goal.services) ==> run_certificate(goal, dns01, held) is Some
            &&& records.to_set() == dns_laws::records_applied(
                held.records.to_set(),
                diff::dns_diff(state.dns_records, held.records),
                record_ids,
            )
            &&& hosts.to_set() == proxy_laws::hosts_applied(
                held.hosts.to_set(),
                diff::proxy_diff(state.proxy_hosts, held.hosts),
                host_ids,
            )
        }),
{
    let dns01 = run::dns01_of(propagation_seconds, goal.services, offered)->Ok_0;
    super::law_valid_means_no_fault(goal.proxy_host, goal.zone, goal.services);
    run_laws::law_run(goal, propagation_seconds, offered, held);
    let state = run_laws::run_state(goal, dns01, held)->Ok_0;
    run_laws::lemma_changes_of_run(goal, dns01, state, held);
}

proof fn lemma_other_domains(goal: Goal, i: int)
    requires
        goal.services.dom().finite(),
        super::valid(goal.proxy_host, goal.zone, goal.services),
        0 <= i < config::names(goal.services).len(),
    ensures
        forall|k: int|
            i < k < config::names(goal.services).len() ==> goal.services[
                #[trigger] config::names(goal.services)[k]
            ].domain != goal.services[config::names(goal.services)[i]].domain,
{
    let names = config::names(goal.services);
    order::law_ascending_lists::<String>(goal.services.dom());
    assert forall|k: int| i < k < names.len() implies goal.services[
        #[trigger] names[k]
    ].domain != goal.services[names[i]].domain by {
        assert(<String as order::MapKey>::before(names[i], names[k]));
        order::law_text_order(names[i], names[i], names[i]);
        assert(names.contains(names[i]));
        assert(names.contains(names[k]));
        assert(goal.services.dom().contains(names[i]));
        assert(goal.services.dom().contains(names[k]));
    }
}

/// The plan of a valid configuration holds the changes from the actual records and
/// hosts to those of the services, and the order of the wildcard certificate
/// exactly where some service wants TLS and there is no such certificate. Until it
/// is there, its number is taken for 0.
pub proof fn law_plan_leads_to_the_services(
    proxy_host: Seq<char>,
    zone: Seq<char>,
    services: Map<Seq<char>, ServiceConfigView>,
    certificates: Seq<CertificateView>,
    records: Seq<DnsRecordView>,
    hosts: Seq<ProxyHostView>,
    at: int,
    number: u32,
)
    requires
        services.dom().finite(),
        super::valid(proxy_host, zone, services),
        vstd::utf8::is_ascii_chars(zone),
        forall|i: int, j: int|
            0 <= i < certificates.len() && 0 <= j < certificates[i].domains.len()
                ==> vstd::utf8::is_ascii_chars(#[trigger] certificates[i].domains[j]),
        0 <= at <= certificates.len(),
        forall|i: int|
            0 <= i < at ==> !diff::for_domains(#[trigger] certificates[i], seq!["*."@ + zone]),
        at < certificates.len() ==> diff::for_domains(certificates[at], seq!["*."@ + zone])
            && certificates[at].id == Some(text::decimal(number as nat)),
    ensures
        ({
            let made = plan::full_plan(proxy_host, zone, services, certificates, records, hosts);
            let tls = exists|n: Seq<char>| #[trigger]
                services.dom().contains(n) && services[n].tls;
            let used = if at < certificates.len() {
                Some(CertificateRef { id: number })
            } else {
                Some(CertificateRef { id: 0 })
            };
            let state = desired::declared_state(proxy_host, zone, services, used);
            &&& made is Ok
            &&& made->Ok_0.dns_changes == diff::dns_diff(state.dns_records, records)
            &&& made->Ok_0.proxy_changes == diff::proxy_diff(state.proxy_hosts, hosts)
            &&& !tls || at < certificates.len() ==> made->Ok_0.certificate_changes.len() == 0
            &&& tls && at == certificates.len() ==> {
                &&& made->Ok_0.certificate_changes.len() == 1
                &&& made->Ok_0.certificate_changes[0] is Create
                &&& made->Ok_0.certificate_changes[0]->Create_0.domains == seq!["*."@ + zone]
            }
            &&& made->Ok_0.total() == made->Ok_0.dns_changes.len()
                + made->Ok_0.proxy_changes.len() + made->Ok_0.certificate_changes.len()
        }),
{
    let wanted = seq!["*."@ + zone];
    lemma_wildcard(zone);
    assert(vstd::utf8::is_ascii_chars(wanted[0]));
    super::law_valid_means_no_fault(proxy_host, zone, services);
    text::law_decimal_round_trip(number as nat, u32::MAX as nat);
    text::law_decimal_round_trip(0, u32::MAX as nat);
    reveal_strlit("0");
    assert("0"@ =~= text::decimal(0));
    lemma_ordered_or_not(zone, certificates, at);
    if at < certificates.len() {
        diff::law_found_certificate_is_for_the_domains(certificates, wanted, at);
    } else {
        diff::law_no_certificate_is_found_for_other_domains(certificates, wanted);
        if !desired::any_tls(services) {
            lemma_no_tls_no_certificate(proxy_host, zone, services, Some(CertificateRef { id: 0 }));
        }
    }
}

proof fn lemma_ordered_or_not(zone: Seq<char>, certificates: Seq<CertificateView>, at: int)
    requires
        vstd::utf8::is_ascii_chars(zone),
        forall|i: int, j: int|
            0 <= i < certificates.len() && 0 <= j < certificates[i].domains.len()
                ==> vstd::utf8::is_ascii_chars(#[trigger] certificates[i].domains[j]),
        0 <= at <= certificates.len(),
        forall|i: int|
            0 <= i < at ==> !diff::for_domains(#[trigger] certificates[i], seq!["*."@ + zone]),
        at < certificates.len() ==> diff::for_domains(certificates[at], seq!["*."@ + zone]),
    ensures
        ({
            let ordered = desired::wildcard_certificate_of(zone, None, None);
            let changes = diff::certificate_diff(seq![ordered], certificates);
            &&& at < certificates.len() ==> changes.len() == 0
            &&& at == certificates.len() ==> changes == seq![
                CertificateChangeView::Create(ordered),
            ]
            &&& diff::certificate_diff(Seq::empty(), certificates).len() == 0
        }),
{
    lemma_wildcard(zone);
    let ordered = desired::wildcard_certificate_of(zone, None, None);
    let none = Seq::<CertificateView>::empty();
    assert(vstd::utf8::is_ascii_chars(ordered.domains[0]));
    diff::law_missing_certificates_are_created(none, certificates, ordered);
    assert(none.push(ordered) =~= seq![ordered]);
    assert(Seq::<CertificateChangeView>::empty().push(CertificateChangeView::Create(ordered))
        =~= seq![CertificateChangeView::Create(ordered)]);
}

proof fn lemma_no_tls_no_certificate(
    proxy_host: Seq<char>,
    zone: Seq<char>,
    services: Map<Seq<char>, ServiceConfigView>,
    certificate: Option<CertificateRef>,
)
    requires
        services.dom().finite(),
        !desired::any_tls(services),
    ensures
        desired::declared_state(proxy_host, zone, services, certificate)
            == desired::declared_state(proxy_host, zone, services, None),
{
    let with = desired::declared_state(proxy_host, zone, services, certificate);
    let without = desired::declared_state(proxy_host, zone, services, None);
    order::law_ascending_lists::<String>(services.dom());
    let names = config::names(services);
    assert forall|i: int| 0 <= i < names.len() implies with.proxy_hosts[i]
        == without.proxy_hosts[i] by {
        assert(names.contains(names[i]));
        assert(services.dom().contains(names[i]));
    }
    assert(with.proxy_hosts =~= without.proxy_hosts);
    assert(with.dns_records =~= without.dns_records);
}

/// A change to a record is described by what is done, the kind, the name and the
/// value of the record, or its id where it goes, and the zone.
pub proof fn law_record_change_in_words(zone: Seq<char>, record: DnsRecordView, id: Seq<char>)
    ensures
        ({
            let kind = match record.record_type {
                DnsRecordType::A => "A "@,
                DnsRecordType::Aaaa => "AAAA "@,
                DnsRecordType::Cname => "CNAME "@,
                DnsRecordType::Txt => "TXT "@,
                DnsRecordType::Mx => "MX "@,
            };
            let rest = kind + record.name + " -> "@ + record.value + " in "@ + zone;
            &&& plan::dns_change_words(zone, DnsChangeView::Create(record)) == "create "@ + rest
            &&& plan::dns_change_words(zone, DnsChangeView::Update { id, record }) == "update "@
                + rest
            &&& plan::dns_change_words(zone, DnsChangeView::Delete { id }) == "delete record "@
                + id + " in "@ + zone
        }),
{
    reveal_strlit("A");
    reveal_strlit("AAAA");
    reveal_strlit("CNAME");
    reveal_strlit("TXT");
    reveal_strlit("MX");
    reveal_strlit("A ");
    reveal_strlit("AAAA ");
    reveal_strlit("CNAME ");
    reveal_strlit("TXT ");
    reveal_strlit("MX ");
    reveal_strlit(" ");
    let kind = match record.record_type {
        DnsRecordType::A => "A "@,
        DnsRecordType::Aaaa => "AAAA "@,
        DnsRecordType::Cname => "CNAME "@,
        DnsRecordType::Txt => "TXT "@,
        DnsRecordType::Mx => "MX "@,
    };
    assert(record.record_type.name() + " "@ =~= kind);
    let rest = kind + record.name + " -> "@ + record.value + " in "@ + zone;
    assert("create "@ + (kind + record.name + " -> "@ + record.value) + " in "@ + zone
        =~= "create "@ + rest);
    assert("update "@ + (kind + record.name + " -> "@ + record.value) + " in "@ + zone
        =~= "update "@ + rest);
}

/// A change to a host is described by what is done, the first domain, if there is
/// one, and the URL of the upstream, or its id where it goes.
pub proof fn law_host_change_in_words(host: ProxyHostView, id: Seq<char>)
    ensures
        ({
            let domain = if host.domains.len() > 0 {
                host.domains[0]
            } else {
                Seq::empty()
            };
            let scheme = match host.upstream.scheme {
                UpstreamScheme::Http => "http://"@,
                UpstreamScheme::Https => "https://"@,
            };
            let rest = domain + " -> "@ + scheme + host.upstream.host + ":"@ + text::decimal(
                host.upstream.port as nat,
            );
            &&& plan::proxy_change_words(ProxyChangeView::Create(host)) == "create "@ + rest
            &&& plan::proxy_change_words(ProxyChangeView::Update { id, host }) == "update "@ + rest
            &&& plan::proxy_change_words(ProxyChangeView::Delete { id }) == "delete host "@ + id
        }),
{
    reveal_strlit("http");
    reveal_strlit("https");
    reveal_strlit("://");
    reveal_strlit("http://");
    reveal_strlit("https://");
    let scheme = match host.upstream.scheme {
        UpstreamScheme::Http => "http://"@,
        UpstreamScheme::Https => "https://"@,
    };
    assert(host.upstream.scheme.name() + "://"@ =~= scheme);
    let domain = if host.domains.len() > 0 {
        host.domains[0]
    } else {
        Seq::empty()
    };
    let rest = domain + " -> "@ + scheme + host.upstream.host + ":"@ + text::decimal(
        host.upstream.port as nat,
    );
    assert(domain + " -> "@ + (scheme + host.upstream.host + ":"@ + text::decimal(
        host.upstream.port as nat,
    )) =~= rest);
}

/// What is pending is said with its number, and that there is nothing is said in
/// other words.
pub proof fn law_pending_changes_in_words(total: nat)
    ensures
        total > 0 ==> plan::pending_words(total) == text::decimal(total) + " change(s) pending."@,
        plan::pending_words(0) == "Everything is already in sync."@,
{
}

/// What a run works towards is what the configuration says: its zone, its proxy
/// host, its waiting time and the services.
pub proof fn law_goal_is_what_the_configuration_says(
    zone: String,
    api_token: String,
    propagation_seconds: Option<u32>,
    host: String,
    url: String,
    identity: String,
    secret: String,
    certificates: CertificateConfig,
    services: ServicesFile,
)
    ensures
        ({
            let config = Config {
                dns: DnsConfig::Cloudflare { zone, api_token, propagation_seconds },
                proxy: ProxyConfig::Npm { host, url, identity, secret },
                certificates,
            };
            let goal = run::goal(config, services);
            &&& goal.zone == zone@
            &&& goal.proxy_host == host@
            &&& goal.services == services@
            &&& run::propagation_of(config) == propagation_seconds
            &&& super::zone_of(config) == zone@
            &&& super::proxy_host_of(config) == host@
        }),
{
}

/// The plan for the records and the hosts holds their changes and none to the
/// certificates, and what is wrong with the configuration is passed on.
pub proof fn law_resource_plan_leaves_the_certificates(
    state: DesiredStateView,
    error: ReconcileErrorView,
    records: Seq<DnsRecordView>,
    hosts: Seq<ProxyHostView>,
)
    ensures
        ({
            let made = plan::resource_plan(Ok(state), records, hosts);
            &&& made is Ok
            &&& made->Ok_0.dns_changes == diff::dns_diff(state.dns_records, records)
            &&& made->Ok_0.proxy_changes == diff::proxy_diff(state.proxy_hosts, hosts)
            &&& made->Ok_0.certificate_changes.len() == 0
            &&& made->Ok_0.total() == made->Ok_0.dns_changes.len()
                + made->Ok_0.proxy_changes.len()
        }),
        plan::resource_plan(Err(error), records, hosts) == Err::<
            plan::ReconcilePlanView,
            ReconcileErrorView,
        >(error),
{
}

} // verus!
