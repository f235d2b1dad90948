//! What the desired state means for the services.

use crate::config::ServiceConfigView;
use crate::dns_provider::Dns01ProviderConfigView;
use crate::proxy_provider::CertificateRef;
use crate::reconciler::{desired, diff, dns_laws, proxy_laws};
use crate::{address, config, dns_provider, order, text, text_laws};
use vstd::prelude::*;

verus! {

/// Every service of a configuration without faults is published under its
/// domain, which lies in the zone: its record and its host are in the desired
/// state, and no other service takes their place.
pub proof fn law_every_service_is_published(
    proxy_host: Seq<char>,
    zone: Seq<char>,
    services: Map<Seq<char>, ServiceConfigView>,
    certificate: Option<CertificateRef>,
    name: Seq<char>,
)
    requires
        services.dom().finite(),
        super::valid(proxy_host, zone, services),
        services.dom().contains(name),
    ensures
        ({
            let state = desired::declared_state(proxy_host, zone, services, certificate);
            let record = desired::service_record(services[name], proxy_host);
            let host = desired::service_host(services[name], certificate);
            let records = diff::records_by_key(state.dns_records);
            let hosts = diff::hosts_by_domain(state.proxy_hosts);
            &&& records.dom().contains(dns_provider::record_key(record))
            &&& records[dns_provider::record_key(record)] == record
            &&& hosts.dom().contains(services[name].domain)
            &&& hosts[services[name].domain] == host
            &&& super::in_zone(record.name, zone)
        }),
{
    let state = desired::declared_state(proxy_host, zone, services, certificate);
    let names = config::names(services);
    order::law_ascending_lists::<String>(services.dom());
    assert(names.contains(name));
    let i = choose|i: int| 0 <= i < names.len() && names[i] == name;
    let record = desired::service_record(services[name], proxy_host);
    let host = desired::service_host(services[name], certificate);
    assert(state.dns_records[i] == record);
    assert(state.proxy_hosts[i] == host);
    dns_laws::lemma_by_key(state.dns_records);
    proxy_laws::lemma_by_domain(state.proxy_hosts);
    assert(proxy_laws::first_domain(state.proxy_hosts[i]) == Some(services[name].domain));
    let held = diff::records_by_key(state.dns_records)[dns_provider::record_key(record)];
    let j = choose|j: int| 0 <= j < state.dns_records.len() && state.dns_records[j] == held;
    assert(names.contains(names[j]));
    assert(services.dom().contains(names[j]));
    assert(held == desired::service_record(services[names[j]], proxy_host));
    let kept = diff::hosts_by_domain(state.proxy_hosts)[services[name].domain];
    let k = choose|k: int| 0 <= k < state.proxy_hosts.len() && state.proxy_hosts[k] == kept;
    assert(names.contains(names[k]));
    assert(services.dom().contains(names[k]));
    assert(kept == desired::service_host(services[names[k]], certificate));
}

/// The desired state holds one record and one host for each service and nothing
/// else. It holds one certificate, the wildcard certificate of the zone, if some
/// service wants TLS, and none otherwise. TLS services are served with the given
/// certificate and redirected to HTTPS, the others are not.
pub proof fn law_desired_state_covers_the_services(
    proxy_host: Seq<char>,
    zone: Seq<char>,
    services: Map<Seq<char>, ServiceConfigView>,
    certificate: Option<CertificateRef>,
)
    requires
        services.dom().finite(),
    ensures
        ({
            let state = desired::declared_state(proxy_host, zone, services, certificate);
            let names = config::names(services);
            &&& state.dns_records.len() == services.dom().len()
            &&& state.proxy_hosts.len() == services.dom().len()
            &&& state.certificates.len() == (if desired::any_tls(services) {
                1int
            } else {
                0int
            })
            &&& desired::any_tls(services) ==> state.certificates[0].domains
                == seq![desired::wildcard(zone)]
            &&& forall|i: int|
                0 <= i < names.len() ==> {
                    let host = #[trigger] state.proxy_hosts[i];
                    let service = services[names[i]];
                    &&& host.force_https == service.tls
                    &&& host.certificate == (if service.tls {
                        certificate
                    } else {
                        None
                    })
                }
        }),
{
    let names = config::names(services);
    order::law_ascending_lists::<String>(services.dom());
    assert forall|i: int, j: int| 0 <= i < names.len() && 0 <= j < names.len() && i
        != j implies names[i] != names[j] by {
        let (a, b) = if i < j {
            (i, j)
        } else {
            (j, i)
        };
        assert(<String as order::MapKey>::before(names[a], names[b]));
        order::law_text_order(names[a], names[a], names[a]);
    }
    assert(names.no_duplicates());
    names.unique_seq_to_set();
    assert(names.to_set() =~= services.dom());
}

/// The host of each service stands at its place in the desired state, with the
/// domain of the service and no other, the scheme, the host and the port of its
/// upstream, its websocket support, and the certificate and the redirection to
/// HTTPS exactly where the service wants TLS.
pub proof fn law_declared_host_is_the_service(
    proxy_host: Seq<char>,
    zone: Seq<char>,
    services: Map<Seq<char>, ServiceConfigView>,
    certificate: Option<CertificateRef>,
    i: int,
)
    requires
        0 <= i < config::names(services).len(),
    ensures
        ({
            let state = desired::declared_state(proxy_host, zone, services, certificate);
            let service = services[config::names(services)[i]];
            let host = state.proxy_hosts[i];
            &&& state.proxy_hosts.len() == config::names(services).len()
            &&& host.id is None
            &&& host.domains == seq![service.domain]
            &&& host.upstream.host == service.upstream.host
            &&& host.upstream.port == service.upstream.port
            &&& host.upstream.scheme is Https <==> service.upstream.scheme is Https
            &&& host.upstream.scheme is Http <==> service.upstream.scheme is Http
            &&& host.websocket == service.websocket
            &&& host.force_https == service.tls
            &&& service.tls ==> host.certificate == certificate
            &&& !service.tls ==> host.certificate is None
        }),
{
}

/// The record of each service stands at its place in the desired state, under the
/// domain of the service. It points to the host that the service names, or else
/// to the proxy host, as an address where that is one and as an alias where not.
pub proof fn law_declared_record_is_the_service(
    proxy_host: Seq<char>,
    zone: Seq<char>,
    services: Map<Seq<char>, ServiceConfigView>,
    certificate: Option<CertificateRef>,
    i: int,
)
    requires
        0 <= i < config::names(services).len(),
    ensures
        ({
            let state = desired::declared_state(proxy_host, zone, services, certificate);
            let service = services[config::names(services)[i]];
            let record = state.dns_records[i];
            &&& state.dns_records.len() == config::names(services).len()
            &&& record.id is None
            &&& record.name == service.domain
            &&& record.ttl is None
            &&& service.proxy_host is Some ==> record.value == service.proxy_host->0
            &&& service.proxy_host is None ==> record.value == proxy_host
            &&& record.record_type is A <==> address::is_ipv4(record.value)
            &&& record.record_type is Aaaa <==> address::is_ipv6(record.value)
                && !address::is_ipv4(record.value)
            &&& record.record_type is Cname <==> !address::is_ipv4(record.value)
                && !address::is_ipv6(record.value)
        }),
{
}

/// The one certificate that TLS services ask for is a new one for all domains
/// right below the zone, under a name that marks it as managed, to be ordered
/// through a DNS provider that is still to be named. Without TLS services there is
/// none.
pub proof fn law_declared_certificate_is_the_wildcard(
    proxy_host: Seq<char>,
    zone: Seq<char>,
    services: Map<Seq<char>, ServiceConfigView>,
    certificate: Option<CertificateRef>,
)
    ensures
        ({
            let wanted = desired::declared_state(
                proxy_host,
                zone,
                services,
                certificate,
            ).certificates;
            &&& (forall|n: Seq<char>| #[trigger] services.dom().contains(n) ==> !services[n].tls)
                ==> wanted.len() == 0
            &&& (exists|n: Seq<char>| #[trigger] services.dom().contains(n) && services[n].tls)
                ==> {
                &&& wanted.len() == 1
                &&& wanted[0].id is None
                &&& wanted[0].name == Some("managed-by:avel-pilot:*."@ + zone)
                &&& wanted[0].meta.managed
                &&& wanted[0].domains == seq!["*."@ + zone]
                &&& wanted[0].challenge is Dns01
                &&& wanted[0].challenge->Dns01_0.provider.len() == 0
                &&& wanted[0].challenge->Dns01_0.credentials.len() == 0
                &&& wanted[0].challenge->Dns01_0.propagation_seconds is None
                &&& wanted[0].expires_at is None
            }
        }),
{
    lemma_certificate_name(zone);
}

/// What the DNS provider says of itself is what the certificate is ordered with.
pub proof fn law_certificate_is_ordered_through_the_provider(
    zone: Seq<char>,
    dns01: Dns01ProviderConfigView,
    id: Option<Seq<char>>,
)
    ensures
        ({
            let certificate = desired::wildcard_certificate_of(zone, Some(dns01), id);
            &&& certificate.id == id
            &&& certificate.name == Some("managed-by:avel-pilot:*."@ + zone)
            &&& certificate.meta.managed
            &&& certificate.expires_at is None
            &&& certificate.domains == seq!["*."@ + zone]
            &&& certificate.challenge is Dns01
            &&& certificate.challenge->Dns01_0.provider == dns01.provider
            &&& certificate.challenge->Dns01_0.credentials == dns01.credentials
            &&& certificate.challenge->Dns01_0.propagation_seconds == dns01.propagation_seconds
        }),
{
    lemma_certificate_name(zone);
}

proof fn lemma_certificate_name(zone: Seq<char>)
    ensures
        "managed-by:avel-pilot"@ + ":"@ + ("*."@ + zone) == "managed-by:avel-pilot:*."@ + zone,
{
    reveal_strlit("managed-by:avel-pilot:*.");
    reveal_strlit("managed-by:avel-pilot");
    reveal_strlit(":");
    reveal_strlit("*.");
    assert("managed-by:avel-pilot"@ + ":"@ + ("*."@ + zone) =~= "managed-by:avel-pilot:*."@ + zone);
}

/// A valid configuration has a desired state, and TLS services are served with
/// the certificate of the number that the id denotes. An id that denotes none is
/// refused, and so is a configuration that is not valid.
pub proof fn law_desired_state_is_of_valid_configurations(
    proxy_host: Seq<char>,
    zone: Seq<char>,
    services: Map<Seq<char>, ServiceConfigView>,
    number: u32,
    word: Seq<char>,
)
    requires
        services.dom().finite(),
        text::parsed_unsigned(word, u32::MAX as nat) is None,
    ensures
        ({
            let without = desired::desired_state(proxy_host, zone, services, None);
            let with = desired::desired_state(
                proxy_host,
                zone,
                services,
                Some(text::decimal(number as nat)),
            );
            let wrong = desired::desired_state(proxy_host, zone, services, Some(word));
            &&& without is Ok <==> super::valid(proxy_host, zone, services)
            &&& with is Ok <==> super::valid(proxy_host, zone, services)
            &&& wrong is Err && wrong->Err_0 is InvalidConfig
            &&& super::valid(proxy_host, zone, services) ==> {
                &&& wrong->Err_0->InvalidConfig_0 == "invalid NPM certificate id "@ + word
                &&& without->Ok_0.proxy_hosts.len() == services.dom().len()
                &&& with->Ok_0.proxy_hosts.len() == services.dom().len()
                &&& forall|i: int|
                    0 <= i < services.dom().len() ==> {
                        let service = services[config::names(services)[i]];
                        &&& (#[trigger] with->Ok_0.proxy_hosts[i]).certificate == if service.tls {
                            Some(CertificateRef { id: number })
                        } else {
                            None
                        }
                    }
                &&& forall|i: int|
                    0 <= i < services.dom().len() ==> (#[trigger] without->Ok_0.proxy_hosts[i]).certificate
                        is None
            }
        }),
{
    super::law_valid_means_no_fault(proxy_host, zone, services);
    text::law_decimal_round_trip(number as nat, u32::MAX as nat);
    law_desired_state_covers_the_services(proxy_host, zone, services, None);
    law_desired_state_covers_the_services(
        proxy_host,
        zone,
        services,
        Some(CertificateRef { id: number }),
    );
}

/// The check of the configuration finds nothing exactly where the proxy host is
/// not empty, each service has a domain and an upstream host, the domain is the
/// zone itself or ends with a dot and the zone, and no two services have the same
/// domain.
pub proof fn law_fault_is_found_exactly_where_there_is_one(
    proxy_host: Seq<char>,
    zone: Seq<char>,
    services: Map<Seq<char>, ServiceConfigView>,
)
    requires
        services.dom().finite(),
    ensures
        super::config_fault(proxy_host, zone, services) is None <==> {
            &&& text::trimmed(proxy_host).len() > 0
            &&& forall|n: Seq<char>| #[trigger]
                services.dom().contains(n) ==> {
                    &&& text::trimmed(services[n].domain).len() > 0
                    &&& text::trimmed(services[n].upstream.host).len() > 0
                    &&& below(services[n].domain, zone)
                }
            &&& forall|m: Seq<char>, n: Seq<char>| #[trigger]
                services.dom().contains(m) && #[trigger] services.dom().contains(n)
                    && services[m].domain == services[n].domain ==> m == n
        },
{
    super::law_valid_means_no_fault(proxy_host, zone, services);
    text::law_blank_is_trimmed_empty(proxy_host);
    assert forall|n: Seq<char>| #[trigger] services.dom().contains(n) implies {
        &&& text::trimmed(services[n].domain).len() > 0 <==> !text::blank(services[n].domain)
        &&& text::trimmed(services[n].upstream.host).len() > 0 <==> !text::blank(
            services[n].upstream.host,
        )
        &&& below(services[n].domain, zone) <==> super::in_zone(services[n].domain, zone)
    } by {
        text::law_blank_is_trimmed_empty(services[n].domain);
        text::law_blank_is_trimmed_empty(services[n].upstream.host);
        text_laws::law_text_ends_with_its_tail(services[n].domain, "."@ + zone);
    }
}

/// Whether a domain is the zone, or something, a dot and the zone.
pub open spec fn below(domain: Seq<char>, zone: Seq<char>) -> bool {
    domain == zone || exists|front: Seq<char>| domain == #[trigger] (front + ("."@ + zone))
}

/// The fault that is reported is that of the first service, by name, that has
/// one. Of a service, an empty domain is reported before an empty upstream host,
/// that before a domain outside the zone, and that before a domain that an earlier
/// service has.
pub proof fn law_first_fault_is_reported(
    proxy_host: Seq<char>,
    zone: Seq<char>,
    services: Map<Seq<char>, ServiceConfigView>,
    at: int,
)
    requires
        0 <= at < config::names(services).len(),
        forall|i: int|
            0 <= i < at ==> {
                let service = #[trigger] services[config::names(services)[i]];
                &&& !text::blank(service.domain)
                &&& !text::blank(service.upstream.host)
                &&& super::in_zone(service.domain, zone)
            },
        forall|i: int, j: int|
            0 <= i < j < at ==> (#[trigger] services[config::names(services)[i]]).domain != (
            #[trigger] services[config::names(services)[j]]).domain,
    ensures
        ({
            let fault = super::config_fault(proxy_host, zone, services);
            let name = config::names(services)[at];
            let service = services[name];
            let repeated = exists|i: int|
                0 <= i < at && (#[trigger] services[config::names(services)[i]]).domain
                    == service.domain;
            if text::blank(proxy_host) {
                fault == Some("proxy.host is empty"@)
            } else if text::blank(service.domain) {
                fault == Some("service "@ + name + " has empty domain"@)
            } else if text::blank(service.upstream.host) {
                fault == Some("service "@ + name + " has empty upstream host"@)
            } else if !super::in_zone(service.domain, zone) {
                fault == Some(
                    "service "@ + name + " domain "@ + service.domain + " is outside zone "@ + zone,
                )
            } else {
                repeated ==> fault == Some("duplicate service domain "@ + service.domain)
            }
        }),
{
    let names = config::names(services);
    assert forall|i: int| 0 <= i < names.take(at).len() implies {
        let service = #[trigger] services[names.take(at)[i]];
        &&& !text::blank(service.domain)
        &&& !text::blank(service.upstream.host)
        &&& super::in_zone(service.domain, zone)
    } by {
        assert(services[names.take(at)[i]] == services[names[i]]);
    }
    assert forall|i: int, j: int| 0 <= i < j < names.take(at).len() implies (
    #[trigger] services[names.take(at)[i]]).domain != (
    #[trigger] services[names.take(at)[j]]).domain by {
        assert(services[names.take(at)[i]] == services[names[i]]);
        assert(services[names.take(at)[j]] == services[names[j]]);
    }
    lemma_no_fault_before(names.take(at), services, zone);
    assert(names.take(at + 1).drop_last() =~= names.take(at));
    let service = services[names[at]];
    let taken = super::domains_of(names.take(at), services);
    if exists|i: int| 0 <= i < at && (#[trigger] services[names[i]]).domain == service.domain {
        let i = choose|i: int|
            0 <= i < at && (#[trigger] services[names[i]]).domain == service.domain;
        assert(services[names.take(at)[i]].domain == service.domain);
        assert(taken.contains(service.domain));
    }
    if super::first_fault(names.take(at + 1), services, zone) is Some {
        super::lemma_fault_stays(names, at + 1, services, zone);
    }
}

proof fn lemma_no_fault_before(
    names: Seq<Seq<char>>,
    services: Map<Seq<char>, ServiceConfigView>,
    zone: Seq<char>,
)
    requires
        forall|i: int|
            0 <= i < names.len() ==> {
                let service = #[trigger] services[names[i]];
                &&& !text::blank(service.domain)
                &&& !text::blank(service.upstream.host)
                &&& super::in_zone(service.domain, zone)
            },
        forall|i: int, j: int|
            0 <= i < j < names.len() ==> (#[trigger] services[names[i]]).domain != (
            #[trigger] services[names[j]]).domain,
    ensures
        super::first_fault(names, services, zone) is None,
    decreases names.len(),
{
    if names.len() > 0 {
        let before = names.drop_last();
        assert forall|i: int| 0 <= i < before.len() implies {
            let service = #[trigger] services[before[i]];
            &&& !text::blank(service.domain)
            &&& !text::blank(service.upstream.host)
            &&& super::in_zone(service.domain, zone)
        } by {
            assert(services[before[i]] == services[names[i]]);
        }
        assert forall|i: int, j: int| 0 <= i < j < before.len() implies (
        #[trigger] services[before[i]]).domain != (#[trigger] services[before[j]]).domain by {
            assert(services[before[i]] == services[names[i]]);
            assert(services[before[j]] == services[names[j]]);
        }
        lemma_no_fault_before(before, services, zone);
        let last = services[names[names.len() - 1]];
        assert(last == services[names.last()]);
        if super::domains_of(before, services).contains(last.domain) {
            let i = choose|i: int|
                0 <= i < before.len() && (#[trigger] services[before[i]]).domain == last.domain;
            assert(services[before[i]] == services[names[i]]);
        }
    }
}

} // verus!
