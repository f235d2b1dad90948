//! The desired state that a configuration declares.

use super::{ReconcileError, ReconcileErrorView};
use crate::cert_provider::{
    Certificate, CertificateChallenge, CertificateChallengeView, CertificateId, CertificateMeta,
    CertificateView, Dns01Challenge, Dns01ChallengeView, MANAGED_CERTIFICATE_NAME_MARKER,
};
use crate::config::{
    Config, ServiceConfig, ServiceConfigView, ServicesFile, UpstreamSchemeConfig,
};
use crate::dns_provider::{
    Dns01ProviderConfig, Dns01ProviderConfigView, DnsRecord, DnsRecordView,
};
use crate::proxy_provider::{
    CertificateRef, ProxyHost, ProxyHostView, Upstream, UpstreamScheme, UpstreamView,
};
use crate::{address, cert_provider, config, dns_provider, proxy_provider, text};
use vstd::prelude::*;

verus! {

/// What the providers should hold.
#[derive(Debug, Clone, PartialEq, Eq)]
pub struct DesiredState {
    pub dns_records: Vec<DnsRecord>,
    pub proxy_hosts: Vec<ProxyHost>,
    pub certificates: Vec<Certificate>,
}

/// What a [`DesiredState`] holds.
pub struct DesiredStateView {
    pub dns_records: Seq<DnsRecordView>,
    pub proxy_hosts: Seq<ProxyHostView>,
    pub certificates: Seq<CertificateView>,
}

impl View for DesiredState {
    type V = DesiredStateView;

    open spec fn view(&self) -> DesiredStateView {
        DesiredStateView {
            dns_records: dns_provider::records_view(self.dns_records@),
            proxy_hosts: proxy_provider::hosts_view(self.proxy_hosts@),
            certificates: cert_provider::certificates_view(self.certificates@),
        }
    }
}

/// The domain of a certificate for all domains right below the zone.
pub open spec fn wildcard(zone: Seq<char>) -> Seq<char> {
    "*."@ + zone
}

/// The domain of a certificate for all domains right below the zone.
pub fn wildcard_domain(zone: &str) -> (r: String)
    ensures
        r@ == wildcard(zone@),
{
    text::join2("*.", zone)
}

/// What an optional DNS-01 configuration holds.
pub open spec fn opt_dns01(dns01: Option<Dns01ProviderConfig>) -> Option<Dns01ProviderConfigView> {
    match dns01 {
        Some(held) => Some(held@),
        None => None,
    }
}

/// The managed wildcard certificate of a zone.
pub open spec fn wildcard_certificate_of(
    zone: Seq<char>,
    dns01: Option<Dns01ProviderConfigView>,
    id: Option<Seq<char>>,
) -> CertificateView {
    CertificateView {
        id,
        name: Some(MANAGED_CERTIFICATE_NAME_MARKER@ + ":"@ + wildcard(zone)),
        meta: CertificateMeta { managed: true },
        domains: seq![wildcard(zone)],
        challenge: CertificateChallengeView::Dns01(
            match dns01 {
                Some(held) => Dns01ChallengeView {
                    provider: held.provider,
                    credentials: held.credentials,
                    propagation_seconds: held.propagation_seconds,
                },
                None => Dns01ChallengeView {
                    provider: Seq::empty(),
                    credentials: Seq::empty(),
                    propagation_seconds: None,
                },
            },
        ),
        expires_at: None,
    }
}

/// The managed wildcard certificate of a zone, to be ordered through its DNS.
pub fn wildcard_certificate(
    zone: &str,
    dns01: Option<Dns01ProviderConfig>,
    id: Option<CertificateId>,
) -> (r: Certificate)
    ensures
        r@ == wildcard_certificate_of(
            zone@,
            opt_dns01(dns01),
            cert_provider::opt_certificate_id(id),
        ),
{
    let domain = wildcard_domain(zone);
    let name = text::join3(MANAGED_CERTIFICATE_NAME_MARKER, ":", domain.as_str());
    let challenge = match dns01 {
        Some(held) => Dns01Challenge {
            provider: held.provider,
            credentials: held.credentials,
            propagation_seconds: held.propagation_seconds,
        },
        None => Dns01Challenge {
            provider: String::new(),
            credentials: String::new(),
            propagation_seconds: None,
        },
    };
    let mut domains: Vec<String> = Vec::new();
    domains.push(domain);
    assert(text::texts(domains@) =~= seq![wildcard(zone@)]);
    Certificate {
        id,
        name: Some(name),
        meta: CertificateMeta { managed: true },
        domains,
        challenge: CertificateChallenge::Dns01(challenge),
        expires_at: None,
    }
}

/// The certificate number that an id denotes.
pub open spec fn certificate_number(id: Seq<char>) -> Option<nat> {
    text::parsed_unsigned(id, u32::MAX as nat)
}

/// The reference to a certificate by its id, which has to be a number.
pub fn certificate_ref(id: &CertificateId) -> (r: Result<CertificateRef, ReconcileError>)
    ensures
        match certificate_number(id@) {
            Some(number) => r is Ok && r->Ok_0.id == number,
            None => r is Err && r->Err_0@ == ReconcileErrorView::InvalidConfig(
                "invalid NPM certificate id "@ + id@,
            ),
        },
{
    match text::parse_unsigned(id.0.as_str(), u32::MAX) {
        Some(number) => Ok(CertificateRef { id: number }),
        None => Err(
            ReconcileError::InvalidConfig(
                text::join2("invalid NPM certificate id ", id.0.as_str()),
            ),
        ),
    }
}

/// The protocol of an upstream, as a proxy is told.
pub open spec fn scheme_of(scheme: UpstreamSchemeConfig) -> UpstreamScheme {
    match scheme {
        UpstreamSchemeConfig::Http => UpstreamScheme::Http,
        UpstreamSchemeConfig::Https => UpstreamScheme::Https,
    }
}

/// The protocol of an upstream, as a proxy is told.
pub fn upstream_scheme(scheme: &UpstreamSchemeConfig) -> (r: UpstreamScheme)
    ensures
        r == scheme_of(*scheme),
{
    match scheme {
        UpstreamSchemeConfig::Http => UpstreamScheme::Http,
        UpstreamSchemeConfig::Https => UpstreamScheme::Https,
    }
}

/// The host that the DNS record of a service points to.
pub open spec fn dns_target(service: ServiceConfigView, proxy_host: Seq<char>) -> Seq<char> {
    match service.proxy_host {
        Some(host) => host,
        None => proxy_host,
    }
}

/// The host that the DNS record of a service points to.
pub fn service_dns_target<'a>(service: &'a ServiceConfig, proxy_host: &'a str) -> (r: &'a str)
    ensures
        r@ == dns_target(service@, proxy_host@),
{
    match &service.proxy_host {
        Some(host) => host.as_str(),
        None => proxy_host,
    }
}

/// The DNS record of a service.
pub open spec fn service_record(
    service: ServiceConfigView,
    proxy_host: Seq<char>,
) -> DnsRecordView {
    DnsRecordView {
        id: None,
        name: service.domain,
        record_type: address::target_type(dns_target(service, proxy_host)),
        value: dns_target(service, proxy_host),
        ttl: None,
    }
}

/// The proxy host of a service.
pub open spec fn service_host(
    service: ServiceConfigView,
    certificate: Option<CertificateRef>,
) -> ProxyHostView {
    ProxyHostView {
        id: None,
        domains: seq![service.domain],
        upstream: UpstreamView {
            scheme: scheme_of(service.upstream.scheme),
            host: service.upstream.host,
            port: service.upstream.port,
        },
        websocket: service.websocket,
        certificate: if service.tls {
            certificate
        } else {
            None
        },
        force_https: service.tls,
    }
}

/// Whether some service wants TLS.
pub open spec fn any_tls(services: Map<Seq<char>, ServiceConfigView>) -> bool {
    exists|n: Seq<char>| #[trigger] services.dom().contains(n) && services[n].tls
}

/// The state that a configuration without faults declares: one DNS record and
/// one proxy host for each service, in the order of their names, and the
/// wildcard certificate of the zone if some service wants TLS.
pub open spec fn declared_state(
    proxy_host: Seq<char>,
    zone: Seq<char>,
    services: Map<Seq<char>, ServiceConfigView>,
    certificate: Option<CertificateRef>,
) -> DesiredStateView {
    let names = config::names(services);
    DesiredStateView {
        dns_records: names.map_values(|n: Seq<char>| service_record(services[n], proxy_host)),
        proxy_hosts: names.map_values(|n: Seq<char>| service_host(services[n], certificate)),
        certificates: if any_tls(services) {
            seq![wildcard_certificate_of(zone, None, None)]
        } else {
            Seq::empty()
        },
    }
}

/// The desired state of a configuration, or what is wrong with it.
pub open spec fn desired_state(
    proxy_host: Seq<char>,
    zone: Seq<char>,
    services: Map<Seq<char>, ServiceConfigView>,
    certificate_id: Option<Seq<char>>,
) -> Result<DesiredStateView, ReconcileErrorView> {
    match super::config_fault(proxy_host, zone, services) {
        Some(fault) => Err(ReconcileErrorView::InvalidConfig(fault)),
        None => match certificate_id {
            None => Ok(declared_state(proxy_host, zone, services, None)),
            Some(id) => match certificate_number(id) {
                None => Err(
                    ReconcileErrorView::InvalidConfig("invalid NPM certificate id "@ + id),
                ),
                Some(number) => Ok(
                    declared_state(
                        proxy_host,
                        zone,
                        services,
                        Some(CertificateRef { id: number as u32 }),
                    ),
                ),
            },
        },
    }
}

/// What a computed desired state is.
pub open spec fn state_result(
    r: Result<DesiredState, ReconcileError>,
) -> Result<DesiredStateView, ReconcileErrorView> {
    match r {
        Ok(state) => Ok(state@),
        Err(error) => Err(error@),
    }
}

/// Whether some service wants TLS.
pub fn needs_tls(services: &ServicesFile) -> (r: bool)
    ensures
        r == any_tls(services@),
{
    let n: usize = services.len();
    let ghost names = config::names(services@);
    let mut i: usize = 0;
    while i < n
        invariant
            i <= n,
            n == names.len(),
            names == config::names(services@),
            forall|j: int| 0 <= j < i ==> !(#[trigger] services@[names[j]]).tls,
        decreases n - i,
    {
        let (_, service) = services.entry_at(i);
        if service.tls {
            assert(services@.dom().contains(names[i as int]) && services@[names[i as int]].tls);
            return true;
        }
        i = i + 1;
    }
    assert forall|m: Seq<char>| #[trigger] services@.dom().contains(m) implies !services@[m].tls by {
        assert(names.contains(m));
        let j = choose|j: int| 0 <= j < names.len() && names[j] == m;
        assert(!services@[names[j]].tls);
    }
    false
}

/// The desired state of the configuration. TLS services are served with the
/// certificate of the given id.
pub fn build_desired_state(
    config: &Config,
    services: &ServicesFile,
    wildcard_certificate_id: Option<CertificateId>,
) -> (r: Result<DesiredState, ReconcileError>)
    ensures
        state_result(r) == desired_state(
            super::proxy_host_of(*config),
            super::zone_of(*config),
            services@,
            cert_provider::opt_certificate_id(wildcard_certificate_id),
        ),
{
    match super::validate(config, services) {
        Ok(()) => {},
        Err(error) => {
            return Err(error);
        },
    }
    let zone = super::zone(config);
    let proxy_host = super::proxy_host(config);
    let certificate: Option<CertificateRef> = match &wildcard_certificate_id {
        Some(id) => match certificate_ref(id) {
            Ok(reference) => Some(reference),
            Err(error) => {
                return Err(error);
            },
        },
        None => None,
    };
    let n: usize = services.len();
    let ghost names = config::names(services@);
    let ghost want = declared_state(proxy_host@, zone@, services@, certificate);
    let mut dns_records: Vec<DnsRecord> = Vec::new();
    let mut proxy_hosts: Vec<ProxyHost> = Vec::new();
    let mut i: usize = 0;
    while i < n
        invariant
            i <= n,
            n == names.len(),
            names == config::names(services@),
            want == declared_state(proxy_host@, zone@, services@, certificate),
            dns_provider::records_view(dns_records@) == want.dns_records.take(i as int),
            proxy_provider::hosts_view(proxy_hosts@) == want.proxy_hosts.take(i as int),
        decreases n - i,
    {
        let (_, service) = services.entry_at(i);
        let target = service_dns_target(service, proxy_host);
        let record = DnsRecord {
            id: None,
            name: service.domain.clone(),
            record_type: address::dns_record_type(target),
            value: target.to_owned(),
            ttl: None,
        };
        let mut domains: Vec<String> = Vec::new();
        domains.push(service.domain.clone());
        assert(text::texts(domains@) =~= seq![service.domain@]);
        let host = ProxyHost {
            id: None,
            domains,
            upstream: Upstream {
                scheme: upstream_scheme(&service.upstream.scheme),
                host: service.upstream.host.clone(),
                port: service.upstream.port,
            },
            websocket: service.websocket,
            certificate: if service.tls {
                certificate
            } else {
                None
            },
            force_https: service.tls,
        };
        assert(record@ == want.dns_records[i as int]);
        assert(host@ == want.proxy_hosts[i as int]);
        let ghost records_before = dns_records@;
        let ghost hosts_before = proxy_hosts@;
        dns_records.push(record);
        proxy_hosts.push(host);
        assert(dns_provider::records_view(dns_records@) =~= dns_provider::records_view(
            records_before,
        ).push(record@));
        assert(proxy_provider::hosts_view(proxy_hosts@) =~= proxy_provider::hosts_view(
            hosts_before,
        ).push(host@));
        assert(want.dns_records.take(i + 1) =~= want.dns_records.take(i as int).push(record@));
        assert(want.proxy_hosts.take(i + 1) =~= want.proxy_hosts.take(i as int).push(host@));
        i = i + 1;
    }
    assert(want.dns_records.take(n as int) =~= want.dns_records);
    assert(want.proxy_hosts.take(n as int) =~= want.proxy_hosts);
    let mut certificates: Vec<Certificate> = Vec::new();
    if needs_tls(services) {
        certificates.push(wildcard_certificate(zone, None, None));
    }
    assert(cert_provider::certificates_view(certificates@) =~= want.certificates);
    Ok(DesiredState { dns_records, proxy_hosts, certificates })
}

} // verus!
