//! The desired state of DNS, proxy and certificates, and the way to it.

use crate::cert_provider::{CertProviderError, CertProviderErrorView};
use crate::config::{
    Config, DnsConfig, ProxyConfig, ServiceConfig, ServiceConfigView, ServicesFile,
};
use crate::dns_provider::{DnsProviderError, DnsProviderErrorView};
use crate::proxy_provider::{ProxyError, ProxyErrorView};
use crate::{config, order, text};
use vstd::hash_set::StringHashSet;
use vstd::prelude::*;
use vstd::string::StringExecFns;

pub mod dns_laws;
pub mod desired;
pub mod diff;
pub mod diff_laws;
pub mod ownership_laws;
pub mod plan;
pub mod proxy_laws;
pub mod run;
pub mod run_laws;
pub mod service_laws;
pub mod step_laws;

pub use desired::{build_desired_state, DesiredState, DesiredStateView};
pub use diff::{
    diff_certificates, diff_dns_records, diff_proxy_hosts, existing_wildcard_certificate_id,
    find_certificate_id,
};
pub use plan::{
    build_plan, describe_dns_change, describe_proxy_change, plan_reconcile, ReconcilePlan,
    ReconcilePlanView,
};

verus! {

/// Why the desired state could not be reached.
#[derive(Debug, PartialEq, Eq)]
pub enum ReconcileError {
    InvalidConfig(String),
    Dns(DnsProviderError),
    Proxy(ProxyError),
    Certificate(CertProviderError),
}

/// What a [`ReconcileError`] reports.
pub enum ReconcileErrorView {
    InvalidConfig(Seq<char>),
    Dns(DnsProviderErrorView),
    Proxy(ProxyErrorView),
    Certificate(CertProviderErrorView),
}

impl View for ReconcileError {
    type V = ReconcileErrorView;

    open spec fn view(&self) -> ReconcileErrorView {
        match self {
            ReconcileError::InvalidConfig(reason) => ReconcileErrorView::InvalidConfig(reason@),
            ReconcileError::Dns(error) => ReconcileErrorView::Dns(error@),
            ReconcileError::Proxy(error) => ReconcileErrorView::Proxy(error@),
            ReconcileError::Certificate(error) => ReconcileErrorView::Certificate(error@),
        }
    }
}

impl ReconcileErrorView {
    /// The error in words.
    pub open spec fn text(self) -> Seq<char> {
        match self {
            ReconcileErrorView::InvalidConfig(reason) => "invalid config: "@ + reason,
            ReconcileErrorView::Dns(error) => "dns provider error: "@ + error.text(),
            ReconcileErrorView::Proxy(error) => "proxy provider error: "@ + error.text(),
            ReconcileErrorView::Certificate(error) => "certificate provider error: "@
                + error.text(),
        }
    }
}

impl ReconcileError {
    /// The error in words.
    pub fn message(&self) -> (r: String)
        ensures
            r@ == self@.text(),
    {
        match self {
            ReconcileError::InvalidConfig(reason) => text::join2(
                "invalid config: ",
                reason.as_str(),
            ),
            ReconcileError::Dns(error) => text::join2(
                "dns provider error: ",
                error.message().as_str(),
            ),
            ReconcileError::Proxy(error) => text::join2(
                "proxy provider error: ",
                error.message().as_str(),
            ),
            ReconcileError::Certificate(error) => text::join2(
                "certificate provider error: ",
                error.message().as_str(),
            ),
        }
    }
}

/// The zone that the configuration manages.
pub open spec fn zone_of(config: Config) -> Seq<char> {
    match config.dns {
        DnsConfig::Cloudflare { zone, .. } => zone@,
    }
}

/// The host that DNS records point to unless a service says otherwise.
pub open spec fn proxy_host_of(config: Config) -> Seq<char> {
    match config.proxy {
        ProxyConfig::Npm { host, .. } => host@,
    }
}

/// The zone that the configuration manages.
pub fn zone(config: &Config) -> (r: &str)
    ensures
        r@ == zone_of(*config),
{
    match &config.dns {
        DnsConfig::Cloudflare { zone, .. } => zone.as_str(),
    }
}

/// The host that DNS records point to unless a service says otherwise.
pub fn proxy_host(config: &Config) -> (r: &str)
    ensures
        r@ == proxy_host_of(*config),
{
    match &config.proxy {
        ProxyConfig::Npm { host, .. } => host.as_str(),
    }
}

/// Whether a domain is the zone itself or lies in it.
pub open spec fn in_zone(domain: Seq<char>, zone: Seq<char>) -> bool {
    domain == zone || text::ends_with_text(domain, "."@ + zone)
}

/// Whether the domain is the zone itself or lies in it.
pub fn domain_in_zone(domain: &str, zone: &str) -> (r: bool)
    ensures
        r == in_zone(domain@, zone@),
{
    text::text_eq(domain, zone) || text::ends_with(domain, text::join2(".", zone).as_str())
}

/// What is wrong with a service, if anything: an empty domain, an empty
/// upstream host, a domain outside the zone, or one that is taken.
pub open spec fn service_fault(
    name: Seq<char>,
    service: ServiceConfigView,
    zone: Seq<char>,
    taken: Set<Seq<char>>,
) -> Option<Seq<char>> {
    if text::blank(service.domain) {
        Some("service "@ + name + " has empty domain"@)
    } else if text::blank(service.upstream.host) {
        Some("service "@ + name + " has empty upstream host"@)
    } else if !in_zone(service.domain, zone) {
        Some("service "@ + name + " domain "@ + service.domain + " is outside zone "@ + zone)
    } else if taken.contains(service.domain) {
        Some("duplicate service domain "@ + service.domain)
    } else {
        None
    }
}

/// The domains of the named services.
pub open spec fn domains_of(
    names: Seq<Seq<char>>,
    services: Map<Seq<char>, ServiceConfigView>,
) -> Set<Seq<char>> {
    Set::new(
        |domain: Seq<char>|
            exists|i: int| 0 <= i < names.len() && (#[trigger] services[names[i]]).domain == domain,
    )
}

/// What is wrong with the first of the named services that has a fault, where
/// the domains of the services before it are taken.
pub open spec fn first_fault(
    names: Seq<Seq<char>>,
    services: Map<Seq<char>, ServiceConfigView>,
    zone: Seq<char>,
) -> Option<Seq<char>>
    decreases names.len(),
{
    if names.len() == 0 {
        None
    } else {
        match first_fault(names.drop_last(), services, zone) {
            Some(fault) => Some(fault),
            None => service_fault(
                names.last(),
                services[names.last()],
                zone,
                domains_of(names.drop_last(), services),
            ),
        }
    }
}

/// What is wrong with the configuration, if anything.
pub open spec fn config_fault(
    proxy_host: Seq<char>,
    zone: Seq<char>,
    services: Map<Seq<char>, ServiceConfigView>,
) -> Option<Seq<char>> {
    if text::blank(proxy_host) {
        Some("proxy.host is empty"@)
    } else {
        first_fault(config::names(services), services, zone)
    }
}

/// Checks one service, and adds its domain to the domains that are taken.
pub fn validate_service(
    name: &str,
    service: &ServiceConfig,
    zone: &str,
    domains: &mut StringHashSet,
) -> (r: Result<(), ReconcileError>)
    ensures
        match service_fault(name@, service@, zone@, old(domains)@) {
            None => r is Ok && final(domains)@ == old(domains)@.insert(service.domain@),
            Some(fault) => r is Err && r->Err_0@ == ReconcileErrorView::InvalidConfig(fault)
                && final(domains)@ == old(domains)@,
        },
{
    if text::is_blank(service.domain.as_str()) {
        return Err(
            ReconcileError::InvalidConfig(text::join3("service ", name, " has empty domain")),
        );
    }
    if text::is_blank(service.upstream.host.as_str()) {
        return Err(
            ReconcileError::InvalidConfig(
                text::join3("service ", name, " has empty upstream host"),
            ),
        );
    }
    if !domain_in_zone(service.domain.as_str(), zone) {
        let mut reason = text::join3("service ", name, " domain ");
        reason.append(service.domain.as_str());
        reason.append(" is outside zone ");
        reason.append(zone);
        return Err(ReconcileError::InvalidConfig(reason));
    }
    if domains.contains(service.domain.as_str()) {
        return Err(
            ReconcileError::InvalidConfig(
                text::join2("duplicate service domain ", service.domain.as_str()),
            ),
        );
    }
    domains.insert(service.domain.clone());
    Ok(())
}

/// Checks the configuration: the proxy host is not empty, and each service has
/// a domain of its own in the zone and an upstream host.
pub fn validate(config: &Config, services: &ServicesFile) -> (r: Result<(), ReconcileError>)
    ensures
        match config_fault(proxy_host_of(*config), zone_of(*config), services@) {
            None => r is Ok,
            Some(fault) => r is Err && r->Err_0@ == ReconcileErrorView::InvalidConfig(fault),
        },
{
    if text::is_blank(proxy_host(config)) {
        return Err(ReconcileError::InvalidConfig("proxy.host is empty".to_owned()));
    }
    let zone = zone(config);
    let mut domains = StringHashSet::new();
    let n: usize = services.len();
    let ghost names = config::names(services@);
    let mut i: usize = 0;
    assert(names.take(0) =~= Seq::<Seq<char>>::empty());
    assert(domains@ =~= domains_of(names.take(0), services@));
    while i < n
        invariant
            i <= n,
            n == names.len(),
            names == config::names(services@),
            zone@ == zone_of(*config),
            !text::blank(proxy_host_of(*config)),
            domains@ == domains_of(names.take(i as int), services@),
            first_fault(names.take(i as int), services@, zone@) is None,
        decreases n - i,
    {
        let (name, service) = services.entry_at(i);
        let ghost before = names.take(i as int);
        let ghost after = names.take(i + 1);
        assert(after.drop_last() =~= before);
        match validate_service(name.as_str(), service, zone, &mut domains) {
            Ok(()) => {},
            Err(error) => {
                proof {
                    lemma_fault_stays(names, i + 1, services@, zone@);
                }
                return Err(error);
            },
        }
        assert(domains@ =~= domains_of(after, services@)) by {
            assert forall|d: Seq<char>| domains_of(after, services@).contains(d)
                <==> domains_of(before, services@).contains(d) || d == service.domain@ by {
                if domains_of(after, services@).contains(d) {
                    let j = choose|j: int|
                        0 <= j < after.len() && (#[trigger] services@[after[j]]).domain == d;
                    if j < i {
                        assert(services@[before[j]].domain == d);
                    }
                }
                if domains_of(before, services@).contains(d) {
                    let j = choose|j: int|
                        0 <= j < before.len() && (#[trigger] services@[before[j]]).domain == d;
                    assert(services@[after[j]].domain == d);
                }
                if d == service.domain@ {
                    assert(services@[after[i as int]].domain == d);
                }
            }
        }
        i = i + 1;
    }
    assert(names.take(n as int) =~= names);
    Ok(())
}

pub(crate) proof fn lemma_fault_stays(
    names: Seq<Seq<char>>,
    k: int,
    services: Map<Seq<char>, ServiceConfigView>,
    zone: Seq<char>,
)
    requires
        0 <= k <= names.len(),
        first_fault(names.take(k), services, zone) is Some,
    ensures
        first_fault(names, services, zone) == first_fault(names.take(k), services, zone),
    decreases names.len() - k,
{
    if k == names.len() {
        assert(names.take(k) =~= names);
    } else {
        assert(names.take(k + 1).drop_last() =~= names.take(k));
        lemma_fault_stays(names, k + 1, services, zone);
    }
}

/// A configuration without faults: the proxy host is not empty, each service
/// has a domain in the zone and an upstream host, and no two services have the
/// same domain.
pub open spec fn valid(
    proxy_host: Seq<char>,
    zone: Seq<char>,
    services: Map<Seq<char>, ServiceConfigView>,
) -> bool {
    &&& !text::blank(proxy_host)
    &&& forall|n: Seq<char>| #[trigger]
        services.dom().contains(n) ==> {
            &&& !text::blank(services[n].domain)
            &&& !text::blank(services[n].upstream.host)
            &&& in_zone(services[n].domain, zone)
        }
    &&& forall|m: Seq<char>, n: Seq<char>| #[trigger]
        services.dom().contains(m) && #[trigger] services.dom().contains(n) && m != n
            ==> services[m].domain != services[n].domain
}

/// The check of the configuration finds a fault exactly where there is one.
pub proof fn law_valid_means_no_fault(
    proxy_host: Seq<char>,
    zone: Seq<char>,
    services: Map<Seq<char>, ServiceConfigView>,
)
    requires
        services.dom().finite(),
    ensures
        valid(proxy_host, zone, services) <==> config_fault(proxy_host, zone, services) is None,
{
    let names = config::names(services);
    order::law_ascending_lists::<String>(services.dom());
    assert forall|i: int| 0 <= i < names.len() implies services.dom().contains(
        #[trigger] names[i],
    ) by {
        assert(names.contains(names[i]));
    }
    if valid(proxy_host, zone, services) {
        lemma_valid_has_no_fault(names, services, zone);
    }
    if config_fault(proxy_host, zone, services) is None {
        lemma_no_fault_is_valid(names, services, zone);
        assert forall|n: Seq<char>| #[trigger] services.dom().contains(n) implies !text::blank(
            services[n].domain,
        ) && !text::blank(services[n].upstream.host) && in_zone(services[n].domain, zone) by {
            assert(names.contains(n));
        }
        assert forall|m: Seq<char>, n: Seq<char>| #[trigger]
            services.dom().contains(m) && #[trigger] services.dom().contains(n) && m
                != n implies services[m].domain != services[n].domain by {
            assert(names.contains(m));
            assert(names.contains(n));
            let i = choose|i: int| 0 <= i < names.len() && names[i] == m;
            let j = choose|j: int| 0 <= j < names.len() && names[j] == n;
            assert(services[names[i]].domain != services[names[j]].domain);
        }
    }
}

proof fn lemma_valid_has_no_fault(
    names: Seq<Seq<char>>,
    services: Map<Seq<char>, ServiceConfigView>,
    zone: Seq<char>,
)
    requires
        order::is_ascending::<String>(names),
        forall|i: int| 0 <= i < names.len() ==> services.dom().contains(#[trigger] names[i]),
        forall|n: Seq<char>| #[trigger]
            services.dom().contains(n) ==> {
                &&& !text::blank(services[n].domain)
                &&& !text::blank(services[n].upstream.host)
                &&& in_zone(services[n].domain, zone)
            },
        forall|m: Seq<char>, n: Seq<char>| #[trigger]
            services.dom().contains(m) && #[trigger] services.dom().contains(n) && m != n
                ==> services[m].domain != services[n].domain,
    ensures
        first_fault(names, services, zone) is None,
    decreases names.len(),
{
    if names.len() > 0 {
        let before = names.drop_last();
        assert forall|i: int| 0 <= i < before.len() implies services.dom().contains(
            #[trigger] before[i],
        ) by {
            assert(before[i] == names[i]);
        }
        lemma_valid_has_no_fault(before, services, zone);
        let last = names.last();
        assert(services.dom().contains(names[names.len() - 1]));
        if domains_of(before, services).contains(services[last].domain) {
            let i = choose|i: int|
                0 <= i < before.len() && (#[trigger] services[before[i]]).domain
                    == services[last].domain;
            assert(order::text_before(names[i], names[names.len() - 1]));
            order::law_text_order(last, last, last);
            assert(services.dom().contains(before[i]));
        }
    }
}

proof fn lemma_no_fault_is_valid(
    names: Seq<Seq<char>>,
    services: Map<Seq<char>, ServiceConfigView>,
    zone: Seq<char>,
)
    requires
        first_fault(names, services, zone) is None,
    ensures
        forall|i: int|
            0 <= i < names.len() ==> {
                let service = #[trigger] services[names[i]];
                &&& !text::blank(service.domain)
                &&& !text::blank(service.upstream.host)
                &&& in_zone(service.domain, zone)
            },
        forall|i: int, j: int|
            0 <= i < names.len() && 0 <= j < names.len() && i != j ==> (
            #[trigger] services[names[i]]).domain != (#[trigger] services[names[j]]).domain,
    decreases names.len(),
{
    if names.len() > 0 {
        let before = names.drop_last();
        lemma_no_fault_is_valid(before, services, zone);
        assert forall|i: int| 0 <= i < names.len() implies ({
            let service = #[trigger] services[names[i]];
            &&& !text::blank(service.domain)
            &&& !text::blank(service.upstream.host)
            &&& in_zone(service.domain, zone)
        }) by {
            if i < before.len() {
                assert(services[names[i]] == services[before[i]]);
            }
        }
        assert forall|i: int, j: int|
            0 <= i < names.len() && 0 <= j < names.len() && i != j implies (
        #[trigger] services[names[i]]).domain != (#[trigger] services[names[j]]).domain by {
            if i < before.len() {
                assert(services[names[i]] == services[before[i]]);
            }
            if j < before.len() {
                assert(services[names[j]] == services[before[j]]);
            }
        }
    }
}

} // verus!
