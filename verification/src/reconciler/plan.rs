//! The changes that are pending, and how they are shown.

use super::{DesiredStateView, ReconcileError, ReconcileErrorView};
use crate::cert_provider::{
    Certificate, CertificateChange, CertificateChangeView, CertificateId, CertificateView,
};
use crate::config::{Config, ServiceConfigView, ServicesFile};
use crate::dns_provider::{DnsChange, DnsChangeView, DnsRecord, DnsRecordView};
use crate::proxy_provider::{
    ProxyChange, ProxyChangeView, ProxyHost, ProxyHostView, UpstreamView,
};
use crate::reconciler::{desired, diff};
use crate::{cert_provider, dns_provider, proxy_provider, text};
use vstd::prelude::*;
use vstd::string::StringExecFns;

verus! {

/// The changes that lead to the desired state.
#[derive(Debug, Clone, PartialEq, Eq)]
pub struct ReconcilePlan {
    pub dns_changes: Vec<DnsChange>,
    pub proxy_changes: Vec<ProxyChange>,
    pub certificate_changes: Vec<CertificateChange>,
}

/// What a [`ReconcilePlan`] asks for.
pub struct ReconcilePlanView {
    pub dns_changes: Seq<DnsChangeView>,
    pub proxy_changes: Seq<ProxyChangeView>,
    pub certificate_changes: Seq<CertificateChangeView>,
}

impl View for ReconcilePlan {
    type V = ReconcilePlanView;

    open spec fn view(&self) -> ReconcilePlanView {
        ReconcilePlanView {
            dns_changes: dns_provider::dns_changes_view(self.dns_changes@),
            proxy_changes: proxy_provider::proxy_changes_view(self.proxy_changes@),
            certificate_changes: cert_provider::certificate_changes_view(self.certificate_changes@),
        }
    }
}

impl ReconcilePlanView {
    /// The number of changes.
    pub open spec fn total(self) -> nat {
        self.dns_changes.len() + self.proxy_changes.len() + self.certificate_changes.len()
    }
}

impl ReconcilePlan {
    /// The number of changes.
    pub fn total(&self) -> (r: usize)
        requires
            self@.total() <= usize::MAX,
        ensures
            r == self@.total(),
    {
        self.dns_changes.len() + self.proxy_changes.len() + self.certificate_changes.len()
    }
}

/// What a computed plan is.
pub open spec fn plan_result(
    r: Result<ReconcilePlan, ReconcileError>,
) -> Result<ReconcilePlanView, ReconcileErrorView> {
    match r {
        Ok(plan) => Ok(plan@),
        Err(error) => Err(error@),
    }
}

/// The changes to the records and the hosts.
pub open spec fn resource_plan(
    desired: Result<DesiredStateView, ReconcileErrorView>,
    records: Seq<DnsRecordView>,
    hosts: Seq<ProxyHostView>,
) -> Result<ReconcilePlanView, ReconcileErrorView> {
    match desired {
        Err(error) => Err(error),
        Ok(state) => Ok(
            ReconcilePlanView {
                dns_changes: diff::dns_diff(state.dns_records, records),
                proxy_changes: diff::proxy_diff(state.proxy_hosts, hosts),
                certificate_changes: Seq::empty(),
            },
        ),
    }
}

/// The changes that lead from the actual records and hosts to the desired ones,
/// where TLS services are served with the certificate of the given id.
pub fn plan_reconcile(
    config: &Config,
    services: &ServicesFile,
    records: &[DnsRecord],
    hosts: &[ProxyHost],
    certificate_id: Option<CertificateId>,
) -> (r: Result<ReconcilePlan, ReconcileError>)
    ensures
        plan_result(r) == resource_plan(
            desired::desired_state(
                super::proxy_host_of(*config),
                super::zone_of(*config),
                services@,
                cert_provider::opt_certificate_id(certificate_id),
            ),
            dns_provider::records_view(records@),
            proxy_provider::hosts_view(hosts@),
        ),
{
    match desired::build_desired_state(config, services, certificate_id) {
        Ok(state) => {
            let plan = ReconcilePlan {
                dns_changes: diff::diff_dns_records(state.dns_records.as_slice(), records),
                proxy_changes: diff::diff_proxy_hosts(state.proxy_hosts.as_slice(), hosts),
                certificate_changes: Vec::new(),
            };
            assert(plan@.certificate_changes =~= Seq::empty());
            Ok(plan)
        },
        Err(error) => Err(error),
    }
}

/// The id of the certificate that TLS services will be served with: that of the
/// wildcard certificate, or a placeholder where it is still to be created.
pub open spec fn planned_certificate_id(
    zone: Seq<char>,
    services: Map<Seq<char>, ServiceConfigView>,
    certificates: Seq<CertificateView>,
) -> Option<Seq<char>> {
    match diff::certificate_id_for(certificates, seq![desired::wildcard(zone)]) {
        Some(id) => Some(id),
        None => if desired::any_tls(services) {
            Some("0"@)
        } else {
            None
        },
    }
}

/// All changes that lead to the desired state, or why there is none.
pub open spec fn full_plan(
    proxy_host: Seq<char>,
    zone: Seq<char>,
    services: Map<Seq<char>, ServiceConfigView>,
    certificates: Seq<CertificateView>,
    records: Seq<DnsRecordView>,
    hosts: Seq<ProxyHostView>,
) -> Result<ReconcilePlanView, ReconcileErrorView> {
    match resource_plan(
        desired::desired_state(
            proxy_host,
            zone,
            services,
            planned_certificate_id(zone, services, certificates),
        ),
        records,
        hosts,
    ) {
        Err(error) => Err(error),
        Ok(plan) => Ok(
            ReconcilePlanView {
                certificate_changes: diff::certificate_diff(
                    desired::declared_state(proxy_host, zone, services, None).certificates,
                    certificates,
                ),
                ..plan
            },
        ),
    }
}

/// All changes that lead from what the providers hold to the desired state.
pub fn build_plan(
    config: &Config,
    services: &ServicesFile,
    certificates: &[Certificate],
    records: &[DnsRecord],
    hosts: &[ProxyHost],
) -> (r: Result<ReconcilePlan, ReconcileError>)
    ensures
        plan_result(r) == full_plan(
            super::proxy_host_of(*config),
            super::zone_of(*config),
            services@,
            cert_provider::certificates_view(certificates@),
            dns_provider::records_view(records@),
            proxy_provider::hosts_view(hosts@),
        ),
{
    let certificate_id = match diff::existing_wildcard_certificate_id(
        super::zone(config),
        certificates,
    ) {
        Some(id) => Some(id),
        None => if desired::needs_tls(services) {
            Some(CertificateId("0".to_owned()))
        } else {
            None
        },
    };
    let plan = match plan_reconcile(config, services, records, hosts, certificate_id) {
        Ok(plan) => plan,
        Err(error) => {
            return Err(error);
        },
    };
    match desired::build_desired_state(config, services, None) {
        Ok(state) => Ok(
            ReconcilePlan {
                dns_changes: plan.dns_changes,
                proxy_changes: plan.proxy_changes,
                certificate_changes: diff::diff_certificates(
                    state.certificates.as_slice(),
                    certificates,
                ),
            },
        ),
        Err(error) => Err(error),
    }
}

/// A record in words.
pub open spec fn record_words(record: DnsRecordView) -> Seq<char> {
    record.record_type.name() + " "@ + record.name + " -> "@ + record.value
}

/// A change to a record of a zone, in words.
pub open spec fn dns_change_words(zone: Seq<char>, change: DnsChangeView) -> Seq<char> {
    match change {
        DnsChangeView::Create(record) => "create "@ + record_words(record) + " in "@ + zone,
        DnsChangeView::Update { record, .. } => "update "@ + record_words(record) + " in "@ + zone,
        DnsChangeView::Delete { id } => "delete record "@ + id + " in "@ + zone,
    }
}

fn describe_record(verb: &str, record: &DnsRecord) -> (r: String)
    ensures
        r@ == verb@ + record_words(record@),
{
    let mut out = text::join3(verb, record.record_type.as_name(), " ");
    out.append(record.name.as_str());
    out.append(" -> ");
    out.append(record.value.as_str());
    assert(out@ =~= verb@ + record_words(record@));
    out
}

/// A change to a record of the zone, in words.
pub fn describe_dns_change(zone: &str, change: &DnsChange) -> (r: String)
    ensures
        r@ == dns_change_words(zone@, change@),
{
    let mut out = match change {
        DnsChange::Create(record) => describe_record("create ", record),
        DnsChange::Update { record, .. } => describe_record("update ", record),
        DnsChange::Delete { id } => text::join2("delete record ", id.0.as_str()),
    };
    out.append(" in ");
    out.append(zone);
    out
}

/// An upstream as a URL.
pub open spec fn upstream_url(upstream: UpstreamView) -> Seq<char> {
    upstream.scheme.name() + "://"@ + upstream.host + ":"@ + text::decimal(
        upstream.port as nat,
    )
}

/// A host in words: its first domain and where its requests go.
pub open spec fn host_words(host: ProxyHostView) -> Seq<char> {
    (if host.domains.len() > 0 {
        host.domains[0]
    } else {
        Seq::empty()
    }) + " -> "@ + upstream_url(host.upstream)
}

/// A change to a host, in words.
pub open spec fn proxy_change_words(change: ProxyChangeView) -> Seq<char> {
    match change {
        ProxyChangeView::Create(host) => "create "@ + host_words(host),
        ProxyChangeView::Update { host, .. } => "update "@ + host_words(host),
        ProxyChangeView::Delete { id } => "delete host "@ + id,
    }
}

fn describe_host(verb: &str, host: &ProxyHost) -> (r: String)
    ensures
        r@ == verb@ + host_words(host@),
{
    let mut out = verb.to_owned();
    if let Some(domain) = diff::primary_domain(host) {
        out.append(domain.as_str());
    }
    out.append(" -> ");
    out.append(host.upstream.scheme.as_name());
    out.append("://");
    out.append(host.upstream.host.as_str());
    out.append(":");
    out.append(text::to_decimal(host.upstream.port as u128).as_str());
    assert(out@ =~= verb@ + host_words(host@));
    out
}

/// A change to a host, in words.
pub fn describe_proxy_change(change: &ProxyChange) -> (r: String)
    ensures
        r@ == proxy_change_words(change@),
{
    match change {
        ProxyChange::Create(host) => describe_host("create ", host),
        ProxyChange::Update { host, .. } => describe_host("update ", host),
        ProxyChange::Delete { id } => text::join2("delete host ", id.0.as_str()),
    }
}

/// How many certificates will change, in words.
pub fn describe_certificate_changes(count: usize) -> (r: String)
    ensures
        r@ == text::decimal(count as nat) + " certificate change(s)"@,
{
    text::join2(text::to_decimal(count as u128).as_str(), " certificate change(s)")
}

/// What is left to do, in words.
pub open spec fn pending_words(total: nat) -> Seq<char> {
    if total == 0 {
        "Everything is already in sync."@
    } else {
        text::decimal(total) + " change(s) pending."@
    }
}

/// What is left to do, in words.
pub fn describe_pending(total: usize) -> (r: String)
    ensures
        r@ == pending_words(total as nat),
{
    if total == 0 {
        "Everything is already in sync.".to_owned()
    } else {
        text::join2(text::to_decimal(total as u128).as_str(), " change(s) pending.")
    }
}

} // verus!
