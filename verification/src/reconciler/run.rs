//! Reaching the desired state step by step.
//!
//! A [`Stage`] says which [`Action`] is due. Whoever performs the action hands
//! back the [`Event`] that came of it, and [`advance`] tells the next stage.

use super::{ReconcileError, ReconcileErrorView};
use crate::cert_provider::{
    CertProviderError, CertProviderErrorView, Certificate, CertificateChange,
    CertificateChangeView, CertificateId, CertificateView,
};
use crate::config::{Config, DnsConfig, ServiceConfigView, ServicesFile};
use crate::dns_provider::{
    Dns01ProviderConfig, Dns01ProviderConfigView, DnsChange, DnsChangeView, DnsProviderError,
    DnsProviderErrorView, DnsRecord, DnsRecordView,
};
use crate::proxy_provider::{
    ProxyChange, ProxyChangeView, ProxyError, ProxyErrorView, ProxyHost, ProxyHostView,
};
use crate::reconciler::{desired, diff};
use crate::{cert_provider, dns_provider, proxy_provider, text};
use vstd::prelude::*;

verus! {

/// What has to be done with a provider.
pub enum Action {
    ListCertificates,
    ApplyCertificate(CertificateChange),
    ListRecords,
    ApplyDns(DnsChange),
    ListHosts,
    ApplyProxy(ProxyChange),
    Done,
}

/// What came of an action.
pub enum Event {
    Certificates(Result<Vec<Certificate>, CertProviderError>),
    CertificateApplied(Result<(), CertProviderError>),
    Records(Result<Vec<DnsRecord>, DnsProviderError>),
    DnsApplied(Result<(), DnsProviderError>),
    Hosts(Result<Vec<ProxyHost>, ProxyError>),
    ProxyApplied(Result<(), ProxyError>),
}

/// How far the way to the desired state has been gone.
pub enum Stage {
    /// The wildcard certificate is looked for.
    FindCertificate { dns01: Dns01ProviderConfig },
    /// These changes are left to be made to the certificates.
    CreateCertificate { changes: Vec<CertificateChange> },
    /// The created wildcard certificate is looked for.
    ConfirmCertificate,
    /// The actual records are to be read.
    ReadRecords { records: Vec<DnsRecord>, hosts: Vec<ProxyHost> },
    /// These changes are left to be made to the records.
    ChangeRecords { changes: Vec<DnsChange>, hosts: Vec<ProxyHost> },
    /// The actual hosts are to be read.
    ReadHosts { hosts: Vec<ProxyHost> },
    /// These changes are left to be made to the hosts.
    ChangeHosts { changes: Vec<ProxyChange> },
    /// The desired state has been reached.
    Reached,
}

/// What an [`Action`] asks for.
pub enum ActionView {
    ListCertificates,
    ApplyCertificate(CertificateChangeView),
    ListRecords,
    ApplyDns(DnsChangeView),
    ListHosts,
    ApplyProxy(ProxyChangeView),
    Done,
}

/// What an [`Event`] reports.
pub enum EventView {
    Certificates(Result<Seq<CertificateView>, CertProviderErrorView>),
    CertificateApplied(Result<(), CertProviderErrorView>),
    Records(Result<Seq<DnsRecordView>, DnsProviderErrorView>),
    DnsApplied(Result<(), DnsProviderErrorView>),
    Hosts(Result<Seq<ProxyHostView>, ProxyErrorView>),
    ProxyApplied(Result<(), ProxyErrorView>),
}

/// What a [`Stage`] holds.
pub enum StageView {
    FindCertificate { dns01: Dns01ProviderConfigView },
    CreateCertificate { changes: Seq<CertificateChangeView> },
    ConfirmCertificate,
    ReadRecords { records: Seq<DnsRecordView>, hosts: Seq<ProxyHostView> },
    ChangeRecords { changes: Seq<DnsChangeView>, hosts: Seq<ProxyHostView> },
    ReadHosts { hosts: Seq<ProxyHostView> },
    ChangeHosts { changes: Seq<ProxyChangeView> },
    Reached,
}

impl View for Action {
    type V = ActionView;

    open spec fn view(&self) -> ActionView {
        match self {
            Action::ListCertificates => ActionView::ListCertificates,
            Action::ApplyCertificate(change) => ActionView::ApplyCertificate(change@),
            Action::ListRecords => ActionView::ListRecords,
            Action::ApplyDns(change) => ActionView::ApplyDns(change@),
            Action::ListHosts => ActionView::ListHosts,
            Action::ApplyProxy(change) => ActionView::ApplyProxy(change@),
            Action::Done => ActionView::Done,
        }
    }
}

impl View for Event {
    type V = EventView;

    open spec fn view(&self) -> EventView {
        match self {
            Event::Certificates(Ok(list)) => EventView::Certificates(
                Ok(cert_provider::certificates_view(list@)),
            ),
            Event::Certificates(Err(error)) => EventView::Certificates(Err(error@)),
            Event::CertificateApplied(Ok(_)) => EventView::CertificateApplied(Ok(())),
            Event::CertificateApplied(Err(error)) => EventView::CertificateApplied(Err(error@)),
            Event::Records(Ok(list)) => EventView::Records(Ok(dns_provider::records_view(list@))),
            Event::Records(Err(error)) => EventView::Records(Err(error@)),
            Event::DnsApplied(Ok(_)) => EventView::DnsApplied(Ok(())),
            Event::DnsApplied(Err(error)) => EventView::DnsApplied(Err(error@)),
            Event::Hosts(Ok(list)) => EventView::Hosts(Ok(proxy_provider::hosts_view(list@))),
            Event::Hosts(Err(error)) => EventView::Hosts(Err(error@)),
            Event::ProxyApplied(Ok(_)) => EventView::ProxyApplied(Ok(())),
            Event::ProxyApplied(Err(error)) => EventView::ProxyApplied(Err(error@)),
        }
    }
}

impl View for Stage {
    type V = StageView;

    open spec fn view(&self) -> StageView {
        match self {
            Stage::FindCertificate { dns01 } => StageView::FindCertificate { dns01: dns01@ },
            Stage::CreateCertificate { changes } => StageView::CreateCertificate {
                changes: cert_provider::certificate_changes_view(changes@),
            },
            Stage::ConfirmCertificate => StageView::ConfirmCertificate,
            Stage::ReadRecords { records, hosts } => StageView::ReadRecords {
                records: dns_provider::records_view(records@),
                hosts: proxy_provider::hosts_view(hosts@),
            },
            Stage::ChangeRecords { changes, hosts } => StageView::ChangeRecords {
                changes: dns_provider::dns_changes_view(changes@),
                hosts: proxy_provider::hosts_view(hosts@),
            },
            Stage::ReadHosts { hosts } => StageView::ReadHosts {
                hosts: proxy_provider::hosts_view(hosts@),
            },
            Stage::ChangeHosts { changes } => StageView::ChangeHosts {
                changes: proxy_provider::proxy_changes_view(changes@),
            },
            Stage::Reached => StageView::Reached,
        }
    }
}

/// The seconds that a change to the zone takes to be seen, as configured.
pub open spec fn propagation_of(config: Config) -> Option<u32> {
    match config.dns {
        DnsConfig::Cloudflare { propagation_seconds, .. } => propagation_seconds,
    }
}

/// What the certificate authority is told, if a certificate is needed at all:
/// what the DNS provider offers, with the configured waiting time.
pub open spec fn dns01_of(
    propagation_seconds: Option<u32>,
    services: Map<Seq<char>, ServiceConfigView>,
    offered: Option<Dns01ProviderConfigView>,
) -> Result<Option<Dns01ProviderConfigView>, ReconcileErrorView> {
    if !desired::any_tls(services) {
        Ok(None)
    } else {
        match offered {
            None => Err(
                ReconcileErrorView::InvalidConfig("DNS provider does not support DNS-01"@),
            ),
            Some(config) => Ok(
                Some(Dns01ProviderConfigView { propagation_seconds, ..config }),
            ),
        }
    }
}

/// What the certificate authority is told, if a certificate is needed at all.
/// `offered` is what the DNS provider offers.
pub fn dns01_provider_config(
    config: &Config,
    services: &ServicesFile,
    offered: Option<Dns01ProviderConfig>,
) -> (r: Result<Option<Dns01ProviderConfig>, ReconcileError>)
    ensures
        match dns01_of(propagation_of(*config), services@, desired::opt_dns01(offered)) {
            Ok(dns01) => r is Ok && desired::opt_dns01(r->Ok_0) == dns01,
            Err(error) => r is Err && r->Err_0@ == error,
        },
{
    if !desired::needs_tls(services) {
        return Ok(None);
    }
    match offered {
        Some(held) => {
            let seconds = match &config.dns {
                DnsConfig::Cloudflare { propagation_seconds, .. } => *propagation_seconds,
            };
            Ok(
                Some(
                    Dns01ProviderConfig {
                        provider: held.provider,
                        credentials: held.credentials,
                        propagation_seconds: seconds,
                    },
                ),
            )
        },
        None => Err(
            ReconcileError::InvalidConfig("DNS provider does not support DNS-01".to_owned()),
        ),
    }
}

/// What the configuration says, as far as the way to the desired state needs it.
pub struct Goal {
    pub proxy_host: Seq<char>,
    pub zone: Seq<char>,
    pub services: Map<Seq<char>, ServiceConfigView>,
}

/// The goal of a configuration.
pub open spec fn goal(config: Config, services: ServicesFile) -> Goal {
    Goal {
        proxy_host: super::proxy_host_of(config),
        zone: super::zone_of(config),
        services: services@,
    }
}

/// The stage at which the certificate is settled.
pub open spec fn settled(
    goal: Goal,
    certificate_id: Option<Seq<char>>,
) -> Result<StageView, ReconcileErrorView> {
    match desired::desired_state(goal.proxy_host, goal.zone, goal.services, certificate_id) {
        Ok(state) => Ok(
            StageView::ReadRecords { records: state.dns_records, hosts: state.proxy_hosts },
        ),
        Err(error) => Err(error),
    }
}

/// The stage at which changes are made to the certificates, or the next one
/// where none is left.
pub open spec fn create_certificate(changes: Seq<CertificateChangeView>) -> StageView {
    if changes.len() == 0 {
        StageView::ConfirmCertificate
    } else {
        StageView::CreateCertificate { changes }
    }
}

/// The stage at which changes are made to the records, or the next one where
/// none is left.
pub open spec fn change_records(
    changes: Seq<DnsChangeView>,
    hosts: Seq<ProxyHostView>,
) -> StageView {
    if changes.len() == 0 {
        StageView::ReadHosts { hosts }
    } else {
        StageView::ChangeRecords { changes, hosts }
    }
}

/// The stage at which changes are made to the hosts, or the end where none is
/// left.
pub open spec fn change_hosts(changes: Seq<ProxyChangeView>) -> StageView {
    if changes.len() == 0 {
        StageView::Reached
    } else {
        StageView::ChangeHosts { changes }
    }
}

/// The first stage, or why there is no way to go.
pub open spec fn first_stage(
    goal: Goal,
    propagation_seconds: Option<u32>,
    offered: Option<Dns01ProviderConfigView>,
) -> Result<StageView, ReconcileErrorView> {
    match super::config_fault(goal.proxy_host, goal.zone, goal.services) {
        Some(fault) => Err(ReconcileErrorView::InvalidConfig(fault)),
        None => match dns01_of(propagation_seconds, goal.services, offered) {
            Err(error) => Err(error),
            Ok(Some(dns01)) => Ok(StageView::FindCertificate { dns01 }),
            Ok(None) => settled(goal, None),
        },
    }
}

/// What is to be done at a stage.
pub open spec fn due(stage: StageView) -> ActionView {
    match stage {
        StageView::FindCertificate { .. } => ActionView::ListCertificates,
        StageView::CreateCertificate { changes } => ActionView::ApplyCertificate(changes[0]),
        StageView::ConfirmCertificate => ActionView::ListCertificates,
        StageView::ReadRecords { .. } => ActionView::ListRecords,
        StageView::ChangeRecords { changes, .. } => ActionView::ApplyDns(changes[0]),
        StageView::ReadHosts { .. } => ActionView::ListHosts,
        StageView::ChangeHosts { changes } => ActionView::ApplyProxy(changes[0]),
        StageView::Reached => ActionView::Done,
    }
}

/// A stage that is about changes holds at least one.
pub open spec fn sound_stage(stage: StageView) -> bool {
    match stage {
        StageView::CreateCertificate { changes } => changes.len() > 0,
        StageView::ChangeRecords { changes, .. } => changes.len() > 0,
        StageView::ChangeHosts { changes } => changes.len() > 0,
        _ => true,
    }
}

/// Whether an event is what can come of an action.
pub open spec fn answers(event: EventView, action: ActionView) -> bool {
    match action {
        ActionView::ListCertificates => event is Certificates,
        ActionView::ApplyCertificate(_) => event is CertificateApplied,
        ActionView::ListRecords => event is Records,
        ActionView::ApplyDns(_) => event is DnsApplied,
        ActionView::ListHosts => event is Hosts,
        ActionView::ApplyProxy(_) => event is ProxyApplied,
        ActionView::Done => false,
    }
}

/// What follows once the certificates have been listed for the first time.
pub open spec fn after_certificates(
    goal: Goal,
    dns01: Dns01ProviderConfigView,
    certificates: Seq<CertificateView>,
) -> Result<StageView, ReconcileErrorView> {
    match diff::certificate_id_for(certificates, seq![desired::wildcard(goal.zone)]) {
        Some(id) => settled(goal, Some(id)),
        None => Ok(
            create_certificate(
                diff::certificate_diff(
                    seq![desired::wildcard_certificate_of(goal.zone, Some(dns01), None)],
                    certificates,
                ),
            ),
        ),
    }
}

/// What follows once the certificates have been listed again after a creation.
pub open spec fn after_creation(
    goal: Goal,
    certificates: Seq<CertificateView>,
) -> Result<StageView, ReconcileErrorView> {
    match diff::certificate_id_for(certificates, seq![desired::wildcard(goal.zone)]) {
        Some(id) => settled(goal, Some(id)),
        None => Err(
            ReconcileErrorView::InvalidConfig(
                "created wildcard certificate was not found for "@ + desired::wildcard(goal.zone),
            ),
        ),
    }
}

/// The stage that follows on an event. Where a provider failed, its error ends
/// the way.
pub open spec fn next_stage(
    goal: Goal,
    stage: StageView,
    event: EventView,
) -> Result<StageView, ReconcileErrorView> {
    match event {
        EventView::Certificates(Err(error)) => Err(ReconcileErrorView::Certificate(error)),
        EventView::CertificateApplied(Err(error)) => Err(ReconcileErrorView::Certificate(error)),
        EventView::Records(Err(error)) => Err(ReconcileErrorView::Dns(error)),
        EventView::DnsApplied(Err(error)) => Err(ReconcileErrorView::Dns(error)),
        EventView::Hosts(Err(error)) => Err(ReconcileErrorView::Proxy(error)),
        EventView::ProxyApplied(Err(error)) => Err(ReconcileErrorView::Proxy(error)),
        EventView::Certificates(Ok(certificates)) => match stage {
            StageView::FindCertificate { dns01 } => after_certificates(goal, dns01, certificates),
            _ => after_creation(goal, certificates),
        },
        EventView::CertificateApplied(Ok(_)) => Ok(
            create_certificate(stage->CreateCertificate_changes.skip(1)),
        ),
        EventView::Records(Ok(records)) => Ok(
            change_records(
                diff::dns_diff(stage->ReadRecords_records, records),
                stage->ReadRecords_hosts,
            ),
        ),
        EventView::DnsApplied(Ok(_)) => Ok(
            change_records(
                stage->ChangeRecords_changes.skip(1),
                stage->ChangeRecords_hosts,
            ),
        ),
        EventView::Hosts(Ok(hosts)) => Ok(
            change_hosts(diff::proxy_diff(stage->ReadHosts_hosts, hosts)),
        ),
        EventView::ProxyApplied(Ok(_)) => Ok(
            change_hosts(stage->ChangeHosts_changes.skip(1)),
        ),
    }
}

/// What a computed stage is.
pub open spec fn stage_result(
    r: Result<Stage, ReconcileError>,
) -> Result<StageView, ReconcileErrorView> {
    match r {
        Ok(stage) => Ok(stage@),
        Err(error) => Err(error@),
    }
}

fn settle(config: &Config, services: &ServicesFile, certificate_id: Option<CertificateId>) -> (r:
    Result<Stage, ReconcileError>)
    ensures
        stage_result(r) == settled(
            goal(*config, *services),
            cert_provider::opt_certificate_id(certificate_id),
        ),
{
    match desired::build_desired_state(config, services, certificate_id) {
        Ok(state) => Ok(
            Stage::ReadRecords { records: state.dns_records, hosts: state.proxy_hosts },
        ),
        Err(error) => Err(error),
    }
}

/// The first stage on the way to the desired state. `offered` is what the DNS
/// provider offers for DNS-01.
pub fn start(
    config: &Config,
    services: &ServicesFile,
    offered: Option<Dns01ProviderConfig>,
) -> (r: Result<Stage, ReconcileError>)
    ensures
        stage_result(r) == first_stage(
            goal(*config, *services),
            propagation_of(*config),
            desired::opt_dns01(offered),
        ),
        r is Ok ==> sound_stage(r->Ok_0@),
{
    match super::validate(config, services) {
        Ok(()) => {},
        Err(error) => {
            return Err(error);
        },
    }
    match dns01_provider_config(config, services, offered) {
        Err(error) => Err(error),
        Ok(Some(dns01)) => Ok(Stage::FindCertificate { dns01 }),
        Ok(None) => settle(config, services, None),
    }
}

/// What is to be done at the stage.
pub fn due_action(stage: &Stage) -> (r: Action)
    requires
        sound_stage(stage@),
    ensures
        r@ == due(stage@),
{
    match stage {
        Stage::FindCertificate { .. } => Action::ListCertificates,
        Stage::CreateCertificate { changes } => {
            assert(stage@->CreateCertificate_changes.len() == changes@.len());
            Action::ApplyCertificate(changes[0].clone())
        },
        Stage::ConfirmCertificate => Action::ListCertificates,
        Stage::ReadRecords { .. } => Action::ListRecords,
        Stage::ChangeRecords { changes, .. } => {
            assert(stage@->ChangeRecords_changes.len() == changes@.len());
            Action::ApplyDns(changes[0].clone())
        },
        Stage::ReadHosts { .. } => Action::ListHosts,
        Stage::ChangeHosts { changes } => {
            assert(stage@->ChangeHosts_changes.len() == changes@.len());
            Action::ApplyProxy(changes[0].clone())
        },
        Stage::Reached => Action::Done,
    }
}

fn made_certificates(changes: Vec<CertificateChange>) -> (r: Stage)
    ensures
        r@ == create_certificate(cert_provider::certificate_changes_view(changes@)),
        sound_stage(r@),
{
    if changes.len() == 0 {
        Stage::ConfirmCertificate
    } else {
        Stage::CreateCertificate { changes }
    }
}

fn made_records(changes: Vec<DnsChange>, hosts: Vec<ProxyHost>) -> (r: Stage)
    ensures
        r@ == change_records(
            dns_provider::dns_changes_view(changes@),
            proxy_provider::hosts_view(hosts@),
        ),
        sound_stage(r@),
{
    if changes.len() == 0 {
        Stage::ReadHosts { hosts }
    } else {
        Stage::ChangeRecords { changes, hosts }
    }
}

fn made_hosts(changes: Vec<ProxyChange>) -> (r: Stage)
    ensures
        r@ == change_hosts(proxy_provider::proxy_changes_view(changes@)),
        sound_stage(r@),
{
    if changes.len() == 0 {
        Stage::Reached
    } else {
        Stage::ChangeHosts { changes }
    }
}

fn found_certificates(
    config: &Config,
    services: &ServicesFile,
    dns01: Dns01ProviderConfig,
    certificates: &[Certificate],
) -> (r: Result<Stage, ReconcileError>)
    ensures
        stage_result(r) == after_certificates(
            goal(*config, *services),
            dns01@,
            cert_provider::certificates_view(certificates@),
        ),
        r is Ok ==> sound_stage(r->Ok_0@),
{
    let zone = super::zone(config);
    match diff::existing_wildcard_certificate_id(zone, certificates) {
        Some(id) => settle(config, services, Some(id)),
        None => {
            let mut wanted: Vec<Certificate> = Vec::new();
            wanted.push(desired::wildcard_certificate(zone, Some(dns01), None));
            assert(cert_provider::certificates_view(wanted@)
                =~= seq![desired::wildcard_certificate_of(zone@, Some(dns01@), None)]);
            Ok(made_certificates(diff::diff_certificates(wanted.as_slice(), certificates)))
        },
    }
}

fn confirmed_certificate(
    config: &Config,
    services: &ServicesFile,
    certificates: &[Certificate],
) -> (r: Result<Stage, ReconcileError>)
    ensures
        stage_result(r) == after_creation(
            goal(*config, *services),
            cert_provider::certificates_view(certificates@),
        ),
        r is Ok ==> sound_stage(r->Ok_0@),
{
    let zone = super::zone(config);
    match diff::existing_wildcard_certificate_id(zone, certificates) {
        Some(id) => settle(config, services, Some(id)),
        None => Err(
            ReconcileError::InvalidConfig(
                text::join2(
                    "created wildcard certificate was not found for ",
                    desired::wildcard_domain(zone).as_str(),
                ),
            ),
        ),
    }
}

/// The stage that follows once the due action has been performed.
pub fn advance(config: &Config, services: &ServicesFile, stage: Stage, event: Event) -> (r: Result<
    Stage,
    ReconcileError,
>)
    requires
        sound_stage(stage@),
        answers(event@, due(stage@)),
    ensures
        stage_result(r) == next_stage(goal(*config, *services), stage@, event@),
        r is Ok ==> sound_stage(r->Ok_0@),
{
    match event {
        Event::Certificates(Err(error)) => Err(ReconcileError::Certificate(error)),
        Event::CertificateApplied(Err(error)) => Err(ReconcileError::Certificate(error)),
        Event::Records(Err(error)) => Err(ReconcileError::Dns(error)),
        Event::DnsApplied(Err(error)) => Err(ReconcileError::Dns(error)),
        Event::Hosts(Err(error)) => Err(ReconcileError::Proxy(error)),
        Event::ProxyApplied(Err(error)) => Err(ReconcileError::Proxy(error)),
        Event::Certificates(Ok(certificates)) => match stage {
            Stage::FindCertificate { dns01 } => found_certificates(
                config,
                services,
                dns01,
                certificates.as_slice(),
            ),
            _ => confirmed_certificate(config, services, certificates.as_slice()),
        },
        Event::CertificateApplied(Ok(())) => match stage {
            Stage::CreateCertificate { changes } => {
                let mut left = changes;
                assert(cert_provider::certificate_changes_view(left@).len() == left@.len());
                left.remove(0);
                assert(cert_provider::certificate_changes_view(left@)
                    =~= cert_provider::certificate_changes_view(changes@).skip(1));
                Ok(made_certificates(left))
            },
            other => Ok(other),
        },
        Event::Records(Ok(records)) => match stage {
            Stage::ReadRecords { records: wanted, hosts } => Ok(
                made_records(
                    diff::diff_dns_records(wanted.as_slice(), records.as_slice()),
                    hosts,
                ),
            ),
            other => Ok(other),
        },
        Event::DnsApplied(Ok(())) => match stage {
            Stage::ChangeRecords { changes, hosts } => {
                let mut left = changes;
                assert(dns_provider::dns_changes_view(left@).len() == left@.len());
                left.remove(0);
                assert(dns_provider::dns_changes_view(left@) =~= dns_provider::dns_changes_view(
                    changes@,
                ).skip(1));
                Ok(made_records(left, hosts))
            },
            other => Ok(other),
        },
        Event::Hosts(Ok(hosts)) => match stage {
            Stage::ReadHosts { hosts: wanted } => Ok(
                made_hosts(diff::diff_proxy_hosts(wanted.as_slice(), hosts.as_slice())),
            ),
            other => Ok(other),
        },
        Event::ProxyApplied(Ok(())) => match stage {
            Stage::ChangeHosts { changes } => {
                let mut left = changes;
                assert(proxy_provider::proxy_changes_view(left@).len() == left@.len());
                left.remove(0);
                assert(proxy_provider::proxy_changes_view(left@)
                    =~= proxy_provider::proxy_changes_view(changes@).skip(1));
                Ok(made_hosts(left))
            },
            other => Ok(other),
        },
    }
}

} // verus!
