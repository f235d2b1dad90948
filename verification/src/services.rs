//! Managing the declared services.

use crate::config::{
    CertificateConfig, Config, DnsConfig, ProxyConfig, ServiceConfig, ServiceConfigView,
    ServicesFile, UpstreamConfig, UpstreamConfigView, UpstreamSchemeConfig,
};
use crate::reconciler::{ReconcileError, ReconcileErrorView};
use crate::{config, reconciler, text};
use vstd::prelude::*;
use vstd::string::StringExecFns;

verus! {

/// The words for yes and no.
pub open spec fn yes_no_of(value: bool) -> Seq<char> {
    if value {
        "yes"@
    } else {
        "no"@
    }
}

/// The words for yes and no.
pub fn yes_no(value: bool) -> (r: &'static str)
    ensures
        r@ == yes_no_of(value),
{
    if value {
        "yes"
    } else {
        "no"
    }
}

/// The name of a protocol.
pub open spec fn scheme_name_of(scheme: UpstreamSchemeConfig) -> Seq<char> {
    match scheme {
        UpstreamSchemeConfig::Http => "http"@,
        UpstreamSchemeConfig::Https => "https"@,
    }
}

/// The name of the protocol.
pub fn upstream_scheme_name(scheme: &UpstreamSchemeConfig) -> (r: &'static str)
    ensures
        r@ == scheme_name_of(*scheme),
{
    match scheme {
        UpstreamSchemeConfig::Http => "http",
        UpstreamSchemeConfig::Https => "https",
    }
}

/// The port that is offered: the current one, or the usual one of the protocol
/// where there is none.
pub open spec fn offered_port(scheme: UpstreamSchemeConfig, current: u16) -> u16 {
    if current != 0 {
        current
    } else {
        match scheme {
            UpstreamSchemeConfig::Http => 80,
            UpstreamSchemeConfig::Https => 443,
        }
    }
}

/// The port that is offered.
pub fn port_default(scheme: &UpstreamSchemeConfig, current: u16) -> (r: u16)
    ensures
        r == offered_port(*scheme, current),
{
    if current != 0 {
        return current;
    }
    match scheme {
        UpstreamSchemeConfig::Http => 80,
        UpstreamSchemeConfig::Https => 443,
    }
}

/// The domain that is offered for a service: its name, below the zone unless it
/// has a dot already.
pub open spec fn offered_domain(name: Seq<char>, zone: Seq<char>) -> Seq<char> {
    if name.contains('.') {
        name
    } else {
        name + "."@ + zone
    }
}

fn has_dot(name: &str) -> (r: bool)
    ensures
        r == name@.contains('.'),
{
    let chars = text::chars_of(name);
    let mut i: usize = 0;
    while i < chars.len()
        invariant
            i <= chars@.len(),
            chars@ == name@,
            forall|j: int| 0 <= j < i ==> name@[j] != '.',
        decreases chars@.len() - i,
    {
        if chars[i] == '.' {
            assert(name@[i as int] == '.');
            return true;
        }
        i = i + 1;
    }
    false
}

/// The domain that is offered for the service.
pub fn default_domain(name: &str, zone: &str) -> (r: String)
    ensures
        r@ == offered_domain(name@, zone@),
{
    if has_dot(name) {
        name.to_owned()
    } else {
        text::join3(name, ".", zone)
    }
}

/// The host that DNS records point to unless a service says otherwise.
pub fn default_proxy_host(config: &Config) -> (r: &str)
    ensures
        r@ == reconciler::proxy_host_of(*config),
{
    reconciler::proxy_host(config)
}

/// The service that is offered under a new name.
pub open spec fn offered_service(
    name: Seq<char>,
    zone: Seq<char>,
    proxy_host: Seq<char>,
) -> ServiceConfigView {
    ServiceConfigView {
        domain: offered_domain(name, zone),
        proxy_host: None,
        upstream: UpstreamConfigView {
            host: proxy_host,
            port: 80,
            scheme: UpstreamSchemeConfig::Http,
        },
        tls: true,
        websocket: false,
    }
}

/// The service that is offered under the new name.
pub fn default_service(name: &str, config: &Config) -> (r: ServiceConfig)
    ensures
        r@ == offered_service(
            name@,
            reconciler::zone_of(*config),
            reconciler::proxy_host_of(*config),
        ),
{
    ServiceConfig {
        domain: default_domain(name, reconciler::zone(config)),
        proxy_host: None,
        upstream: UpstreamConfig {
            host: default_proxy_host(config).to_owned(),
            port: 80,
            scheme: UpstreamSchemeConfig::Http,
        },
        tls: true,
        websocket: false,
    }
}

/// The domain that is offered for a name without a dot lies in the zone.
pub proof fn law_offered_domain_lies_in_the_zone(name: Seq<char>, zone: Seq<char>)
    requires
        !name.contains('.'),
    ensures
        reconciler::in_zone(offered_domain(name, zone), zone),
{
    let domain = name + "."@ + zone;
    let end = "."@ + zone;
    assert(domain.subrange(domain.len() - end.len(), domain.len() as int) =~= end);
}

/// Why a service could not be managed.
#[derive(Debug, PartialEq, Eq)]
pub enum ServiceError {
    EmptyName,
    AlreadyExists(String),
    NotFound(String),
    Invalid(ReconcileError),
    Aborted,
}

/// What a [`ServiceError`] reports.
pub enum ServiceErrorView {
    EmptyName,
    AlreadyExists(Seq<char>),
    NotFound(Seq<char>),
    Invalid(ReconcileErrorView),
    Aborted,
}

impl View for ServiceError {
    type V = ServiceErrorView;

    open spec fn view(&self) -> ServiceErrorView {
        match self {
            ServiceError::EmptyName => ServiceErrorView::EmptyName,
            ServiceError::AlreadyExists(name) => ServiceErrorView::AlreadyExists(name@),
            ServiceError::NotFound(name) => ServiceErrorView::NotFound(name@),
            ServiceError::Invalid(error) => ServiceErrorView::Invalid(error@),
            ServiceError::Aborted => ServiceErrorView::Aborted,
        }
    }
}

impl ServiceErrorView {
    /// The error in words.
    pub open spec fn text(self) -> Seq<char> {
        match self {
            ServiceErrorView::EmptyName => "service name cannot be empty"@,
            ServiceErrorView::AlreadyExists(name) => "service already exists: "@ + name,
            ServiceErrorView::NotFound(name) => "service not found: "@ + name,
            ServiceErrorView::Invalid(error) => error.text(),
            ServiceErrorView::Aborted => "service edit aborted"@,
        }
    }
}

impl ServiceError {
    /// The error in words.
    pub fn message(&self) -> (r: String)
        ensures
            r@ == self@.text(),
    {
        match self {
            ServiceError::EmptyName => "service name cannot be empty".to_owned(),
            ServiceError::AlreadyExists(name) => text::join2(
                "service already exists: ",
                name.as_str(),
            ),
            ServiceError::NotFound(name) => text::join2("service not found: ", name.as_str()),
            ServiceError::Invalid(error) => error.message(),
            ServiceError::Aborted => "service edit aborted".to_owned(),
        }
    }
}

/// The service name that an argument gives: the argument without white space
/// around it.
pub fn service_name(argument: &str) -> (r: Result<String, ServiceError>)
    ensures
        if text::trimmed(argument@).len() > 0 {
            r is Ok && r->Ok_0@ == text::trimmed(argument@)
        } else {
            r is Err && r->Err_0@ == ServiceErrorView::EmptyName
        },
{
    let name = text::trim(argument);
    if name.as_str().is_empty() {
        Err(ServiceError::EmptyName)
    } else {
        Ok(name)
    }
}

/// What a changed list of services is.
pub open spec fn services_result(r: Result<ServicesFile, ServiceError>) -> Result<
    Map<Seq<char>, ServiceConfigView>,
    ServiceErrorView,
> {
    match r {
        Ok(services) => Ok(services@),
        Err(error) => Err(error@),
    }
}

/// Services as they are saved: only if they have no fault.
pub open spec fn verified(
    proxy_host: Seq<char>,
    zone: Seq<char>,
    services: Map<Seq<char>, ServiceConfigView>,
) -> Result<Map<Seq<char>, ServiceConfigView>, ServiceErrorView> {
    match reconciler::config_fault(proxy_host, zone, services) {
        None => Ok(services),
        Some(fault) => Err(
            ServiceErrorView::Invalid(ReconcileErrorView::InvalidConfig(fault)),
        ),
    }
}

/// The services with one more.
pub open spec fn added(
    proxy_host: Seq<char>,
    zone: Seq<char>,
    services: Map<Seq<char>, ServiceConfigView>,
    name: Seq<char>,
    service: ServiceConfigView,
) -> Result<Map<Seq<char>, ServiceConfigView>, ServiceErrorView> {
    if services.dom().contains(name) {
        Err(ServiceErrorView::AlreadyExists(name))
    } else {
        verified(proxy_host, zone, services.insert(name, service))
    }
}

/// The services with one changed.
pub open spec fn modified(
    proxy_host: Seq<char>,
    zone: Seq<char>,
    services: Map<Seq<char>, ServiceConfigView>,
    name: Seq<char>,
    service: ServiceConfigView,
) -> Result<Map<Seq<char>, ServiceConfigView>, ServiceErrorView> {
    if !services.dom().contains(name) {
        Err(ServiceErrorView::NotFound(name))
    } else {
        verified(proxy_host, zone, services.insert(name, service))
    }
}

/// The services with one less.
pub open spec fn removed(
    proxy_host: Seq<char>,
    zone: Seq<char>,
    services: Map<Seq<char>, ServiceConfigView>,
    name: Seq<char>,
) -> Result<Map<Seq<char>, ServiceConfigView>, ServiceErrorView> {
    if !services.dom().contains(name) {
        Err(ServiceErrorView::NotFound(name))
    } else {
        verified(proxy_host, zone, services.remove(name))
    }
}

fn verify(config: &Config, services: ServicesFile) -> (r: Result<ServicesFile, ServiceError>)
    ensures
        services_result(r) == verified(
            reconciler::proxy_host_of(*config),
            reconciler::zone_of(*config),
            services@,
        ),
{
    match reconciler::validate(config, &services) {
        Ok(()) => Ok(services),
        Err(error) => Err(ServiceError::Invalid(error)),
    }
}

/// The services with the new one, if they all are without fault.
pub fn add_service(
    config: &Config,
    services: &ServicesFile,
    name: &str,
    service: &ServiceConfig,
) -> (r: Result<ServicesFile, ServiceError>)
    ensures
        services_result(r) == added(
            reconciler::proxy_host_of(*config),
            reconciler::zone_of(*config),
            services@,
            name@,
            service@,
        ),
{
    let name = name.to_owned();
    if services.contains(&name) {
        return Err(ServiceError::AlreadyExists(name));
    }
    let mut candidate = services.clone();
    candidate.insert(name, service.clone());
    verify(config, candidate)
}

/// The services with the changed one, if they all are without fault.
pub fn modify_service(
    config: &Config,
    services: &ServicesFile,
    name: &str,
    service: &ServiceConfig,
) -> (r: Result<ServicesFile, ServiceError>)
    ensures
        services_result(r) == modified(
            reconciler::proxy_host_of(*config),
            reconciler::zone_of(*config),
            services@,
            name@,
            service@,
        ),
{
    let name = name.to_owned();
    if !services.contains(&name) {
        return Err(ServiceError::NotFound(name));
    }
    let mut candidate = services.clone();
    candidate.insert(name, service.clone());
    verify(config, candidate)
}

/// The services without the one, if the others are without fault.
pub fn remove_service(config: &Config, services: &ServicesFile, name: &str) -> (r: Result<
    ServicesFile,
    ServiceError,
>)
    ensures
        services_result(r) == removed(
            reconciler::proxy_host_of(*config),
            reconciler::zone_of(*config),
            services@,
            name@,
        ),
{
    let name = name.to_owned();
    if !services.contains(&name) {
        return Err(ServiceError::NotFound(name));
    }
    let mut candidate = services.clone();
    candidate.remove(&name);
    verify(config, candidate)
}

/// A service that has been added can be taken away again, and then everything
/// is as it was.
pub proof fn law_added_service_can_be_removed(
    proxy_host: Seq<char>,
    zone: Seq<char>,
    services: Map<Seq<char>, ServiceConfigView>,
    name: Seq<char>,
    service: ServiceConfigView,
)
    requires
        services.dom().finite(),
        added(proxy_host, zone, services, name, service) is Ok,
    ensures
        removed(
            proxy_host,
            zone,
            added(proxy_host, zone, services, name, service)->Ok_0,
            name,
        ) == Ok::<Map<Seq<char>, ServiceConfigView>, ServiceErrorView>(services),
{
    let more = services.insert(name, service);
    law_removal_needs_no_check(proxy_host, zone, more, name);
    assert(more.remove(name) =~= services);
}

/// Taking a service away from services without fault leaves services without
/// fault.
pub proof fn law_removal_needs_no_check(
    proxy_host: Seq<char>,
    zone: Seq<char>,
    services: Map<Seq<char>, ServiceConfigView>,
    name: Seq<char>,
)
    requires
        services.dom().finite(),
        verified(proxy_host, zone, services) is Ok,
        services.dom().contains(name),
    ensures
        removed(proxy_host, zone, services, name) == Ok::<
            Map<Seq<char>, ServiceConfigView>,
            ServiceErrorView,
        >(services.remove(name)),
{
    reconciler::law_valid_means_no_fault(proxy_host, zone, services);
    reconciler::law_valid_means_no_fault(proxy_host, zone, services.remove(name));
    let less = services.remove(name);
    assert forall|n: Seq<char>| #[trigger] less.dom().contains(n) implies services.dom().contains(n)
        && less[n] == services[n] by {}
    assert forall|m: Seq<char>, n: Seq<char>| #[trigger]
        less.dom().contains(m) && #[trigger] less.dom().contains(n) && m != n implies less[m].domain
        != less[n].domain by {
        assert(services.dom().contains(m));
        assert(services.dom().contains(n));
    }
    assert(reconciler::valid(proxy_host, zone, less));
}

/// Services are saved only where none of them has a fault.
pub proof fn law_saved_services_are_valid(
    proxy_host: Seq<char>,
    zone: Seq<char>,
    services: Map<Seq<char>, ServiceConfigView>,
    name: Seq<char>,
    service: ServiceConfigView,
)
    requires
        services.dom().finite(),
    ensures
        added(proxy_host, zone, services, name, service) matches Ok(saved) ==> reconciler::valid(
            proxy_host,
            zone,
            saved,
        ),
        modified(proxy_host, zone, services, name, service) matches Ok(saved)
            ==> reconciler::valid(proxy_host, zone, saved),
        removed(proxy_host, zone, services, name) matches Ok(saved) ==> reconciler::valid(
            proxy_host,
            zone,
            saved,
        ),
{
    reconciler::law_valid_means_no_fault(proxy_host, zone, services.insert(name, service));
    reconciler::law_valid_means_no_fault(proxy_host, zone, services.remove(name));
}

/// How far the editing of a service has come.
pub enum EditStage {
    /// The values are to be entered. What is left out takes the default.
    Enter { defaults: ServiceConfig },
    /// The entered values were refused. They can be corrected or given up.
    Refused { entered: ServiceConfig, reason: ServiceError },
    /// The services with the entered values are without fault and can be saved.
    Verified { services: ServicesFile },
}

/// What the user did.
pub enum EditEvent {
    /// Entered the values of the service.
    Entered(ServiceConfig),
    /// Said whether to try again.
    Retry(bool),
}

/// What an [`EditStage`] holds.
pub enum EditStageView {
    Enter { defaults: ServiceConfigView },
    Refused { entered: ServiceConfigView, reason: ServiceErrorView },
    Verified { services: Map<Seq<char>, ServiceConfigView> },
}

/// What an [`EditEvent`] reports.
pub enum EditEventView {
    Entered(ServiceConfigView),
    Retry(bool),
}

impl View for EditStage {
    type V = EditStageView;

    open spec fn view(&self) -> EditStageView {
        match self {
            EditStage::Enter { defaults } => EditStageView::Enter { defaults: defaults@ },
            EditStage::Refused { entered, reason } => EditStageView::Refused {
                entered: entered@,
                reason: reason@,
            },
            EditStage::Verified { services } => EditStageView::Verified { services: services@ },
        }
    }
}

impl View for EditEvent {
    type V = EditEventView;

    open spec fn view(&self) -> EditEventView {
        match self {
            EditEvent::Entered(service) => EditEventView::Entered(service@),
            EditEvent::Retry(again) => EditEventView::Retry(*again),
        }
    }
}

/// The first stage: the defaults are the current values of the service, or what
/// is offered where there is none of the name.
pub open spec fn first_edit(
    proxy_host: Seq<char>,
    zone: Seq<char>,
    services: Map<Seq<char>, ServiceConfigView>,
    name: Seq<char>,
) -> EditStageView {
    EditStageView::Enter {
        defaults: if services.dom().contains(name) {
            services[name]
        } else {
            offered_service(name, zone, proxy_host)
        },
    }
}

/// Whether an event is what can happen at a stage.
pub open spec fn answers_edit(event: EditEventView, stage: EditStageView) -> bool {
    match stage {
        EditStageView::Enter { .. } => event is Entered,
        EditStageView::Refused { .. } => event is Retry,
        EditStageView::Verified { .. } => false,
    }
}

/// The stage that follows on an event. Entered values are verified together with
/// all other services. Refused values are the defaults of another try, unless
/// the user gives up.
pub open spec fn next_edit(
    proxy_host: Seq<char>,
    zone: Seq<char>,
    services: Map<Seq<char>, ServiceConfigView>,
    name: Seq<char>,
    stage: EditStageView,
    event: EditEventView,
) -> Result<EditStageView, ServiceErrorView> {
    match event {
        EditEventView::Entered(service) => Ok(
            match verified(proxy_host, zone, services.insert(name, service)) {
                Ok(services) => EditStageView::Verified { services },
                Err(reason) => EditStageView::Refused { entered: service, reason },
            },
        ),
        EditEventView::Retry(again) => if again {
            Ok(EditStageView::Enter { defaults: stage->Refused_entered })
        } else {
            Err(ServiceErrorView::Aborted)
        },
    }
}

/// What a computed stage is.
pub open spec fn edit_result(r: Result<EditStage, ServiceError>) -> Result<
    EditStageView,
    ServiceErrorView,
> {
    match r {
        Ok(stage) => Ok(stage@),
        Err(error) => Err(error@),
    }
}

/// The first stage of editing the service of the name.
pub fn start_edit(config: &Config, services: &ServicesFile, name: &str) -> (r: EditStage)
    ensures
        r@ == first_edit(
            reconciler::proxy_host_of(*config),
            reconciler::zone_of(*config),
            services@,
            name@,
        ),
{
    match services.get(&name.to_owned()) {
        Some(current) => EditStage::Enter { defaults: current.clone() },
        None => EditStage::Enter { defaults: default_service(name, config) },
    }
}

/// The stage that follows once the user did what the stage asks for.
pub fn advance_edit(
    config: &Config,
    services: &ServicesFile,
    name: &str,
    stage: EditStage,
    event: EditEvent,
) -> (r: Result<EditStage, ServiceError>)
    requires
        answers_edit(event@, stage@),
    ensures
        edit_result(r) == next_edit(
            reconciler::proxy_host_of(*config),
            reconciler::zone_of(*config),
            services@,
            name@,
            stage@,
            event@,
        ),
{
    match (stage, event) {
        (EditStage::Enter { .. }, EditEvent::Entered(service)) => {
            let outcome = if services.contains(&name.to_owned()) {
                modify_service(config, services, name, &service)
            } else {
                add_service(config, services, name, &service)
            };
            match outcome {
                Ok(services) => Ok(EditStage::Verified { services }),
                Err(reason) => Ok(EditStage::Refused { entered: service, reason }),
            }
        },
        (EditStage::Refused { entered, .. }, EditEvent::Retry(again)) => if again {
            Ok(EditStage::Enter { defaults: entered })
        } else {
            Err(ServiceError::Aborted)
        },
        (stage, _) => Ok(stage),
    }
}

/// A stage that an edit can come to: values are refused for the fault that they
/// bring in, and verified services are without fault.
pub open spec fn sound_edit(
    proxy_host: Seq<char>,
    zone: Seq<char>,
    services: Map<Seq<char>, ServiceConfigView>,
    name: Seq<char>,
    stage: EditStageView,
) -> bool {
    match stage {
        EditStageView::Enter { .. } => true,
        EditStageView::Refused { entered, reason } => {
            &&& !reconciler::valid(proxy_host, zone, services.insert(name, entered))
            &&& verified(proxy_host, zone, services.insert(name, entered)) == Err::<
                Map<Seq<char>, ServiceConfigView>,
                ServiceErrorView,
            >(reason)
        },
        EditStageView::Verified { services: saved } => {
            &&& reconciler::valid(proxy_host, zone, saved)
            &&& exists|service: ServiceConfigView| saved == #[trigger] services.insert(name, service)
        },
    }
}

/// An edit starts at a sound stage and goes from one to another, so it ends with
/// services to save only where they all are valid and only this one has changed.
/// It is given up only where the values entered last were refused.
pub proof fn law_edit_saves_valid_services_only(
    proxy_host: Seq<char>,
    zone: Seq<char>,
    services: Map<Seq<char>, ServiceConfigView>,
    name: Seq<char>,
    stage: EditStageView,
    event: EditEventView,
)
    requires
        services.dom().finite(),
        sound_edit(proxy_host, zone, services, name, stage),
        answers_edit(event, stage),
    ensures
        sound_edit(
            proxy_host,
            zone,
            services,
            name,
            first_edit(proxy_host, zone, services, name),
        ),
        match next_edit(proxy_host, zone, services, name, stage, event) {
            Ok(next) => sound_edit(proxy_host, zone, services, name, next),
            Err(error) => {
                &&& error is Aborted
                &&& stage is Refused
                &&& !reconciler::valid(
                    proxy_host,
                    zone,
                    services.insert(name, stage->Refused_entered),
                )
            },
        },
{
    if let EditEventView::Entered(service) = event {
        reconciler::law_valid_means_no_fault(proxy_host, zone, services.insert(name, service));
    }
}

/// Entering the defaults of a service as they are keeps the services as they
/// are, if they are valid.
pub proof fn law_unchanged_edit_keeps_the_services(
    proxy_host: Seq<char>,
    zone: Seq<char>,
    services: Map<Seq<char>, ServiceConfigView>,
    name: Seq<char>,
)
    requires
        services.dom().finite(),
        reconciler::valid(proxy_host, zone, services),
        services.dom().contains(name),
    ensures
        ({
            let stage = first_edit(proxy_host, zone, services, name);
            next_edit(
                proxy_host,
                zone,
                services,
                name,
                stage,
                EditEventView::Entered(stage->Enter_defaults),
            ) == Ok::<EditStageView, ServiceErrorView>(EditStageView::Verified { services })
        }),
{
    reconciler::law_valid_means_no_fault(proxy_host, zone, services);
    assert(services.insert(name, services[name]) =~= services);
}

/// The upstream of a service as a URL.
pub open spec fn upstream_url_of(upstream: UpstreamConfigView) -> Seq<char> {
    scheme_name_of(upstream.scheme) + "://"@ + upstream.host + ":"@ + text::decimal(
        upstream.port as nat,
    )
}

/// The upstream of a service as a URL.
pub fn upstream_url(upstream: &UpstreamConfig) -> (r: String)
    ensures
        r@ == upstream_url_of(upstream@),
{
    let mut out = text::join3(upstream_scheme_name(&upstream.scheme), "://", upstream.host.as_str());
    out.append(":");
    out.append(text::to_decimal(upstream.port as u128).as_str());
    out
}

/// The cells that show a service.
pub open spec fn row_of(
    name: Seq<char>,
    service: ServiceConfigView,
    proxy_host: Seq<char>,
) -> Seq<Seq<char>> {
    seq![
        name,
        service.domain,
        reconciler::desired::dns_target(service, proxy_host),
        upstream_url_of(service.upstream),
        yes_no_of(service.tls),
        yes_no_of(service.websocket),
    ]
}

fn service_row(name: &str, service: &ServiceConfig, proxy_host: &str) -> (r: Vec<String>)
    ensures
        text::texts(r@) == row_of(name@, service@, proxy_host@),
{
    let mut row: Vec<String> = Vec::new();
    row.push(name.to_owned());
    row.push(service.domain.clone());
    row.push(reconciler::desired::service_dns_target(service, proxy_host).to_owned());
    row.push(upstream_url(&service.upstream));
    row.push(yes_no(service.tls).to_owned());
    row.push(yes_no(service.websocket).to_owned());
    assert(text::texts(row@) =~= row_of(name@, service@, proxy_host@));
    row
}

/// The rows that show the services, in the order of their names.
pub fn service_rows(config: &Config, services: &ServicesFile) -> (r: Vec<Vec<String>>)
    ensures
        reconciler::diff::text_lists(r@) == config::names(services@).map_values(
            |n: Seq<char>| row_of(n, services@[n], reconciler::proxy_host_of(*config)),
        ),
{
    let proxy_host = reconciler::proxy_host(config);
    let n: usize = services.len();
    let ghost names = config::names(services@);
    let ghost want = names.map_values(
        |n: Seq<char>| row_of(n, services@[n], reconciler::proxy_host_of(*config)),
    );
    let mut rows: Vec<Vec<String>> = Vec::new();
    let mut i: usize = 0;
    while i < n
        invariant
            i <= n,
            n == names.len(),
            names == config::names(services@),
            proxy_host@ == reconciler::proxy_host_of(*config),
            want == names.map_values(
                |n: Seq<char>| row_of(n, services@[n], reconciler::proxy_host_of(*config)),
            ),
            reconciler::diff::text_lists(rows@) == want.take(i as int),
        decreases n - i,
    {
        let (name, service) = services.entry_at(i);
        let row = service_row(name.as_str(), service, proxy_host);
        let ghost before = rows@;
        rows.push(row);
        assert(reconciler::diff::text_lists(rows@) =~= reconciler::diff::text_lists(before).push(
            text::texts(row@),
        ));
        assert(want.take(i + 1) =~= want.take(i as int).push(want[i as int]));
        i = i + 1;
    }
    assert(want.take(n as int) =~= want);
    rows
}

/// What is said where the waiting time is no number.
pub const PROPAGATION_MUST_BE_A_NUMBER: &'static str = "DNS propagation seconds must be a number";

/// The waiting time that an answer gives.
pub fn parse_propagation(answer: &str) -> (r: Result<u32, String>)
    ensures
        match text::parsed_unsigned(answer@, u32::MAX as nat) {
            Some(seconds) => r is Ok && r->Ok_0 == seconds,
            None => r is Err && r->Err_0@ == PROPAGATION_MUST_BE_A_NUMBER@,
        },
{
    match text::parse_unsigned(answer, u32::MAX) {
        Some(seconds) => Ok(seconds),
        None => Err(PROPAGATION_MUST_BE_A_NUMBER.to_owned()),
    }
}

/// The answers that a new configuration is made of.
pub struct InitAnswers {
    pub zone: String,
    pub api_token: String,
    pub propagation_seconds: u32,
    pub url: String,
    pub proxy_host: String,
    pub identity: String,
    pub secret: String,
}

/// The configuration that the answers make.
pub fn initial_config(answers: InitAnswers) -> (r: Config)
    ensures
        r.dns == (DnsConfig::Cloudflare {
            zone: answers.zone,
            api_token: answers.api_token,
            propagation_seconds: Some(answers.propagation_seconds),
        }),
        r.proxy == (ProxyConfig::Npm {
            host: answers.proxy_host,
            url: answers.url,
            identity: answers.identity,
            secret: answers.secret,
        }),
        r.certificates.email is None,
{
    Config {
        dns: DnsConfig::Cloudflare {
            zone: answers.zone,
            api_token: answers.api_token,
            propagation_seconds: Some(answers.propagation_seconds),
        },
        proxy: ProxyConfig::Npm {
            host: answers.proxy_host,
            url: answers.url,
            identity: answers.identity,
            secret: answers.secret,
        },
        certificates: CertificateConfig::default(),
    }
}

/// The first part of a new services file.
pub const SERVICES_EXAMPLE_HEAD: &'static str = "# Declare one entry for each service Avel Pilot should expose.\n# Uncomment and edit the example below.\n#\n# services:\n#   jellyfin:\n#     domain: tv.";

/// The last part of a new services file.
pub const SERVICES_EXAMPLE_TAIL: &'static str = "\n#     # Optional: defaults to proxy.host from config.yml.\n#     # proxy_host: edge.example.com\n#     upstream:\n#       scheme: http\n#       host: 10.0.5.101\n#       port: 8096\n#     tls: true\n#     websocket: true\nservices: {}\n";

/// A new services file: no service, and an example in the zone to start from.
pub fn services_example(zone: &str) -> (r: String)
    ensures
        r@ == SERVICES_EXAMPLE_HEAD@ + zone@ + SERVICES_EXAMPLE_TAIL@,
{
    text::join3(SERVICES_EXAMPLE_HEAD, zone, SERVICES_EXAMPLE_TAIL)
}

/// What is said of a service that is not without fault.
pub fn not_valid(error: &ServiceError) -> (r: String)
    ensures
        r@ == "Service is not valid: "@ + error@.text(),
{
    text::join2("Service is not valid: ", error.message().as_str())
}

} // verus!
