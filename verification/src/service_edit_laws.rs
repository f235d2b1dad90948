//! What editing the services comes to.

use crate::config::{ServiceConfigView, UpstreamSchemeConfig};
use crate::services::{EditEventView, EditStageView, ServiceErrorView};
use crate::{reconciler, services, text};
use vstd::prelude::*;

verus! {

/// Entered values are all taken as they were entered: if the services with them
/// are valid, they are ready to be saved, with the entered service under the name
/// and every other service as it was. Otherwise the entered values are refused,
/// all of them, with the fault that they bring in.
pub proof fn law_entered_service_is_saved_as_entered(
    proxy_host: Seq<char>,
    zone: Seq<char>,
    declared: Map<Seq<char>, ServiceConfigView>,
    name: Seq<char>,
    defaults: ServiceConfigView,
    service: ServiceConfigView,
)
    requires
        declared.dom().finite(),
    ensures
        ({
            let next = services::next_edit(
                proxy_host,
                zone,
                declared,
                name,
                EditStageView::Enter { defaults },
                EditEventView::Entered(service),
            );
            let with = declared.insert(name, service);
            &&& reconciler::valid(proxy_host, zone, with) ==> next == Ok::<
                EditStageView,
                ServiceErrorView,
            >(EditStageView::Verified { services: with })
            &&& !reconciler::valid(proxy_host, zone, with) ==> {
                &&& next is Ok
                &&& next->Ok_0 is Refused
                &&& next->Ok_0->entered == service
                &&& next->Ok_0->reason is Invalid
            }
        }),
{
    reconciler::law_valid_means_no_fault(proxy_host, zone, declared.insert(name, service));
}

/// What is ready to be saved has the entered values of the service, one by one,
/// and nothing else has changed.
pub proof fn law_saved_service_has_the_entered_values(
    proxy_host: Seq<char>,
    zone: Seq<char>,
    declared: Map<Seq<char>, ServiceConfigView>,
    name: Seq<char>,
    defaults: ServiceConfigView,
    service: ServiceConfigView,
    other: Seq<char>,
)
    requires
        declared.dom().finite(),
        reconciler::valid(proxy_host, zone, declared.insert(name, service)),
    ensures
        ({
            let next = services::next_edit(
                proxy_host,
                zone,
                declared,
                name,
                EditStageView::Enter { defaults },
                EditEventView::Entered(service),
            );
            &&& next is Ok
            &&& next->Ok_0 is Verified
            &&& {
                let saved = next->Ok_0->services;
                &&& saved.dom().contains(name)
                &&& saved[name].domain == service.domain
                &&& saved[name].proxy_host == service.proxy_host
                &&& saved[name].upstream.scheme == service.upstream.scheme
                &&& saved[name].upstream.host == service.upstream.host
                &&& saved[name].upstream.port == service.upstream.port
                &&& saved[name].tls == service.tls
                &&& saved[name].websocket == service.websocket
                &&& other != name ==> saved.dom().contains(other) == declared.dom().contains(other)
                &&& other != name && declared.dom().contains(other) ==> saved[other]
                    == declared[other]
            }
        }),
{
    reconciler::law_valid_means_no_fault(proxy_host, zone, declared.insert(name, service));
}

/// Refused values are what another try starts from, and without another try the
/// edit is given up.
pub proof fn law_refused_values_can_be_corrected(
    proxy_host: Seq<char>,
    zone: Seq<char>,
    declared: Map<Seq<char>, ServiceConfigView>,
    name: Seq<char>,
    entered: ServiceConfigView,
    reason: ServiceErrorView,
)
    ensures
        services::next_edit(
            proxy_host,
            zone,
            declared,
            name,
            (EditStageView::Refused { entered, reason }),
            EditEventView::Retry(true),
        ) == Ok::<EditStageView, ServiceErrorView>((EditStageView::Enter { defaults: entered })),
        services::next_edit(
            proxy_host,
            zone,
            declared,
            name,
            (EditStageView::Refused { entered, reason }),
            EditEventView::Retry(false),
        ) == Err::<EditStageView, ServiceErrorView>(ServiceErrorView::Aborted),
{
}

/// An edit starts from the current values of the service. Where there is none of
/// the name, a domain in the zone is offered, the proxy host as the upstream, at
/// port 80 over HTTP, with TLS and without websockets.
pub proof fn law_edit_starts_from_the_current_values(
    proxy_host: Seq<char>,
    zone: Seq<char>,
    declared: Map<Seq<char>, ServiceConfigView>,
    name: Seq<char>,
)
    ensures
        ({
            let stage = services::first_edit(proxy_host, zone, declared, name);
            &&& stage is Enter
            &&& declared.dom().contains(name) ==> stage->defaults == declared[name]
            &&& !declared.dom().contains(name) ==> {
                let offered = stage->defaults;
                &&& name.contains('.') ==> offered.domain == name
                &&& !name.contains('.') ==> offered.domain == name + "."@ + zone
                &&& offered.proxy_host is None
                &&& offered.upstream.host == proxy_host
                &&& offered.upstream.port == 80
                &&& offered.upstream.scheme is Http
                &&& offered.tls
                &&& !offered.websocket
            }
        }),
{
}

/// A service is added exactly where there is none of its name and the services
/// with it are valid. Then it stands under its name, and every other service is
/// as it was.
pub proof fn law_service_is_added_as_given(
    proxy_host: Seq<char>,
    zone: Seq<char>,
    declared: Map<Seq<char>, ServiceConfigView>,
    name: Seq<char>,
    service: ServiceConfigView,
)
    requires
        declared.dom().finite(),
    ensures
        ({
            let r = services::added(proxy_host, zone, declared, name, service);
            let with = declared.insert(name, service);
            &&& declared.dom().contains(name) ==> r == Err::<
                Map<Seq<char>, ServiceConfigView>,
                ServiceErrorView,
            >(ServiceErrorView::AlreadyExists(name))
            &&& !declared.dom().contains(name) && reconciler::valid(proxy_host, zone, with) ==> r
                == Ok::<Map<Seq<char>, ServiceConfigView>, ServiceErrorView>(with)
            &&& !declared.dom().contains(name) && !reconciler::valid(proxy_host, zone, with) ==> r
                is Err && r->Err_0 is Invalid
        }),
{
    reconciler::law_valid_means_no_fault(proxy_host, zone, declared.insert(name, service));
}

/// A service is changed exactly where there is one of its name and the services
/// with the new values are valid. Then it has the new values, and every other
/// service is as it was.
pub proof fn law_service_is_changed_as_given(
    proxy_host: Seq<char>,
    zone: Seq<char>,
    declared: Map<Seq<char>, ServiceConfigView>,
    name: Seq<char>,
    service: ServiceConfigView,
)
    requires
        declared.dom().finite(),
    ensures
        ({
            let r = services::modified(proxy_host, zone, declared, name, service);
            let with = declared.insert(name, service);
            &&& !declared.dom().contains(name) ==> r == Err::<
                Map<Seq<char>, ServiceConfigView>,
                ServiceErrorView,
            >(ServiceErrorView::NotFound(name))
            &&& declared.dom().contains(name) && reconciler::valid(proxy_host, zone, with) ==> r
                == Ok::<Map<Seq<char>, ServiceConfigView>, ServiceErrorView>(with)
            &&& declared.dom().contains(name) && !reconciler::valid(proxy_host, zone, with) ==> r
                is Err && r->Err_0 is Invalid
        }),
{
    reconciler::law_valid_means_no_fault(proxy_host, zone, declared.insert(name, service));
}

/// A service is taken away exactly where there is one of its name and the others
/// are valid. Then the others are as they were.
pub proof fn law_service_is_taken_away(
    proxy_host: Seq<char>,
    zone: Seq<char>,
    declared: Map<Seq<char>, ServiceConfigView>,
    name: Seq<char>,
)
    requires
        declared.dom().finite(),
    ensures
        ({
            let r = services::removed(proxy_host, zone, declared, name);
            let others = declared.remove(name);
            &&& !declared.dom().contains(name) ==> r == Err::<
                Map<Seq<char>, ServiceConfigView>,
                ServiceErrorView,
            >(ServiceErrorView::NotFound(name))
            &&& declared.dom().contains(name) && reconciler::valid(proxy_host, zone, others) ==> r
                == Ok::<Map<Seq<char>, ServiceConfigView>, ServiceErrorView>(others)
            &&& declared.dom().contains(name) && !reconciler::valid(proxy_host, zone, others) ==> r
                is Err && r->Err_0 is Invalid
        }),
{
    reconciler::law_valid_means_no_fault(proxy_host, zone, declared.remove(name));
}

/// The port that is offered is the current one. Where there is none it is 80 for
/// HTTP and 443 for HTTPS.
pub proof fn law_offered_port_is_the_current_or_the_usual_one(current: u16)
    ensures
        current > 0 ==> services::offered_port(UpstreamSchemeConfig::Http, current) == current,
        current > 0 ==> services::offered_port(UpstreamSchemeConfig::Https, current) == current,
        services::offered_port(UpstreamSchemeConfig::Http, 0) == 80,
        services::offered_port(UpstreamSchemeConfig::Https, 0) == 443,
{
}

/// A row shows the name, the domain, the host that the record points to, the
/// upstream as a URL, and whether there is TLS and are websockets, in this order.
pub proof fn law_row_shows_the_service(
    name: Seq<char>,
    service: ServiceConfigView,
    proxy_host: Seq<char>,
)
    ensures
        ({
            let row = services::row_of(name, service, proxy_host);
            let port = text::decimal(service.upstream.port as nat);
            &&& row.len() == 6
            &&& row[0] == name
            &&& row[1] == service.domain
            &&& service.proxy_host is None ==> row[2] == proxy_host
            &&& service.proxy_host is Some ==> row[2] == service.proxy_host->0
            &&& service.upstream.scheme is Http ==> row[3] == "http://"@ + service.upstream.host
                + ":"@ + port
            &&& service.upstream.scheme is Https ==> row[3] == "https://"@ + service.upstream.host
                + ":"@ + port
            &&& row[4] == if service.tls {
                "yes"@
            } else {
                "no"@
            }
            &&& row[5] == if service.websocket {
                "yes"@
            } else {
                "no"@
            }
        }),
{
    reveal_strlit("http");
    reveal_strlit("https");
    reveal_strlit("://");
    reveal_strlit("http://");
    reveal_strlit("https://");
    assert("http"@ + "://"@ =~= "http://"@);
    assert("https"@ + "://"@ =~= "https://"@);
}

} // verus!
