//! What a run from the first stage to the last does.

use super::{ReconcileErrorView, DesiredStateView};
use crate::cert_provider::{CertificateChangeView, CertificateView};
use crate::dns_provider::{Dns01ProviderConfigView, DnsChangeView, DnsRecordView};
use crate::proxy_provider::{CertificateRef, ProxyChangeView, ProxyHostView};
use crate::reconciler::run::{ActionView, EventView, Goal, StageView};
use crate::reconciler::{desired, diff, dns_laws, plan, proxy_laws, run};
use crate::{config, order, text};
use vstd::prelude::*;

verus! {

/// What the providers list during a run in which they do all they are asked.
pub struct Holdings {
    /// The certificates at first.
    pub certificates: Seq<CertificateView>,
    /// The certificates after changes have been made to them.
    pub changed_certificates: Seq<CertificateView>,
    pub records: Seq<DnsRecordView>,
    pub hosts: Seq<ProxyHostView>,
}

/// What comes of the action that is due, where the provider does it.
pub open spec fn success(stage: StageView, held: Holdings) -> EventView {
    match stage {
        StageView::FindCertificate { .. } => EventView::Certificates(Ok(held.certificates)),
        StageView::CreateCertificate { .. } => EventView::CertificateApplied(Ok(())),
        StageView::ConfirmCertificate => EventView::Certificates(Ok(held.changed_certificates)),
        StageView::ReadRecords { .. } => EventView::Records(Ok(held.records)),
        StageView::ChangeRecords { .. } => EventView::DnsApplied(Ok(())),
        StageView::ReadHosts { .. } => EventView::Hosts(Ok(held.hosts)),
        StageView::ChangeHosts { .. } => EventView::ProxyApplied(Ok(())),
        StageView::Reached => EventView::ProxyApplied(Ok(())),
    }
}

/// How many kinds of stages can still follow.
pub open spec fn stages_left(stage: StageView) -> int {
    match stage {
        StageView::FindCertificate { .. } => 7,
        StageView::CreateCertificate { .. } => 6,
        StageView::ConfirmCertificate => 5,
        StageView::ReadRecords { .. } => 4,
        StageView::ChangeRecords { .. } => 3,
        StageView::ReadHosts { .. } => 2,
        StageView::ChangeHosts { .. } => 1,
        StageView::Reached => 0,
    }
}

/// How many changes are left at a stage.
pub open spec fn changes_left(stage: StageView) -> nat {
    match stage {
        StageView::CreateCertificate { changes } => changes.len(),
        StageView::ChangeRecords { changes, .. } => changes.len(),
        StageView::ChangeHosts { changes } => changes.len(),
        _ => 0,
    }
}

/// What is done from a stage on, and how it ends, where the providers do all
/// they are asked.
pub open spec fn journey(goal: Goal, stage: StageView, held: Holdings) -> (
    Seq<ActionView>,
    Result<(), ReconcileErrorView>,
)
    decreases stages_left(stage), changes_left(stage),
{
    if stage is Reached || !run::sound_stage(stage) {
        (Seq::empty(), Ok(()))
    } else {
        match run::next_stage(goal, stage, success(stage, held)) {
            Err(error) => (seq![run::due(stage)], Err(error)),
            Ok(next) => {
                let rest = journey(goal, next, held);
                (seq![run::due(stage)] + rest.0, rest.1)
            },
        }
    }
}

/// The changes to the records, as actions.
pub open spec fn dns_actions(changes: Seq<DnsChangeView>) -> Seq<ActionView> {
    changes.map_values(|c: DnsChangeView| ActionView::ApplyDns(c))
}

/// The changes to the hosts, as actions.
pub open spec fn proxy_actions(changes: Seq<ProxyChangeView>) -> Seq<ActionView> {
    changes.map_values(|c: ProxyChangeView| ActionView::ApplyProxy(c))
}

/// The changes to the certificates, as actions.
pub open spec fn certificate_actions(changes: Seq<CertificateChangeView>) -> Seq<ActionView> {
    changes.map_values(|c: CertificateChangeView| ActionView::ApplyCertificate(c))
}

/// What is done once the certificate is settled: the records are listed and
/// changed, then the hosts are.
pub open spec fn resource_actions(state: DesiredStateView, held: Holdings) -> Seq<ActionView> {
    seq![ActionView::ListRecords] + dns_actions(diff::dns_diff(state.dns_records, held.records))
        + seq![ActionView::ListHosts] + proxy_actions(
        diff::proxy_diff(state.proxy_hosts, held.hosts),
    )
}

proof fn lemma_changing_hosts(goal: Goal, changes: Seq<ProxyChangeView>, held: Holdings)
    ensures
        journey(goal, run::change_hosts(changes), held) == (proxy_actions(changes), Ok::<
            (),
            ReconcileErrorView,
        >(())),
    decreases changes.len(),
{
    if changes.len() > 0 {
        lemma_changing_hosts(goal, changes.skip(1), held);
        assert(seq![ActionView::ApplyProxy(changes[0])] + proxy_actions(changes.skip(1))
            =~= proxy_actions(changes));
    } else {
        assert(proxy_actions(changes) =~= Seq::empty());
    }
}

proof fn lemma_changing_records(
    goal: Goal,
    changes: Seq<DnsChangeView>,
    hosts: Seq<ProxyHostView>,
    held: Holdings,
)
    ensures
        journey(goal, run::change_records(changes, hosts), held) == (
            dns_actions(changes) + seq![ActionView::ListHosts] + proxy_actions(
                diff::proxy_diff(hosts, held.hosts),
            ),
            Ok::<(), ReconcileErrorView>(()),
        ),
    decreases changes.len(),
{
    let end = seq![ActionView::ListHosts] + proxy_actions(diff::proxy_diff(hosts, held.hosts));
    if changes.len() > 0 {
        lemma_changing_records(goal, changes.skip(1), hosts, held);
        assert(seq![ActionView::ApplyDns(changes[0])] + (dns_actions(changes.skip(1))
            + seq![ActionView::ListHosts] + proxy_actions(diff::proxy_diff(hosts, held.hosts)))
            =~= dns_actions(changes) + seq![ActionView::ListHosts] + proxy_actions(
            diff::proxy_diff(hosts, held.hosts),
        ));
    } else {
        lemma_changing_hosts(goal, diff::proxy_diff(hosts, held.hosts), held);
        assert(dns_actions(changes) + seq![ActionView::ListHosts] + proxy_actions(
            diff::proxy_diff(hosts, held.hosts),
        ) =~= end);
    }
}

/// Once the certificate is settled, the records are listed, exactly the changes
/// to them are made in order, the hosts are listed, and exactly the changes to
/// them are made in order.
pub proof fn law_resources_are_changed_in_order(
    goal: Goal,
    state: DesiredStateView,
    held: Holdings,
)
    ensures
        journey(
            goal,
            StageView::ReadRecords { records: state.dns_records, hosts: state.proxy_hosts },
            held,
        ) == (resource_actions(state, held), Ok::<(), ReconcileErrorView>(())),
{
    let changes = diff::dns_diff(state.dns_records, held.records);
    lemma_changing_records(goal, changes, state.proxy_hosts, held);
    assert(seq![ActionView::ListRecords] + (dns_actions(changes) + seq![ActionView::ListHosts]
        + proxy_actions(diff::proxy_diff(state.proxy_hosts, held.hosts))) =~= resource_actions(
        state,
        held,
    ));
}

proof fn lemma_creating(goal: Goal, changes: Seq<CertificateChangeView>, held: Holdings)
    ensures
        ({
            let rest = journey(goal, StageView::ConfirmCertificate, held);
            journey(goal, run::create_certificate(changes), held) == (
                certificate_actions(changes) + rest.0,
                rest.1,
            )
        }),
    decreases changes.len(),
{
    let rest = journey(goal, StageView::ConfirmCertificate, held);
    if changes.len() > 0 {
        lemma_creating(goal, changes.skip(1), held);
        assert(seq![ActionView::ApplyCertificate(changes[0])] + (certificate_actions(
            changes.skip(1),
        ) + rest.0) =~= certificate_actions(changes) + rest.0);
    } else {
        assert(certificate_actions(changes) + rest.0 =~= rest.0);
    }
}

/// What is done about the certificate: nothing without TLS services. Otherwise
/// the certificates are listed. Where the wildcard certificate is not there, it
/// is created and the certificates are listed again.
pub open spec fn certificate_steps(
    goal: Goal,
    dns01: Option<Dns01ProviderConfigView>,
    held: Holdings,
) -> Seq<ActionView> {
    match dns01 {
        None => Seq::empty(),
        Some(config) => if diff::certificate_id_for(
            held.certificates,
            seq![desired::wildcard(goal.zone)],
        ) is Some {
            seq![ActionView::ListCertificates]
        } else {
            seq![ActionView::ListCertificates] + certificate_actions(
                diff::certificate_diff(
                    seq![desired::wildcard_certificate_of(goal.zone, Some(config), None)],
                    held.certificates,
                ),
            ) + seq![ActionView::ListCertificates]
        },
    }
}

/// The id of the certificate that TLS services are served with, or why there is
/// none.
pub open spec fn certificate_outcome(
    goal: Goal,
    dns01: Option<Dns01ProviderConfigView>,
    held: Holdings,
) -> Result<Option<Seq<char>>, ReconcileErrorView> {
    let wanted = seq![desired::wildcard(goal.zone)];
    match dns01 {
        None => Ok(None),
        Some(_) => match diff::certificate_id_for(held.certificates, wanted) {
            Some(id) => Ok(Some(id)),
            None => match diff::certificate_id_for(held.changed_certificates, wanted) {
                Some(id) => Ok(Some(id)),
                None => Err(
                    ReconcileErrorView::InvalidConfig(
                        "created wildcard certificate was not found for "@ + desired::wildcard(
                            goal.zone,
                        ),
                    ),
                ),
            },
        },
    }
}

/// The desired state that a run works towards, or why it ends early.
pub open spec fn run_state(
    goal: Goal,
    dns01: Option<Dns01ProviderConfigView>,
    held: Holdings,
) -> Result<DesiredStateView, ReconcileErrorView> {
    match certificate_outcome(goal, dns01, held) {
        Err(error) => Err(error),
        Ok(id) => desired::desired_state(goal.proxy_host, goal.zone, goal.services, id),
    }
}

/// A whole run: the certificate comes first. Where it cannot be settled, no
/// record and no host is touched; otherwise the records and then the hosts are
/// brought to the desired state.
pub proof fn law_run(
    goal: Goal,
    propagation_seconds: Option<u32>,
    offered: Option<Dns01ProviderConfigView>,
    held: Holdings,
)
    requires
        run::first_stage(goal, propagation_seconds, offered) is Ok,
    ensures
        ({
            let first = run::first_stage(goal, propagation_seconds, offered)->Ok_0;
            let dns01 = run::dns01_of(propagation_seconds, goal.services, offered)->Ok_0;
            let steps = certificate_steps(goal, dns01, held);
            journey(goal, first, held) == match run_state(goal, dns01, held) {
                Ok(state) => (
                    steps + resource_actions(state, held),
                    Ok::<(), ReconcileErrorView>(()),
                ),
                Err(error) => (steps, Err::<(), ReconcileErrorView>(error)),
            }
        }),
{
    let first = run::first_stage(goal, propagation_seconds, offered)->Ok_0;
    let dns01 = run::dns01_of(propagation_seconds, goal.services, offered)->Ok_0;
    let steps = certificate_steps(goal, dns01, held);
    if let Ok(state) = run_state(goal, dns01, held) {
        law_resources_are_changed_in_order(goal, state, held);
        if dns01 is None {
            assert(steps + resource_actions(state, held) =~= resource_actions(state, held));
        }
    }
    if let Some(config) = dns01 {
        let list = seq![ActionView::ListCertificates];
        if diff::certificate_id_for(held.certificates, seq![desired::wildcard(goal.zone)])
            is None {
            let changes = diff::certificate_diff(
                seq![desired::wildcard_certificate_of(goal.zone, Some(config), None)],
                held.certificates,
            );
            lemma_creating(goal, changes, held);
            let confirm = journey(goal, StageView::ConfirmCertificate, held);
            let created = certificate_actions(changes);
            assert(journey(goal, first, held).0 == list + (created + confirm.0));
            assert(list + (created + confirm.0) =~= list + created + confirm.0);
            match run_state(goal, dns01, held) {
                Ok(state) => {
                    assert(confirm.0 == list + resource_actions(state, held));
                    assert(list + created + (list + resource_actions(state, held)) =~= list
                        + created + list + resource_actions(state, held));
                },
                Err(_) => {
                    assert(confirm.0 == list);
                },
            }
        }
    }
}

/// A configuration with a fault, and one with TLS services under a DNS provider
/// without DNS-01, are refused before anything is done.
pub proof fn law_refused_before_any_action(
    goal: Goal,
    propagation_seconds: Option<u32>,
    offered: Option<Dns01ProviderConfigView>,
)
    requires
        goal.services.dom().finite(),
    ensures
        !super::valid(goal.proxy_host, goal.zone, goal.services) ==> run::first_stage(
            goal,
            propagation_seconds,
            offered,
        ) is Err,
        desired::any_tls(goal.services) && offered is None ==> run::first_stage(
            goal,
            propagation_seconds,
            offered,
        ) is Err,
        super::valid(goal.proxy_host, goal.zone, goal.services) && (desired::any_tls(goal.services)
            ==> offered is Some) ==> run::first_stage(goal, propagation_seconds, offered) is Ok,
{
    super::law_valid_means_no_fault(goal.proxy_host, goal.zone, goal.services);
}

/// What some values are picked as, in order, without those that are not picked.
pub open spec fn picked<S, T>(list: Seq<S>, pick: spec_fn(S) -> Option<T>) -> Seq<T> {
    diff::somes(list.map_values(pick))
}

/// What an optional value is picked as.
pub open spec fn pick_some<S, T>(value: Option<S>, pick: spec_fn(S) -> Option<T>) -> Option<T> {
    match value {
        Some(held) => pick(held),
        None => None,
    }
}

proof fn lemma_picked_push<S, T>(list: Seq<S>, value: S, pick: spec_fn(S) -> Option<T>)
    ensures
        picked(list.push(value), pick) == match pick(value) {
            Some(found) => picked(list, pick).push(found),
            None => picked(list, pick),
        },
{
    assert(list.push(value).map_values(pick).drop_last() =~= list.map_values(pick));
}

proof fn lemma_picked_join<S, T>(x: Seq<S>, y: Seq<S>, pick: spec_fn(S) -> Option<T>)
    ensures
        picked(x + y, pick) == picked(x, pick) + picked(y, pick),
    decreases y.len(),
{
    if y.len() == 0 {
        assert(x + y =~= x);
        assert(picked(x, pick) + picked(y, pick) =~= picked(x, pick));
    } else {
        lemma_picked_join(x, y.drop_last(), pick);
        assert(x + y =~= (x + y.drop_last()).push(y.last()));
        assert(y =~= y.drop_last().push(y.last()));
        lemma_picked_push(x + y.drop_last(), y.last(), pick);
        lemma_picked_push(y.drop_last(), y.last(), pick);
        assert(picked(x + y, pick) =~= picked(x, pick) + picked(y, pick));
    }
}

/// The change to a record that an action makes, if it makes one.
pub open spec fn dns_change_in(action: ActionView) -> Option<DnsChangeView> {
    match action {
        ActionView::ApplyDns(change) => Some(change),
        _ => None,
    }
}

/// The change to a host that an action makes, if it makes one.
pub open spec fn proxy_change_in(action: ActionView) -> Option<ProxyChangeView> {
    match action {
        ActionView::ApplyProxy(change) => Some(change),
        _ => None,
    }
}

/// The change to a certificate that an action makes, if it makes one.
pub open spec fn certificate_change_in(action: ActionView) -> Option<CertificateChangeView> {
    match action {
        ActionView::ApplyCertificate(change) => Some(change),
        _ => None,
    }
}

/// The changes to records among some actions.
pub open spec fn dns_changes_among(actions: Seq<ActionView>) -> Seq<DnsChangeView> {
    picked(actions, |a: ActionView| dns_change_in(a))
}

/// The changes to hosts among some actions.
pub open spec fn proxy_changes_among(actions: Seq<ActionView>) -> Seq<ProxyChangeView> {
    picked(actions, |a: ActionView| proxy_change_in(a))
}

/// The changes to certificates among some actions.
pub open spec fn certificate_changes_among(actions: Seq<ActionView>) -> Seq<
    CertificateChangeView,
> {
    picked(actions, |a: ActionView| certificate_change_in(a))
}

proof fn lemma_certificates_among_own(changes: Seq<CertificateChangeView>)
    ensures
        certificate_changes_among(certificate_actions(changes)) == changes,
    decreases changes.len(),
{
    let pick = |a: ActionView| certificate_change_in(a);
    if changes.len() > 0 {
        lemma_certificates_among_own(changes.drop_last());
        assert(certificate_actions(changes).map_values(pick).drop_last() =~= certificate_actions(
            changes.drop_last(),
        ).map_values(pick));
        assert(changes.drop_last().push(changes.last()) =~= changes);
    }
}

proof fn lemma_no_certificates_among(actions: Seq<ActionView>)
    requires
        forall|i: int|
            0 <= i < actions.len() ==> !((#[trigger] actions[i]) is ApplyCertificate),
    ensures
        certificate_changes_among(actions) == Seq::<CertificateChangeView>::empty(),
{
    diff::lemma_no_somes(
        actions.map_values(
            |a: ActionView| certificate_change_in(a),
        ),
    );
}

/// The changes to the certificates of a run: none without TLS services, and none
/// where the wildcard certificate is there.
pub open spec fn certificate_changes_of(
    goal: Goal,
    dns01: Option<Dns01ProviderConfigView>,
    held: Holdings,
) -> Seq<CertificateChangeView> {
    match dns01 {
        None => Seq::empty(),
        Some(config) => if diff::certificate_id_for(
            held.certificates,
            seq![desired::wildcard(goal.zone)],
        ) is Some {
            Seq::empty()
        } else {
            diff::certificate_diff(
                seq![desired::wildcard_certificate_of(goal.zone, Some(config), None)],
                held.certificates,
            )
        },
    }
}

proof fn lemma_certificate_changes_of_run(
    goal: Goal,
    dns01: Option<Dns01ProviderConfigView>,
    state: DesiredStateView,
    held: Holdings,
)
    ensures
        certificate_changes_among(
            certificate_steps(goal, dns01, held) + resource_actions(state, held),
        ) == certificate_changes_of(goal, dns01, held),
{
    let certificates = |a: ActionView| certificate_change_in(a);
    let steps = certificate_steps(goal, dns01, held);
    let changes = certificate_changes_of(goal, dns01, held);
    let list = seq![ActionView::ListCertificates];
    lemma_no_certificates_among(resource_actions(state, held));
    lemma_picked_join(steps, resource_actions(state, held), certificates);
    assert(certificate_changes_among(steps) == changes) by {
        lemma_no_certificates_among(list);
        lemma_no_certificates_among(Seq::empty());
        lemma_certificates_among_own(changes);
        lemma_picked_join(list, certificate_actions(changes), certificates);
        lemma_picked_join(list + certificate_actions(changes), list, certificates);
        assert(Seq::<CertificateChangeView>::empty() + changes + Seq::<
            CertificateChangeView,
        >::empty() =~= changes);
    }
    assert(changes + Seq::<CertificateChangeView>::empty() =~= changes);
}

proof fn lemma_dns_among_own(changes: Seq<DnsChangeView>)
    ensures
        dns_changes_among(dns_actions(changes)) == changes,
        proxy_changes_among(dns_actions(changes)) == Seq::<ProxyChangeView>::empty(),
    decreases changes.len(),
{
    let actions = dns_actions(changes);
    let pick = |a: ActionView| dns_change_in(a);
    let other = |a: ActionView| proxy_change_in(a);
    diff::lemma_no_somes(actions.map_values(other));
    if changes.len() > 0 {
        lemma_dns_among_own(changes.drop_last());
        assert(actions.map_values(pick).drop_last() =~= dns_actions(
            changes.drop_last(),
        ).map_values(pick));
        assert(changes.drop_last().push(changes.last()) =~= changes);
    }
}

proof fn lemma_proxy_among_own(changes: Seq<ProxyChangeView>)
    ensures
        proxy_changes_among(proxy_actions(changes)) == changes,
        dns_changes_among(proxy_actions(changes)) == Seq::<DnsChangeView>::empty(),
    decreases changes.len(),
{
    let actions = proxy_actions(changes);
    let pick = |a: ActionView| proxy_change_in(a);
    let other = |a: ActionView| dns_change_in(a);
    diff::lemma_no_somes(actions.map_values(other));
    if changes.len() > 0 {
        lemma_proxy_among_own(changes.drop_last());
        assert(actions.map_values(pick).drop_last() =~= proxy_actions(
            changes.drop_last(),
        ).map_values(pick));
        assert(changes.drop_last().push(changes.last()) =~= changes);
    }
}

proof fn lemma_none_among(actions: Seq<ActionView>)
    requires
        forall|i: int|
            0 <= i < actions.len() ==> !((#[trigger] actions[i]) is ApplyDns) && !(
            actions[i] is ApplyProxy),
    ensures
        dns_changes_among(actions) == Seq::<DnsChangeView>::empty(),
        proxy_changes_among(actions) == Seq::<ProxyChangeView>::empty(),
{
    diff::lemma_no_somes(
        actions.map_values(
            |a: ActionView| dns_change_in(a),
        ),
    );
    diff::lemma_no_somes(
        actions.map_values(
            |a: ActionView| proxy_change_in(a),
        ),
    );
}

pub(crate) proof fn lemma_changes_of_run(
    goal: Goal,
    dns01: Option<Dns01ProviderConfigView>,
    state: DesiredStateView,
    held: Holdings,
)
    ensures
        dns_changes_among(certificate_steps(goal, dns01, held) + resource_actions(state, held))
            == diff::dns_diff(state.dns_records, held.records),
        proxy_changes_among(certificate_steps(goal, dns01, held) + resource_actions(state, held))
            == diff::proxy_diff(state.proxy_hosts, held.hosts),
{
    let dns = |a: ActionView| dns_change_in(a);
    let proxy = |a: ActionView| proxy_change_in(a);
    let steps = certificate_steps(goal, dns01, held);
    let d = diff::dns_diff(state.dns_records, held.records);
    let p = diff::proxy_diff(state.proxy_hosts, held.hosts);
    let a = seq![ActionView::ListRecords];
    let b = dns_actions(d);
    let c = seq![ActionView::ListHosts];
    let e = proxy_actions(p);
    lemma_none_among(steps);
    lemma_none_among(a);
    lemma_none_among(c);
    lemma_dns_among_own(d);
    lemma_proxy_among_own(p);
    lemma_picked_join(a, b, dns);
    lemma_picked_join(a + b, c, dns);
    lemma_picked_join(a + b + c, e, dns);
    lemma_picked_join(steps, a + b + c + e, dns);
    lemma_picked_join(a, b, proxy);
    lemma_picked_join(a + b, c, proxy);
    lemma_picked_join(a + b + c, e, proxy);
    lemma_picked_join(steps, a + b + c + e, proxy);
    assert(dns_changes_among(steps + resource_actions(state, held)) =~= d);
    assert(proxy_changes_among(steps + resource_actions(state, held)) =~= p);
}

/// A run that ends well brings the providers to the desired state. Of the records
/// and hosts that result from what it applied, there is one for each that is
/// desired, which is as desired, and no other but for hosts without a domain.
/// Another run would change none of them.
pub proof fn law_run_converges(
    goal: Goal,
    propagation_seconds: Option<u32>,
    offered: Option<Dns01ProviderConfigView>,
    held: Holdings,
    record_ids: spec_fn(int) -> Seq<char>,
    host_ids: spec_fn(int) -> Seq<char>,
    records: Seq<DnsRecordView>,
    hosts: Seq<ProxyHostView>,
)
    requires
        run::first_stage(goal, propagation_seconds, offered) is Ok,
        journey(goal, run::first_stage(goal, propagation_seconds, offered)->Ok_0, held).1 is Ok,
        dns_laws::sound_zone(held.records.to_set()),
        dns_laws::fresh_record_ids(held.records.to_set(), record_ids),
        proxy_laws::sound_hosts(held.hosts.to_set()),
        proxy_laws::fresh_host_ids(held.hosts.to_set(), host_ids),
        ({
            let actions = journey(
                goal,
                run::first_stage(goal, propagation_seconds, offered)->Ok_0,
                held,
            ).0;
            &&& records.to_set() == dns_laws::records_applied(
                held.records.to_set(),
                dns_changes_among(actions),
                record_ids,
            )
            &&& hosts.to_set() == proxy_laws::hosts_applied(
                held.hosts.to_set(),
                proxy_changes_among(actions),
                host_ids,
            )
        }),
    ensures
        ({
            let dns01 = run::dns01_of(propagation_seconds, goal.services, offered)->Ok_0;
            let state = run_state(goal, dns01, held)->Ok_0;
            &&& run_state(goal, dns01, held) is Ok
            &&& dns_laws::sound_zone(records.to_set())
            &&& dns_laws::records_in_sync(state.dns_records, records)
            &&& forall|i: int|
                0 <= i < records.len() ==> dns_laws::is_desired_record(
                    state.dns_records,
                    #[trigger] records[i],
                )
            &&& proxy_laws::sound_hosts(hosts.to_set())
            &&& proxy_laws::hosts_in_sync(state.proxy_hosts, hosts)
            &&& forall|i: int|
                0 <= i < hosts.len() && proxy_laws::first_domain(#[trigger] hosts[i]) is Some
                    ==> proxy_laws::is_desired_host(state.proxy_hosts, hosts[i])
            &&& diff::dns_diff(state.dns_records, records) == Seq::<DnsChangeView>::empty()
            &&& diff::proxy_diff(state.proxy_hosts, hosts) == Seq::<ProxyChangeView>::empty()
        }),
{
    let dns01 = run::dns01_of(propagation_seconds, goal.services, offered)->Ok_0;
    law_run(goal, propagation_seconds, offered, held);
    let state = run_state(goal, dns01, held)->Ok_0;
    lemma_changes_of_run(goal, dns01, state, held);
    dns_laws::law_dns_changes_converge(state.dns_records, held.records, record_ids, records);
    proxy_laws::law_proxy_changes_converge(state.proxy_hosts, held.hosts, host_ids, hosts);
}

proof fn lemma_picked_alike<S, T>(
    x: Seq<Option<S>>,
    y: Seq<Option<S>>,
    pick: spec_fn(S) -> Option<T>,
)
    requires
        x.len() == y.len(),
        forall|i: int|
            0 <= i < x.len() ==> pick_some(#[trigger] x[i], pick) == pick_some(y[i], pick),
    ensures
        picked(diff::somes(x), pick) == picked(diff::somes(y), pick),
    decreases x.len(),
{
    if x.len() > 0 {
        let a = x.drop_last();
        let b = y.drop_last();
        assert forall|i: int| 0 <= i < a.len() implies pick_some(#[trigger] a[i], pick)
            == pick_some(b[i], pick) by {
            assert(a[i] == x[i]);
        }
        lemma_picked_alike(a, b, pick);
        assert(pick_some(x[x.len() - 1], pick) == pick_some(y[y.len() - 1], pick));
        if let Some(value) = x.last() {
            lemma_picked_push(diff::somes(a), value, pick);
        }
        if let Some(value) = y.last() {
            lemma_picked_push(diff::somes(b), value, pick);
        }
    }
}

/// The id that a change deletes, if it deletes a host.
pub open spec fn deleted_id(change: ProxyChangeView) -> Option<Seq<char>> {
    match change {
        ProxyChangeView::Delete { id } => Some(id),
        _ => None,
    }
}

/// The host that a change creates, if it creates one, whatever certificate it is
/// served with.
pub open spec fn created_host(change: ProxyChangeView) -> Option<ProxyHostView> {
    match change {
        ProxyChangeView::Create(host) => Some(ProxyHostView { certificate: None, ..host }),
        _ => None,
    }
}

/// The change, unless it creates or updates a host that is served over TLS.
pub open spec fn change_without_tls(change: ProxyChangeView) -> Option<ProxyChangeView> {
    match change {
        ProxyChangeView::Create(host) => if host.force_https {
            None
        } else {
            Some(change)
        },
        ProxyChangeView::Update { host, .. } => if host.force_https {
            None
        } else {
            Some(change)
        },
        ProxyChangeView::Delete { .. } => Some(change),
    }
}

/// Whether two lists of changes to hosts differ in nothing but in the
/// certificates of TLS hosts, and so in which of the existing TLS hosts are
/// updated: they delete the same hosts, create the same ones but for the
/// certificate, and are the same for hosts without TLS.
pub open spec fn alike_but_for_certificates(
    x: Seq<ProxyChangeView>,
    y: Seq<ProxyChangeView>,
) -> bool {
    &&& picked(x, |c: ProxyChangeView| deleted_id(c)) == picked(
        y,
        |c: ProxyChangeView| deleted_id(c),
    )
    &&& picked(x, |c: ProxyChangeView| created_host(c)) == picked(
        y,
        |c: ProxyChangeView| created_host(c),
    )
    &&& picked(x, |c: ProxyChangeView| change_without_tls(c)) == picked(
        y,
        |c: ProxyChangeView| change_without_tls(c),
    )
}

spec fn alike_hosts(x: ProxyHostView, y: ProxyHostView) -> bool {
    &&& y == ProxyHostView { certificate: y.certificate, ..x }
    &&& x.force_https || x.certificate == y.certificate
}

proof fn lemma_alike_by_domain(x: Seq<ProxyHostView>, y: Seq<ProxyHostView>)
    requires
        x.len() == y.len(),
        forall|i: int| 0 <= i < x.len() ==> alike_hosts(#[trigger] x[i], y[i]),
    ensures
        diff::hosts_by_domain(x).dom() == diff::hosts_by_domain(y).dom(),
        forall|k: Seq<char>| #[trigger]
            diff::hosts_by_domain(x).dom().contains(k) ==> alike_hosts(
                diff::hosts_by_domain(x)[k],
                diff::hosts_by_domain(y)[k],
            ),
    decreases x.len(),
{
    if x.len() > 0 {
        let a = x.drop_last();
        let b = y.drop_last();
        assert forall|i: int| 0 <= i < a.len() implies alike_hosts(#[trigger] a[i], b[i]) by {
            assert(a[i] == x[i]);
        }
        lemma_alike_by_domain(a, b);
        assert(alike_hosts(x[x.len() - 1], y[y.len() - 1]));
        assert(diff::hosts_by_domain(x).dom() =~= diff::hosts_by_domain(y).dom());
    }
}

proof fn lemma_alike_diffs(
    x: Seq<ProxyHostView>,
    y: Seq<ProxyHostView>,
    actual: Seq<ProxyHostView>,
)
    requires
        x.len() == y.len(),
        forall|i: int| 0 <= i < x.len() ==> alike_hosts(#[trigger] x[i], y[i]),
    ensures
        alike_but_for_certificates(diff::proxy_diff(x, actual), diff::proxy_diff(y, actual)),
{
    let dx = diff::hosts_by_domain(x);
    let dy = diff::hosts_by_domain(y);
    let a = diff::hosts_by_domain(actual);
    lemma_alike_by_domain(x, y);
    proxy_laws::lemma_by_domain(x);
    order::law_ascending_lists::<String>(dx.dom());
    let names = order::ascending::<String>(dx.dom());
    let others = order::ascending::<String>(a.dom());
    let ux = names.map_values(|k: Seq<char>| diff::host_upsert(k, dx, a));
    let uy = names.map_values(|k: Seq<char>| diff::host_upsert(k, dy, a));
    let rx = others.map_values(|k: Seq<char>| diff::host_delete(k, dx, a));
    let ry = others.map_values(|k: Seq<char>| diff::host_delete(k, dy, a));
    assert(rx =~= ry);
    assert(diff::proxy_diff(x, actual) == diff::somes(ux) + diff::somes(rx));
    assert(diff::proxy_diff(y, actual) == diff::somes(uy) + diff::somes(ry));
    let deleted = |c: ProxyChangeView| deleted_id(c);
    let created = |c: ProxyChangeView| created_host(c);
    let plain = |c: ProxyChangeView| change_without_tls(c);
    assert forall|i: int| 0 <= i < names.len() implies {
        &&& pick_some(#[trigger] ux[i], deleted) == pick_some(uy[i], deleted)
        &&& pick_some(ux[i], created) == pick_some(uy[i], created)
        &&& pick_some(ux[i], plain) == pick_some(uy[i], plain)
    } by {
        let k = names[i];
        assert(names.contains(k));
        assert(dx.dom().contains(k));
        assert(alike_hosts(dx[k], dy[k]));
        assert(ux[i] == diff::host_upsert(k, dx, a));
        assert(uy[i] == diff::host_upsert(k, dy, a));
    }
    lemma_picked_alike(ux, uy, deleted);
    lemma_picked_alike(ux, uy, created);
    lemma_picked_alike(ux, uy, plain);
    lemma_picked_join(diff::somes(ux), diff::somes(rx), deleted);
    lemma_picked_join(diff::somes(uy), diff::somes(ry), deleted);
    lemma_picked_join(diff::somes(ux), diff::somes(rx), created);
    lemma_picked_join(diff::somes(uy), diff::somes(ry), created);
    lemma_picked_join(diff::somes(ux), diff::somes(rx), plain);
    lemma_picked_join(diff::somes(uy), diff::somes(ry), plain);
}

proof fn lemma_alike_states(goal: Goal, x: Option<CertificateRef>, y: Option<CertificateRef>)
    ensures
        ({
            let a = desired::declared_state(goal.proxy_host, goal.zone, goal.services, x);
            let b = desired::declared_state(goal.proxy_host, goal.zone, goal.services, y);
            &&& a.proxy_hosts.len() == b.proxy_hosts.len()
            &&& forall|i: int|
                0 <= i < a.proxy_hosts.len() ==> alike_hosts(
                    #[trigger] a.proxy_hosts[i],
                    b.proxy_hosts[i],
                )
        }),
{
}

proof fn lemma_hosts_without_tls(goal: Goal, x: Option<CertificateRef>, y: Option<CertificateRef>)
    requires
        goal.services.dom().finite(),
        !desired::any_tls(goal.services),
    ensures
        desired::declared_state(goal.proxy_host, goal.zone, goal.services, x).proxy_hosts
            == desired::declared_state(
            goal.proxy_host,
            goal.zone,
            goal.services,
            y,
        ).proxy_hosts,
{
    let names = config::names(goal.services);
    order::law_ascending_lists::<String>(goal.services.dom());
    let a = desired::declared_state(goal.proxy_host, goal.zone, goal.services, x).proxy_hosts;
    let b = desired::declared_state(goal.proxy_host, goal.zone, goal.services, y).proxy_hosts;
    assert forall|i: int| 0 <= i < names.len() implies a[i] == b[i] by {
        assert(names.contains(names[i]));
        assert(goal.services.dom().contains(names[i]));
        assert(!goal.services[names[i]].tls);
    }
    assert(a =~= b);
}

/// The plan that is shown is what a run applies. It lists exactly the changes
/// that the run makes to the records. It lists exactly those to the hosts too,
/// unless the run first creates the certificate that they are served with: then
/// the certificates of TLS hosts differ, and with them which TLS hosts are
/// updated, but not what is deleted, what is created, and what is done with
/// other hosts. It lists a certificate for each one that the run orders, for the
/// same domains.
/// There is such a plan wherever the id of the wildcard certificate, if it is
/// there, is a number, and always where some service wants TLS.
pub proof fn law_plan_is_what_a_run_applies(
    goal: Goal,
    propagation_seconds: Option<u32>,
    offered: Option<Dns01ProviderConfigView>,
    held: Holdings,
)
    requires
        goal.services.dom().finite(),
        run::first_stage(goal, propagation_seconds, offered) is Ok,
        journey(goal, run::first_stage(goal, propagation_seconds, offered)->Ok_0, held).1 is Ok,
    ensures
        ({
            let actions = journey(
                goal,
                run::first_stage(goal, propagation_seconds, offered)->Ok_0,
                held,
            ).0;
            let id = diff::certificate_id_for(
                held.certificates,
                seq![desired::wildcard(goal.zone)],
            );
            let shown = plan::full_plan(
                goal.proxy_host,
                goal.zone,
                goal.services,
                held.certificates,
                held.records,
                held.hosts,
            );
            let ordered = certificate_changes_among(actions);
            &&& desired::any_tls(goal.services) ==> shown is Ok
            &&& id is None ==> shown is Ok
            &&& (id is Some && desired::certificate_number(id->0) is Some) ==> shown is Ok
            &&& shown is Ok ==> {
                &&& shown->Ok_0.dns_changes == dns_changes_among(actions)
                &&& (id is Some || !desired::any_tls(goal.services)) ==> shown->Ok_0.proxy_changes
                    == proxy_changes_among(actions)
                &&& alike_but_for_certificates(
                    shown->Ok_0.proxy_changes,
                    proxy_changes_among(actions),
                )
                &&& shown->Ok_0.certificate_changes.len() == ordered.len()
                &&& forall|i: int|
                    0 <= i < ordered.len() ==> {
                        &&& (#[trigger] ordered[i]) is Create
                        &&& shown->Ok_0.certificate_changes[i] is Create
                        &&& shown->Ok_0.certificate_changes[i]->Create_0.domains
                            == ordered[i]->Create_0.domains
                    }
            }
        }),
{
    let dns01 = run::dns01_of(propagation_seconds, goal.services, offered)->Ok_0;
    law_run(goal, propagation_seconds, offered, held);
    let state = run_state(goal, dns01, held)->Ok_0;
    lemma_changes_of_run(goal, dns01, state, held);
    lemma_certificate_changes_of_run(goal, dns01, state, held);
    let id = diff::certificate_id_for(held.certificates, seq![desired::wildcard(goal.zone)]);
    reveal_strlit("0");
    assert("0"@ =~= text::decimal(0));
    text::law_decimal_round_trip(0, u32::MAX as nat);
    if desired::any_tls(goal.services) {
        let shown = desired::wildcard_certificate_of(goal.zone, None, None);
        diff::law_created_certificate_is_found(shown, held.certificates, Seq::empty());
        let ordered = desired::wildcard_certificate_of(goal.zone, dns01, None);
        diff::law_created_certificate_is_found(ordered, held.certificates, Seq::empty());
        let placeholder = Some(CertificateRef { id: 0u32 });
        let settled = Some(
            CertificateRef {
                id: desired::certificate_number(
                    certificate_outcome(goal, dns01, held)->Ok_0->0,
                )->0 as u32,
            },
        );
        lemma_alike_states(goal, placeholder, settled);
        lemma_alike_diffs(
            desired::declared_state(
                goal.proxy_host,
                goal.zone,
                goal.services,
                placeholder,
            ).proxy_hosts,
            state.proxy_hosts,
            held.hosts,
        );
    } else {
        if let Some(held_id) = id {
            if let Some(number) = desired::certificate_number(held_id) {
                lemma_hosts_without_tls(goal, None, Some(CertificateRef { id: number as u32 }));
            }
        }
        let none = Seq::<CertificateView>::empty();
        assert(diff::certificate_diff(none, held.certificates) =~= Seq::empty());
    }
}

} // verus!
