//! What holds of the calls to Nginx Proxy Manager and of what it lists, whatever
//! the hosts and the certificates are.

use crate::api::ApiMethod;
use crate::cert_provider::{
    CertProviderErrorView, CertificateChallengeView, CertificateChangeView, CertificateView,
};
use crate::json::Json;
use crate::proxy_provider::npm::{NpmCertificateView, NpmErrorResponse, NpmProxyHostView};
use crate::proxy_provider::{
    npm, CertificateRef, ProxyChangeView, ProxyErrorView, ProxyHostView, UpstreamScheme,
};
use crate::reconciler::diff;
use crate::text;
use vstd::prelude::*;

verus! {

/// What a creation or an update sends comes back: a host that the API keeps as
/// the call told it is listed as managed, and it reads back as the host of the
/// change. A reference to the certificate number 0 comes back as none.
pub proof fn law_sent_host_reads_back(host: ProxyHostView, id: u32)
    ensures
        ({
            let back = ProxyHostView {
                id: Some(text::decimal(id as nat)),
                certificate: if host.certificate == Some(CertificateRef { id: 0 }) {
                    None
                } else {
                    host.certificate
                },
                ..host
            };
            let created = npm::host_call_of(ProxyChangeView::Create(host));
            let updated = npm::host_call_of(
                ProxyChangeView::Update { id: text::decimal(id as nat), host },
            );
            &&& created is Ok && created->Ok_0.body is Some
            &&& npm::kept_host(created->Ok_0.body->0, id).managed()
            &&& npm::kept_host(created->Ok_0.body->0, id).host() == Ok::<
                ProxyHostView,
                ProxyErrorView,
            >(back)
            &&& updated is Ok && updated->Ok_0.body is Some
            &&& npm::kept_host(updated->Ok_0.body->0, id).managed()
            &&& npm::kept_host(updated->Ok_0.body->0, id).host() == Ok::<
                ProxyHostView,
                ProxyErrorView,
            >(back)
        }),
{
    npm::law_listed_id_denotes_its_number(id);
    if host.certificate == Some(CertificateRef { id: 0 }) {
        npm::law_kept_host_reads_back(ProxyHostView { certificate: None, ..host }, id);
    } else {
        npm::law_kept_host_reads_back(host, id);
    }
}

/// What a creation or an update sends is the host, value by value: an enabled
/// host, marked as managed, that blocks common exploits, and speaks HTTP/2 exactly
/// where it has a certificate.
pub proof fn law_sent_host_is_the_host(host: ProxyHostView, id: u32)
    ensures
        ({
            let created = npm::host_call_of(ProxyChangeView::Create(host));
            let updated = npm::host_call_of(
                ProxyChangeView::Update { id: text::decimal(id as nat), host },
            );
            let sent = created->Ok_0.body->0;
            &&& created is Ok && created->Ok_0.body is Some
            &&& updated is Ok && updated->Ok_0.body == created->Ok_0.body
            &&& sent.domain_names == host.domains
            &&& host.upstream.scheme is Http ==> sent.forward_scheme == "http"@
            &&& host.upstream.scheme is Https ==> sent.forward_scheme == "https"@
            &&& sent.forward_host == host.upstream.host
            &&& sent.forward_port == host.upstream.port
            &&& sent.allow_websocket_upgrade == host.websocket
            &&& sent.ssl_forced == host.force_https
            &&& host.certificate is Some ==> sent.certificate_id == host.certificate->0.id
                && sent.http2_support
            &&& host.certificate is None ==> sent.certificate_id == 0 && !sent.http2_support
            &&& sent.access_list_id == 0
            &&& !sent.caching_enabled && sent.block_exploits && sent.enabled
            &&& !sent.hsts_enabled && !sent.hsts_subdomains
            &&& sent.advanced_config.len() == 0
            &&& sent.locations.len() == 0
            &&& sent.meta == Json::Object(map!["avel_pilot"@ => Json::Bool(true)])
        }),
{
    reveal_strlit("");
    npm::law_listed_id_denotes_its_number(id);
}

/// A creation is posted to the hosts. An update puts and a deletion deletes the
/// one host of the number, and a deletion sends nothing else.
pub proof fn law_host_calls_are_addressed(host: ProxyHostView, id: u32)
    ensures
        ({
            let name = text::decimal(id as nat);
            let created = npm::host_call_of(ProxyChangeView::Create(host));
            let updated = npm::host_call_of(ProxyChangeView::Update { id: name, host });
            let deleted = npm::host_call_of(ProxyChangeView::Delete { id: name });
            &&& created is Ok && updated is Ok && deleted is Ok
            &&& created->Ok_0.method == ApiMethod::Post
            &&& created->Ok_0.path == "/api/nginx/proxy-hosts"@
            &&& updated->Ok_0.method == ApiMethod::Put
            &&& updated->Ok_0.path == "/api/nginx/proxy-hosts/"@ + name
            &&& deleted->Ok_0.method == ApiMethod::Delete
            &&& deleted->Ok_0.path == "/api/nginx/proxy-hosts/"@ + name
            &&& deleted->Ok_0.body is None
        }),
{
    npm::law_listed_id_denotes_its_number(id);
    reveal_strlit("/api/nginx/proxy-hosts");
    reveal_strlit("/api/nginx/proxy-hosts/");
    reveal_strlit("/");
    assert("/api/nginx/proxy-hosts"@ + "/"@ =~= "/api/nginx/proxy-hosts/"@);
}

/// A change to a host or a certificate whose id is no number is refused, with the
/// id in the error, and a creation never is.
pub proof fn law_id_that_is_no_number_is_refused(host: ProxyHostView, id: Seq<char>)
    requires
        text::parsed_unsigned(id, u32::MAX as nat) is None,
    ensures
        npm::host_call_of((ProxyChangeView::Update { id, host })) == Err::<
            npm::NpmHostCallView,
            ProxyErrorView,
        >(ProxyErrorView::InvalidHostId(id)),
        npm::host_call_of((ProxyChangeView::Delete { id })) == Err::<
            npm::NpmHostCallView,
            ProxyErrorView,
        >(ProxyErrorView::InvalidHostId(id)),
        npm::certificate_call_of((CertificateChangeView::Renew { id })) == Err::<
            npm::NpmCertificateCallView,
            CertProviderErrorView,
        >(CertProviderErrorView::CertificateNotFound(id)),
        npm::certificate_call_of((CertificateChangeView::Delete { id })) == Err::<
            npm::NpmCertificateCallView,
            CertProviderErrorView,
        >(CertProviderErrorView::CertificateNotFound(id)),
{
}

/// A host is managed exactly when its metadata is an object whose member
/// `avel_pilot` is `true`.
pub proof fn law_marked_host_is_managed(host: NpmProxyHostView)
    ensures
        host.managed() <==> host.meta is Object && host.meta->Object_0.contains_key("avel_pilot"@)
            && host.meta->Object_0["avel_pilot"@] == Json::Bool(true),
{
}

/// A listed host is read exactly when its scheme is `http` or `https`, value by
/// value, where the certificate number 0 means no certificate. Otherwise the
/// scheme is named in the error.
pub proof fn law_listed_host_is_read(listed: NpmProxyHostView)
    ensures
        match listed.host() {
            Ok(host) => {
                &&& host.id == Some(text::decimal(listed.id as nat))
                &&& host.domains == listed.domain_names
                &&& host.upstream.host == listed.forward_host
                &&& host.upstream.port == listed.forward_port
                &&& match host.upstream.scheme {
                    UpstreamScheme::Http => listed.forward_scheme == "http"@,
                    UpstreamScheme::Https => listed.forward_scheme == "https"@,
                }
                &&& host.websocket == listed.allow_websocket_upgrade
                &&& host.force_https == listed.ssl_forced
                &&& listed.certificate_id == 0 ==> host.certificate is None
                &&& listed.certificate_id != 0 ==> host.certificate == Some(
                    CertificateRef { id: listed.certificate_id },
                )
            },
            Err(error) => {
                &&& error == ProxyErrorView::UnsupportedUpstreamScheme(listed.forward_scheme)
                &&& listed.forward_scheme != "http"@
                &&& listed.forward_scheme != "https"@
            },
        },
{
}

/// The managed hosts of two lists, one after the other, are those of the first
/// and then those of the second, unless one of the lists holds an error: then the
/// first error counts.
pub proof fn law_managed_hosts_of_joined_lists(a: Seq<NpmProxyHostView>, b: Seq<NpmProxyHostView>)
    ensures
        npm::managed_of(a + b) == match (npm::managed_of(a), npm::managed_of(b)) {
            (Ok(first), Ok(second)) => Ok(first + second),
            (Err(error), _) => Err(error),
            (_, Err(error)) => Err(error),
        },
        npm::managed_host_count(a + b) == npm::managed_host_count(a) + npm::managed_host_count(b),
    decreases b.len(),
{
    if b.len() == 0 {
        assert(a + b =~= a);
        if let Ok(first) = npm::managed_of(a) {
            assert(first + Seq::<ProxyHostView>::empty() =~= first);
        }
    } else {
        assert((a + b).drop_last() =~= a + b.drop_last());
        assert((a + b).last() == b.last());
        law_managed_hosts_of_joined_lists(a, b.drop_last());
        if let (Ok(first), Ok(second)) = (npm::managed_of(a), npm::managed_of(b.drop_last())) {
            if let Ok(host) = b.last().host() {
                assert((first + second).push(host) =~= first + second.push(host));
            }
        }
    }
}

/// Of a list of one host, that host is managed if it is marked, and otherwise
/// nothing is.
pub proof fn law_one_host_is_managed_or_not(host: NpmProxyHostView)
    ensures
        !host.managed() ==> npm::managed_of(seq![host]) == Ok::<Seq<ProxyHostView>, ProxyErrorView>(
            Seq::empty(),
        ),
        host.managed() ==> match host.host() {
            Ok(read) => npm::managed_of(seq![host]) == Ok::<Seq<ProxyHostView>, ProxyErrorView>(
                seq![read],
            ),
            Err(error) => npm::managed_of(seq![host]) == Err::<Seq<ProxyHostView>, ProxyErrorView>(
                error,
            ),
        },
        npm::managed_host_count(seq![host]) == if host.managed() {
            1nat
        } else {
            0nat
        },
        npm::managed_of(Seq::empty()) == Ok::<Seq<ProxyHostView>, ProxyErrorView>(Seq::empty()),
        npm::managed_host_count(Seq::empty()) == 0,
{
    let none = Seq::<NpmProxyHostView>::empty();
    assert(seq![host].drop_last() =~= none);
    assert(npm::managed_of(none) == Ok::<Seq<ProxyHostView>, ProxyErrorView>(Seq::empty()));
    assert(npm::managed_host_count(none) == 0);
    if let Ok(read) = host.host() {
        assert(Seq::<ProxyHostView>::empty().push(read) =~= seq![read]);
    }
}

/// As many hosts are counted as managed as are read.
pub proof fn law_managed_hosts_are_counted(hosts: Seq<NpmProxyHostView>)
    requires
        npm::managed_of(hosts) is Ok,
    ensures
        npm::managed_of(hosts)->Ok_0.len() == npm::managed_host_count(hosts),
    decreases hosts.len(),
{
    if hosts.len() > 0 {
        law_managed_hosts_are_counted(hosts.drop_last());
    }
}

/// An order is posted to the certificates, with the name, the domains and the
/// challenge of the certificate, and marked as managed. A renewal is posted to the
/// certificate of the number, and a deletion deletes it.
pub proof fn law_certificate_calls_are_addressed(certificate: CertificateView, id: u32)
    ensures
        ({
            let name = text::decimal(id as nat);
            let created = npm::certificate_call_of(CertificateChangeView::Create(certificate));
            let renewed = npm::certificate_call_of(CertificateChangeView::Renew { id: name });
            let deleted = npm::certificate_call_of(CertificateChangeView::Delete { id: name });
            let sent = created->Ok_0.body->0;
            &&& created is Ok && renewed is Ok && deleted is Ok
            &&& created->Ok_0.method == ApiMethod::Post
            &&& created->Ok_0.path == "/api/nginx/certificates"@
            &&& created->Ok_0.body is Some
            &&& sent.provider == "letsencrypt"@
            &&& sent.nice_name == certificate.name
            &&& sent.domain_names == certificate.domains
            &&& sent.meta.avel_pilot
            &&& match certificate.challenge {
                CertificateChallengeView::Http01 => {
                    &&& !sent.meta.dns_challenge
                    &&& sent.meta.dns_provider is None
                    &&& sent.meta.dns_provider_credentials is None
                    &&& sent.meta.propagation_seconds is None
                },
                CertificateChallengeView::Dns01(challenge) => {
                    &&& sent.meta.dns_challenge
                    &&& sent.meta.dns_provider == Some(challenge.provider)
                    &&& sent.meta.dns_provider_credentials == Some(challenge.credentials)
                    &&& sent.meta.propagation_seconds == challenge.propagation_seconds
                },
            }
            &&& renewed->Ok_0.method == ApiMethod::Post
            &&& renewed->Ok_0.path == "/api/nginx/certificates/"@ + name + "/renew"@
            &&& renewed->Ok_0.body is None
            &&& deleted->Ok_0.method == ApiMethod::Delete
            &&& deleted->Ok_0.path == "/api/nginx/certificates/"@ + name
            &&& deleted->Ok_0.body is None
        }),
{
    npm::law_listed_id_denotes_its_number(id);
    reveal_strlit("/api/nginx/certificates");
    reveal_strlit("/api/nginx/certificates/");
    reveal_strlit("/");
    assert("/api/nginx/certificates"@ + "/"@ =~= "/api/nginx/certificates/"@);
}

/// An ordered certificate that the API keeps as the call told it counts and is
/// managed, and it reads back under its number, with its domains and its
/// challenge, but for the credentials.
pub proof fn law_sent_certificate_reads_back(
    certificate: CertificateView,
    id: u32,
    name: Seq<char>,
    zone: Seq<char>,
)
    ensures
        ({
            let created = npm::certificate_call_of(CertificateChangeView::Create(certificate));
            let kept = npm::kept_certificate(created->Ok_0.body->0, id, name);
            let back = kept.certificate();
            &&& created is Ok && created->Ok_0.body is Some
            &&& kept.counts()
            &&& kept.managed_for(zone)
            &&& back.meta.managed
            &&& back.id == Some(text::decimal(id as nat))
            &&& back.domains == certificate.domains
            &&& certificate.name is Some ==> back.name == certificate.name
            &&& match certificate.challenge {
                CertificateChallengeView::Http01 => back.challenge is Http01,
                CertificateChallengeView::Dns01(challenge) => {
                    &&& back.challenge is Dns01
                    &&& back.challenge->Dns01_0.provider == challenge.provider
                    &&& back.challenge->Dns01_0.propagation_seconds == challenge.propagation_seconds
                },
            }
        }),
{
    npm::law_kept_certificate_is_managed(certificate, id, name, zone);
}

/// Only certificates of Let's Encrypt count. One that does is managed exactly
/// when the marker stands in its name, when its metadata is an object whose member
/// `avel_pilot` is `true`, or when it is for all domains right below the zone and
/// for nothing else, in any letter case.
pub proof fn law_managed_certificate_is_marked_or_the_wildcard(
    certificate: NpmCertificateView,
    zone: Seq<char>,
)
    requires
        vstd::utf8::is_ascii_chars(zone),
        forall|i: int|
            0 <= i < certificate.domain_names.len() ==> vstd::utf8::is_ascii_chars(
                #[trigger] certificate.domain_names[i],
            ),
    ensures
        certificate.counts() <==> certificate.provider == "letsencrypt"@,
        certificate.managed_for(zone) <==> certificate.provider == "letsencrypt"@ && {
            ||| exists|before: Seq<char>, after: Seq<char>|
                certificate.nice_name == #[trigger] (before + "managed-by:avel-pilot"@ + after)
            ||| certificate.meta is Object && certificate.meta->Object_0.contains_key(
                "avel_pilot"@,
            ) && certificate.meta->Object_0["avel_pilot"@] == Json::Bool(true)
            ||| diff::for_domains(certificate.certificate(), seq!["*."@ + zone])
        },
{
    text::law_part_stands_between(certificate.nice_name, "managed-by:avel-pilot"@);
    reveal_strlit("*.");
    let wanted = seq!["*."@ + zone];
    assert(vstd::utf8::is_ascii_chars(wanted[0])) by {
        assert forall|i: int| 0 <= i < wanted[0].len() implies (#[trigger] wanted[0][i] as u32)
            < 128 by {
            if i >= 2 {
                assert(wanted[0][i] == zone[i - 2]);
            }
        }
    }
    diff::lemma_same_sets(certificate.certificate(), wanted);
}

/// A listed certificate is read under its number and its name, with its domains.
/// It is to be renewed through the DNS exactly when its metadata says so, with the
/// provider and the waiting time that stand there and without credentials.
pub proof fn law_listed_certificate_is_read(listed: NpmCertificateView)
    ensures
        ({
            let read = listed.certificate();
            let members = listed.meta->Object_0;
            let through_dns = listed.meta is Object && members.contains_key("dns_challenge"@)
                && members["dns_challenge"@] == Json::Bool(true);
            &&& read.id == Some(text::decimal(listed.id as nat))
            &&& read.name == Some(listed.nice_name)
            &&& read.domains == listed.domain_names
            &&& read.expires_at is None
            &&& !through_dns ==> read.challenge is Http01
            &&& through_dns ==> {
                &&& read.challenge is Dns01
                &&& read.challenge->Dns01_0.credentials.len() == 0
                &&& {
                    let named = members.contains_key("dns_provider"@) && members["dns_provider"@]
                        is Text;
                    &&& named ==> read.challenge->Dns01_0.provider
                        == members["dns_provider"@]->Text_0
                    &&& !named ==> read.challenge->Dns01_0.provider.len() == 0
                }
                &&& {
                    let waits = members.contains_key("propagation_seconds"@)
                        && members["propagation_seconds"@] is Number
                        && members["propagation_seconds"@]->Number_0 is Some
                        && members["propagation_seconds"@]->Number_0->0 <= u32::MAX;
                    &&& waits ==> {
                        &&& read.challenge->Dns01_0.propagation_seconds is Some
                        &&& read.challenge->Dns01_0.propagation_seconds->0
                            == members["propagation_seconds"@]->Number_0->0
                    }
                    &&& !waits ==> read.challenge->Dns01_0.propagation_seconds is None
                }
            }
        }),
{
}

/// The certificates of two lists that count are those of the first and then those
/// of the second, and as many are managed as of both.
pub proof fn law_certificates_of_joined_lists(
    a: Seq<NpmCertificateView>,
    b: Seq<NpmCertificateView>,
    zone: Seq<char>,
)
    ensures
        npm::counted_of(a + b) == npm::counted_of(a) + npm::counted_of(b),
        npm::managed_certificate_count(a + b, zone) == npm::managed_certificate_count(a, zone)
            + npm::managed_certificate_count(b, zone),
    decreases b.len(),
{
    if b.len() == 0 {
        assert(a + b =~= a);
        assert(npm::counted_of(a) + Seq::<CertificateView>::empty() =~= npm::counted_of(a));
    } else {
        assert((a + b).drop_last() =~= a + b.drop_last());
        assert((a + b).last() == b.last());
        law_certificates_of_joined_lists(a, b.drop_last(), zone);
        if b.last().counts() {
            let read = b.last().certificate();
            assert((npm::counted_of(a) + npm::counted_of(b.drop_last())).push(read)
                =~= npm::counted_of(a) + npm::counted_of(b.drop_last()).push(read));
        }
    }
}

/// Of a list of one certificate, that one counts or nothing does.
pub proof fn law_one_certificate_counts_or_not(certificate: NpmCertificateView, zone: Seq<char>)
    ensures
        certificate.counts() ==> npm::counted_of(seq![certificate]) == seq![
            certificate.certificate(),
        ],
        !certificate.counts() ==> npm::counted_of(seq![certificate]) == Seq::<
            CertificateView,
        >::empty(),
        npm::managed_certificate_count(seq![certificate], zone) == if certificate.managed_for(
            zone,
        ) {
            1nat
        } else {
            0nat
        },
        npm::counted_of(Seq::empty()) == Seq::<CertificateView>::empty(),
        npm::managed_certificate_count(Seq::empty(), zone) == 0,
{
    let none = Seq::<NpmCertificateView>::empty();
    assert(seq![certificate].drop_last() =~= none);
    assert(npm::counted_of(none) =~= Seq::<CertificateView>::empty());
    assert(npm::managed_certificate_count(none, zone) == 0);
    assert(Seq::<CertificateView>::empty().push(certificate.certificate()) =~= seq![
        certificate.certificate(),
    ]);
}

/// A failure is explained by the message of the answer, or else by the message of
/// its inner part, or else by the whole answer.
pub proof fn law_failure_is_explained(
    message: String,
    inner: npm::NpmErrorBody,
    other: Option<npm::NpmErrorBody>,
    answer: Seq<char>,
)
    ensures
        npm::failure_message(
            Some((NpmErrorResponse { message: Some(message), error: other })),
            answer,
        ) == message@,
        npm::failure_message(
            Some((NpmErrorResponse { message: None, error: Some(inner) })),
            answer,
        ) == inner.message@,
        npm::failure_message(Some((NpmErrorResponse { message: None, error: None })), answer)
            == answer,
        npm::failure_message(None, answer) == answer,
{
}

} // verus!
