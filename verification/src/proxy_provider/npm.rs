//! Nginx Proxy Manager: what its API says and is told.

use crate::cert_provider::{
    CertProviderError, CertProviderErrorView, Certificate, CertificateChallenge,
    CertificateChallengeView, CertificateChange, CertificateChangeView, CertificateId,
    CertificateMeta, CertificateView, Dns01Challenge, Dns01ChallengeView,
    MANAGED_CERTIFICATE_NAME_MARKER,
};
use crate::api::ApiMethod;
use crate::json::Json;
use crate::proxy_provider::{
    CertificateRef, ProxyChange, ProxyChangeView, ProxyError, ProxyErrorView, ProxyHost,
    ProxyHostId, ProxyHostView, Upstream, UpstreamScheme, UpstreamView,
};
use crate::reconciler::{desired, diff};
use crate::{cert_provider, json, proxy_provider, text};
use vstd::prelude::*;
use vstd::string::StringExecFns;

verus! {

/// The member of the metadata that marks what is managed.
pub const MANAGED_META_KEY: &'static str = "avel_pilot";

/// The provider of the certificates that count.
pub const CERTIFICATE_PROVIDER: &'static str = "letsencrypt";

/// Where the hosts are.
pub const HOSTS_PATH: &'static str = "/api/nginx/proxy-hosts";

/// Where the certificates are.
pub const CERTIFICATES_PATH: &'static str = "/api/nginx/certificates";

/// Where a token is got.
pub const TOKENS_PATH: &'static str = "/api/tokens";

/// A host as the API lists it.
pub struct NpmProxyHost {
    pub id: u32,
    pub domain_names: Vec<String>,
    pub forward_scheme: String,
    pub forward_host: String,
    pub forward_port: u16,
    pub allow_websocket_upgrade: bool,
    pub certificate_id: u32,
    pub ssl_forced: bool,
    pub meta: serde_json::Value,
}

/// What a [`NpmProxyHost`] holds.
pub struct NpmProxyHostView {
    pub id: u32,
    pub domain_names: Seq<Seq<char>>,
    pub forward_scheme: Seq<char>,
    pub forward_host: Seq<char>,
    pub forward_port: u16,
    pub allow_websocket_upgrade: bool,
    pub certificate_id: u32,
    pub ssl_forced: bool,
    pub meta: Json,
}

impl View for NpmProxyHost {
    type V = NpmProxyHostView;

    open spec fn view(&self) -> NpmProxyHostView {
        NpmProxyHostView {
            id: self.id,
            domain_names: text::texts(self.domain_names@),
            forward_scheme: self.forward_scheme@,
            forward_host: self.forward_host@,
            forward_port: self.forward_port,
            allow_websocket_upgrade: self.allow_websocket_upgrade,
            certificate_id: self.certificate_id,
            ssl_forced: self.ssl_forced,
            meta: json::json_of(self.meta),
        }
    }
}

impl NpmProxyHostView {
    /// Whether the host is managed.
    pub open spec fn managed(self) -> bool {
        json::flag_of(self.meta, MANAGED_META_KEY@)
    }

    /// The host that the API means, unless its scheme is unknown.
    pub open spec fn host(self) -> Result<ProxyHostView, ProxyErrorView> {
        match scheme_named(self.forward_scheme) {
            None => Err(ProxyErrorView::UnsupportedUpstreamScheme(self.forward_scheme)),
            Some(scheme) => Ok(
                ProxyHostView {
                    id: Some(text::decimal(self.id as nat)),
                    domains: self.domain_names,
                    upstream: UpstreamView {
                        scheme,
                        host: self.forward_host,
                        port: self.forward_port,
                    },
                    websocket: self.allow_websocket_upgrade,
                    certificate: if self.certificate_id != 0 {
                        Some(CertificateRef { id: self.certificate_id })
                    } else {
                        None
                    },
                    force_https: self.ssl_forced,
                },
            ),
        }
    }
}

/// The protocol of a name.
pub open spec fn scheme_named(name: Seq<char>) -> Option<UpstreamScheme> {
    if name == "http"@ {
        Some(UpstreamScheme::Http)
    } else if name == "https"@ {
        Some(UpstreamScheme::Https)
    } else {
        None
    }
}

impl NpmProxyHost {
    /// Whether the host is managed.
    pub fn is_managed(&self) -> (r: bool)
        ensures
            r == self@.managed(),
    {
        json::flag(&self.meta, MANAGED_META_KEY)
    }
}

impl ProxyHost {
    /// The host that the API means. Only the schemes `http` and `https` are
    /// supported.
    pub fn try_from(host: NpmProxyHost) -> (r: Result<ProxyHost, ProxyError>)
        ensures
            match host@.host() {
                Ok(want) => r is Ok && r->Ok_0@ == want,
                Err(error) => r is Err && r->Err_0@ == error,
            },
    {
        let scheme = if text::text_eq(host.forward_scheme.as_str(), "http") {
            UpstreamScheme::Http
        } else if text::text_eq(host.forward_scheme.as_str(), "https") {
            UpstreamScheme::Https
        } else {
            return Err(ProxyError::UnsupportedUpstreamScheme(host.forward_scheme));
        };
        Ok(
            ProxyHost {
                id: Some(ProxyHostId(text::to_decimal(host.id as u128))),
                domains: host.domain_names,
                upstream: Upstream { scheme, host: host.forward_host, port: host.forward_port },
                websocket: host.allow_websocket_upgrade,
                certificate: if host.certificate_id != 0 {
                    Some(CertificateRef { id: host.certificate_id })
                } else {
                    None
                },
                force_https: host.ssl_forced,
            },
        )
    }
}

/// What a list of listed hosts holds.
pub open spec fn npm_hosts_view(hosts: Seq<NpmProxyHost>) -> Seq<NpmProxyHostView> {
    hosts.map_values(|h: NpmProxyHost| h@)
}

/// The managed hosts of a list, or the error of the first of them that is not
/// supported.
pub open spec fn managed_of(hosts: Seq<NpmProxyHostView>) -> Result<
    Seq<ProxyHostView>,
    ProxyErrorView,
>
    decreases hosts.len(),
{
    if hosts.len() == 0 {
        Ok(Seq::empty())
    } else {
        match managed_of(hosts.drop_last()) {
            Err(error) => Err(error),
            Ok(before) => if !hosts.last().managed() {
                Ok(before)
            } else {
                match hosts.last().host() {
                    Err(error) => Err(error),
                    Ok(host) => Ok(before.push(host)),
                }
            },
        }
    }
}

proof fn lemma_managed_error_stays(hosts: Seq<NpmProxyHostView>, k: int)
    requires
        0 <= k <= hosts.len(),
        managed_of(hosts.take(k)) is Err,
    ensures
        managed_of(hosts) == managed_of(hosts.take(k)),
    decreases hosts.len() - k,
{
    if k == hosts.len() {
        assert(hosts.take(k) =~= hosts);
    } else {
        assert(hosts.take(k + 1).drop_last() =~= hosts.take(k));
        lemma_managed_error_stays(hosts, k + 1);
    }
}

/// The managed hosts of the list.
pub fn managed_hosts(hosts: Vec<NpmProxyHost>) -> (r: Result<Vec<ProxyHost>, ProxyError>)
    ensures
        match managed_of(npm_hosts_view(hosts@)) {
            Ok(want) => r is Ok && proxy_provider::hosts_view(r->Ok_0@) == want,
            Err(error) => r is Err && r->Err_0@ == error,
        },
{
    let ghost all = npm_hosts_view(hosts@);
    let mut left = hosts;
    let mut out: Vec<ProxyHost> = Vec::new();
    let ghost mut done: int = 0;
    assert(proxy_provider::hosts_view(out@) =~= Seq::empty());
    while left.len() > 0
        invariant
            0 <= done <= all.len(),
            all == npm_hosts_view(hosts@),
            npm_hosts_view(left@) == all.skip(done),
            managed_of(all.take(done)) is Ok,
            proxy_provider::hosts_view(out@) == managed_of(all.take(done))->Ok_0,
        decreases left.len(),
    {
        assert(npm_hosts_view(left@).len() == left@.len());
        let ghost before = left@;
        let host = left.remove(0);
        proof {
            assert(host@ == all.skip(done)[0]);
            assert(npm_hosts_view(left@) =~= all.skip(done + 1)) by {
                assert forall|i: int| 0 <= i < left@.len() implies npm_hosts_view(left@)[i]
                    == all.skip(done + 1)[i] by {
                    assert(npm_hosts_view(before)[i + 1] == all.skip(done)[i + 1]);
                }
            }
            assert(all.take(done + 1).drop_last() =~= all.take(done));
            assert(all.take(done + 1).last() == host@);
        }
        if host.is_managed() {
            match ProxyHost::try_from(host) {
                Ok(found) => {
                    let ghost held = out@;
                    out.push(found);
                    assert(proxy_provider::hosts_view(out@) =~= proxy_provider::hosts_view(
                        held,
                    ).push(found@));
                },
                Err(error) => {
                    proof {
                        lemma_managed_error_stays(all, done + 1);
                    }
                    return Err(error);
                },
            }
        }
        proof {
            done = done + 1;
        }
    }
    assert(npm_hosts_view(left@).len() == 0);
    assert(all.take(done) =~= all);
    Ok(out)
}

/// A host as the API is told.
pub struct NpmProxyHostRequest<'a> {
    pub domain_names: &'a [String],
    pub forward_scheme: &'a str,
    pub forward_host: &'a str,
    pub forward_port: u16,
    pub access_list_id: u32,
    pub certificate_id: u32,
    pub ssl_forced: bool,
    pub caching_enabled: bool,
    pub block_exploits: bool,
    pub allow_websocket_upgrade: bool,
    pub http2_support: bool,
    pub hsts_enabled: bool,
    pub hsts_subdomains: bool,
    pub enabled: bool,
    pub advanced_config: &'a str,
    pub locations: Vec<serde_json::Value>,
    pub meta: serde_json::Value,
}

/// What a [`NpmProxyHostRequest`] holds.
pub struct NpmProxyHostRequestView {
    pub domain_names: Seq<Seq<char>>,
    pub forward_scheme: Seq<char>,
    pub forward_host: Seq<char>,
    pub forward_port: u16,
    pub access_list_id: u32,
    pub certificate_id: u32,
    pub ssl_forced: bool,
    pub caching_enabled: bool,
    pub block_exploits: bool,
    pub allow_websocket_upgrade: bool,
    pub http2_support: bool,
    pub hsts_enabled: bool,
    pub hsts_subdomains: bool,
    pub enabled: bool,
    pub advanced_config: Seq<char>,
    pub locations: Seq<Json>,
    pub meta: Json,
}

impl<'a> View for NpmProxyHostRequest<'a> {
    type V = NpmProxyHostRequestView;

    open spec fn view(&self) -> NpmProxyHostRequestView {
        NpmProxyHostRequestView {
            domain_names: text::texts(self.domain_names@),
            forward_scheme: self.forward_scheme@,
            forward_host: self.forward_host@,
            forward_port: self.forward_port,
            access_list_id: self.access_list_id,
            certificate_id: self.certificate_id,
            ssl_forced: self.ssl_forced,
            caching_enabled: self.caching_enabled,
            block_exploits: self.block_exploits,
            allow_websocket_upgrade: self.allow_websocket_upgrade,
            http2_support: self.http2_support,
            hsts_enabled: self.hsts_enabled,
            hsts_subdomains: self.hsts_subdomains,
            enabled: self.enabled,
            advanced_config: self.advanced_config@,
            locations: self.locations@.map_values(|v: serde_json::Value| json::json_of(v)),
            meta: json::json_of(self.meta),
        }
    }
}

/// What the API is told of a host: an enabled host, marked as managed, that
/// blocks common exploits and speaks HTTP/2 where it has a certificate.
pub open spec fn host_request(host: ProxyHostView) -> NpmProxyHostRequestView {
    NpmProxyHostRequestView {
        domain_names: host.domains,
        forward_scheme: host.upstream.scheme.name(),
        forward_host: host.upstream.host,
        forward_port: host.upstream.port,
        access_list_id: 0,
        certificate_id: match host.certificate {
            Some(certificate) => certificate.id,
            None => 0,
        },
        ssl_forced: host.force_https,
        caching_enabled: false,
        block_exploits: true,
        allow_websocket_upgrade: host.websocket,
        http2_support: host.certificate is Some,
        hsts_enabled: false,
        hsts_subdomains: false,
        enabled: true,
        advanced_config: ""@,
        locations: Seq::empty(),
        meta: Json::Object(map![MANAGED_META_KEY@ => Json::Bool(true)]),
    }
}

impl<'a> NpmProxyHostRequest<'a> {
    /// What the API is told of the host.
    pub fn from(host: &'a ProxyHost) -> (r: NpmProxyHostRequest<'a>)
        ensures
            r@ == host_request(host@),
    {
        let request = NpmProxyHostRequest {
            domain_names: host.domains.as_slice(),
            forward_scheme: host.upstream.scheme.as_name(),
            forward_host: host.upstream.host.as_str(),
            forward_port: host.upstream.port,
            access_list_id: 0,
            certificate_id: match host.certificate {
                Some(certificate) => certificate.id,
                None => 0,
            },
            ssl_forced: host.force_https,
            caching_enabled: false,
            block_exploits: true,
            allow_websocket_upgrade: host.websocket,
            http2_support: host.certificate.is_some(),
            hsts_enabled: false,
            hsts_subdomains: false,
            enabled: true,
            advanced_config: "",
            locations: Vec::new(),
            meta: json::object_with_flag(MANAGED_META_KEY, true),
        };
        assert(request@.locations =~= Seq::empty());
        request
    }
}

/// A host that the API keeps as it was told, under an id.
pub open spec fn kept_host(request: NpmProxyHostRequestView, id: u32) -> NpmProxyHostView {
    NpmProxyHostView {
        id,
        domain_names: request.domain_names,
        forward_scheme: request.forward_scheme,
        forward_host: request.forward_host,
        forward_port: request.forward_port,
        allow_websocket_upgrade: request.allow_websocket_upgrade,
        certificate_id: request.certificate_id,
        ssl_forced: request.ssl_forced,
        meta: request.meta,
    }
}

/// A host that the API keeps as it was told is listed as managed, and it reads
/// back as the same host. A reference to the certificate number 0 is the one
/// that does not come back: the API takes that number for no certificate.
pub proof fn law_kept_host_reads_back(host: ProxyHostView, id: u32)
    requires
        host.certificate != Some(CertificateRef { id: 0 }),
    ensures
        kept_host(host_request(host), id).managed(),
        kept_host(host_request(host), id).host() == Ok::<ProxyHostView, ProxyErrorView>(
            ProxyHostView { id: Some(text::decimal(id as nat)), ..host },
        ),
{
    reveal_strlit("http");
    reveal_strlit("https");
    assert("http"@.len() != "https"@.len());
}

/// The number that an id denotes.
pub open spec fn id_number(id: Seq<char>) -> Option<nat> {
    text::parsed_unsigned(id, u32::MAX as nat)
}

/// The id of a listed host or certificate denotes its number.
pub proof fn law_listed_id_denotes_its_number(id: u32)
    ensures
        id_number(text::decimal(id as nat)) == Some(id as nat),
{
    text::law_decimal_round_trip(id as nat, u32::MAX as nat);
}

/// Where the thing of a number is.
pub open spec fn numbered_path(path: Seq<char>, number: nat) -> Seq<char> {
    path + "/"@ + text::decimal(number)
}

fn numbered(path: &str, number: u32) -> (r: String)
    ensures
        r@ == numbered_path(path@, number as nat),
{
    text::join3(path, "/", text::to_decimal(number as u128).as_str())
}

/// A call that changes a host.
pub struct NpmHostCall<'a> {
    pub method: ApiMethod,
    pub path: String,
    pub body: Option<NpmProxyHostRequest<'a>>,
}

/// What a [`NpmHostCall`] holds.
pub struct NpmHostCallView {
    pub method: ApiMethod,
    pub path: Seq<char>,
    pub body: Option<NpmProxyHostRequestView>,
}

impl<'a> View for NpmHostCall<'a> {
    type V = NpmHostCallView;

    open spec fn view(&self) -> NpmHostCallView {
        NpmHostCallView {
            method: self.method,
            path: self.path@,
            body: match self.body {
                Some(body) => Some(body@),
                None => None,
            },
        }
    }
}

/// The call that makes a change to the hosts, unless it names a host by
/// something that is no number.
pub open spec fn host_call_of(change: ProxyChangeView) -> Result<NpmHostCallView, ProxyErrorView> {
    match change {
        ProxyChangeView::Create(host) => Ok(
            NpmHostCallView {
                method: ApiMethod::Post,
                path: HOSTS_PATH@,
                body: Some(host_request(host)),
            },
        ),
        ProxyChangeView::Update { id, host } => match id_number(id) {
            Some(number) => Ok(
                NpmHostCallView {
                    method: ApiMethod::Put,
                    path: numbered_path(HOSTS_PATH@, number),
                    body: Some(host_request(host)),
                },
            ),
            None => Err(ProxyErrorView::InvalidHostId(id)),
        },
        ProxyChangeView::Delete { id } => match id_number(id) {
            Some(number) => Ok(
                NpmHostCallView {
                    method: ApiMethod::Delete,
                    path: numbered_path(HOSTS_PATH@, number),
                    body: None,
                },
            ),
            None => Err(ProxyErrorView::InvalidHostId(id)),
        },
    }
}

/// The call that makes the change to the hosts.
pub fn host_call<'a>(change: &'a ProxyChange) -> (r: Result<NpmHostCall<'a>, ProxyError>)
    ensures
        match host_call_of(change@) {
            Ok(call) => r is Ok && r->Ok_0@ == call,
            Err(error) => r is Err && r->Err_0@ == error,
        },
{
    match change {
        ProxyChange::Create(host) => Ok(
            NpmHostCall {
                method: ApiMethod::Post,
                path: HOSTS_PATH.to_owned(),
                body: Some(NpmProxyHostRequest::from(host)),
            },
        ),
        ProxyChange::Update { id, host } => match NPMProxyProvider::parse_id(id) {
            Ok(number) => Ok(
                NpmHostCall {
                    method: ApiMethod::Put,
                    path: numbered(HOSTS_PATH, number),
                    body: Some(NpmProxyHostRequest::from(host)),
                },
            ),
            Err(error) => Err(error),
        },
        ProxyChange::Delete { id } => match NPMProxyProvider::parse_id(id) {
            Ok(number) => Ok(
                NpmHostCall {
                    method: ApiMethod::Delete,
                    path: numbered(HOSTS_PATH, number),
                    body: None,
                },
            ),
            Err(error) => Err(error),
        },
    }
}

/// A certificate as the API lists it.
pub struct NpmCertificate {
    pub id: u32,
    pub provider: String,
    pub nice_name: String,
    pub domain_names: Vec<String>,
    pub expires_on: Option<String>,
    pub meta: serde_json::Value,
}

/// What a [`NpmCertificate`] holds.
pub struct NpmCertificateView {
    pub id: u32,
    pub provider: Seq<char>,
    pub nice_name: Seq<char>,
    pub domain_names: Seq<Seq<char>>,
    pub expires_on: Option<Seq<char>>,
    pub meta: Json,
}

impl View for NpmCertificate {
    type V = NpmCertificateView;

    open spec fn view(&self) -> NpmCertificateView {
        NpmCertificateView {
            id: self.id,
            provider: self.provider@,
            nice_name: self.nice_name@,
            domain_names: text::texts(self.domain_names@),
            expires_on: text::opt_text(self.expires_on),
            meta: json::json_of(self.meta),
        }
    }
}

impl NpmCertificateView {
    /// Whether the name or the metadata of the certificate marks it as managed.
    pub open spec fn marked(self) -> bool {
        text::contains_text(self.nice_name, MANAGED_CERTIFICATE_NAME_MARKER@) || json::flag_of(
            self.meta,
            MANAGED_META_KEY@,
        )
    }

    /// How the certificate is renewed. Credentials are not listed.
    pub open spec fn challenge(self) -> CertificateChallengeView {
        if json::flag_of(self.meta, "dns_challenge"@) {
            CertificateChallengeView::Dns01(
                Dns01ChallengeView {
                    provider: json::text_of(self.meta, "dns_provider"@),
                    credentials: Seq::empty(),
                    propagation_seconds: json::number_of(self.meta, "propagation_seconds"@),
                },
            )
        } else {
            CertificateChallengeView::Http01
        }
    }

    /// The certificate that the API means.
    pub open spec fn certificate(self) -> CertificateView {
        CertificateView {
            id: Some(text::decimal(self.id as nat)),
            name: Some(self.nice_name),
            meta: CertificateMeta { managed: self.marked() },
            domains: self.domain_names,
            challenge: self.challenge(),
            expires_at: None,
        }
    }

    /// Whether the certificate counts at all.
    pub open spec fn counts(self) -> bool {
        self.provider == CERTIFICATE_PROVIDER@
    }

    /// Whether the certificate is managed: it counts, and it is marked or is the
    /// wildcard certificate of the zone.
    pub open spec fn managed_for(self, zone: Seq<char>) -> bool {
        self.counts() && (self.marked() || diff::normalized(self.domain_names).to_set()
            == diff::normalized(seq![desired::wildcard(zone)]).to_set())
    }
}

impl NpmCertificate {
    /// Whether the name or the metadata of the certificate marks it as managed.
    pub fn is_marked(&self) -> (r: bool)
        ensures
            r == self@.marked(),
    {
        text::contains(self.nice_name.as_str(), MANAGED_CERTIFICATE_NAME_MARKER) || json::flag(
            &self.meta,
            MANAGED_META_KEY,
        )
    }

    /// Whether the certificate counts at all.
    pub fn is_counted(&self) -> (r: bool)
        ensures
            r == self@.counts(),
    {
        text::text_eq(self.provider.as_str(), CERTIFICATE_PROVIDER)
    }

    /// Whether the certificate is managed.
    pub fn is_managed(&self, zone: &str) -> (r: bool)
        ensures
            r == self@.managed_for(zone@),
    {
        if !self.is_counted() {
            return false;
        }
        if self.is_marked() {
            return true;
        }
        let mut wanted: Vec<String> = Vec::new();
        wanted.push(desired::wildcard_domain(zone));
        assert(text::texts(wanted@) =~= seq![desired::wildcard(zone@)]);
        let wanted = diff::normalized_domain_set(wanted.as_slice());
        let present = diff::normalized_domain_set(self.domain_names.as_slice());
        diff::same_text_set(&present, &wanted)
    }
}

impl Certificate {
    /// The certificate that the API means.
    pub fn from(certificate: NpmCertificate) -> (r: Certificate)
        ensures
            r@ == certificate@.certificate(),
    {
        let challenge = if json::flag(&certificate.meta, "dns_challenge") {
            CertificateChallenge::Dns01(
                Dns01Challenge {
                    provider: json::text(&certificate.meta, "dns_provider"),
                    credentials: String::new(),
                    propagation_seconds: json::number(&certificate.meta, "propagation_seconds"),
                },
            )
        } else {
            CertificateChallenge::Http01
        };
        let managed = certificate.is_marked();
        Certificate {
            id: Some(CertificateId(text::to_decimal(certificate.id as u128))),
            name: Some(certificate.nice_name),
            meta: CertificateMeta { managed },
            domains: certificate.domain_names,
            challenge,
            expires_at: None,
        }
    }
}

/// What a list of listed certificates holds.
pub open spec fn npm_certificates_view(certificates: Seq<NpmCertificate>) -> Seq<
    NpmCertificateView,
> {
    certificates.map_values(|c: NpmCertificate| c@)
}

/// The certificates of a list that count.
pub open spec fn counted_of(certificates: Seq<NpmCertificateView>) -> Seq<CertificateView>
    decreases certificates.len(),
{
    if certificates.len() == 0 {
        Seq::empty()
    } else if certificates.last().counts() {
        counted_of(certificates.drop_last()).push(certificates.last().certificate())
    } else {
        counted_of(certificates.drop_last())
    }
}

/// The certificates of the list that count.
pub fn counted_certificates(certificates: Vec<NpmCertificate>) -> (r: Vec<Certificate>)
    ensures
        cert_provider::certificates_view(r@) == counted_of(npm_certificates_view(certificates@)),
{
    let ghost all = npm_certificates_view(certificates@);
    let mut left = certificates;
    let mut out: Vec<Certificate> = Vec::new();
    let ghost mut done: int = 0;
    assert(cert_provider::certificates_view(out@) =~= Seq::empty());
    while left.len() > 0
        invariant
            0 <= done <= all.len(),
            npm_certificates_view(left@) == all.skip(done),
            cert_provider::certificates_view(out@) == counted_of(all.take(done)),
        decreases left.len(),
    {
        assert(npm_certificates_view(left@).len() == left@.len());
        let ghost before = left@;
        let certificate = left.remove(0);
        proof {
            assert(certificate@ == all.skip(done)[0]);
            assert(npm_certificates_view(left@) =~= all.skip(done + 1)) by {
                assert forall|i: int| 0 <= i < left@.len() implies npm_certificates_view(left@)[i]
                    == all.skip(done + 1)[i] by {
                    assert(npm_certificates_view(before)[i + 1] == all.skip(done)[i + 1]);
                }
            }
            assert(all.take(done + 1).drop_last() =~= all.take(done));
            assert(all.take(done + 1).last() == certificate@);
        }
        if certificate.is_counted() {
            let found = Certificate::from(certificate);
            let ghost held = out@;
            out.push(found);
            assert(cert_provider::certificates_view(out@) =~= cert_provider::certificates_view(
                held,
            ).push(found@));
        }
        proof {
            done = done + 1;
        }
    }
    assert(npm_certificates_view(left@).len() == 0);
    assert(all.take(done) =~= all);
    out
}

/// The metadata of a certificate as the API is told.
pub struct NpmCertificateRequestMeta<'a> {
    pub avel_pilot: bool,
    pub dns_challenge: bool,
    pub dns_provider: Option<&'a str>,
    pub dns_provider_credentials: Option<&'a str>,
    pub propagation_seconds: Option<u32>,
}

/// A certificate as the API is told.
pub struct NpmCertificateRequest<'a> {
    pub provider: &'a str,
    pub nice_name: Option<&'a str>,
    pub domain_names: &'a [String],
    pub meta: NpmCertificateRequestMeta<'a>,
}

/// What a [`NpmCertificateRequestMeta`] holds.
pub struct NpmCertificateRequestMetaView {
    pub avel_pilot: bool,
    pub dns_challenge: bool,
    pub dns_provider: Option<Seq<char>>,
    pub dns_provider_credentials: Option<Seq<char>>,
    pub propagation_seconds: Option<u32>,
}

/// What a [`NpmCertificateRequest`] holds.
pub struct NpmCertificateRequestView {
    pub provider: Seq<char>,
    pub nice_name: Option<Seq<char>>,
    pub domain_names: Seq<Seq<char>>,
    pub meta: NpmCertificateRequestMetaView,
}

impl<'a> View for NpmCertificateRequestMeta<'a> {
    type V = NpmCertificateRequestMetaView;

    open spec fn view(&self) -> NpmCertificateRequestMetaView {
        NpmCertificateRequestMetaView {
            avel_pilot: self.avel_pilot,
            dns_challenge: self.dns_challenge,
            dns_provider: text::opt_str(self.dns_provider),
            dns_provider_credentials: text::opt_str(self.dns_provider_credentials),
            propagation_seconds: self.propagation_seconds,
        }
    }
}

impl<'a> View for NpmCertificateRequest<'a> {
    type V = NpmCertificateRequestView;

    open spec fn view(&self) -> NpmCertificateRequestView {
        NpmCertificateRequestView {
            provider: self.provider@,
            nice_name: text::opt_str(self.nice_name),
            domain_names: text::texts(self.domain_names@),
            meta: self.meta@,
        }
    }
}

/// What the API is told of a certificate that it has to order.
pub open spec fn certificate_request(certificate: CertificateView) -> NpmCertificateRequestView {
    NpmCertificateRequestView {
        provider: CERTIFICATE_PROVIDER@,
        nice_name: certificate.name,
        domain_names: certificate.domains,
        meta: match certificate.challenge {
            CertificateChallengeView::Http01 => NpmCertificateRequestMetaView {
                avel_pilot: true,
                dns_challenge: false,
                dns_provider: None,
                dns_provider_credentials: None,
                propagation_seconds: None,
            },
            CertificateChallengeView::Dns01(challenge) => NpmCertificateRequestMetaView {
                avel_pilot: true,
                dns_challenge: true,
                dns_provider: Some(challenge.provider),
                dns_provider_credentials: Some(challenge.credentials),
                propagation_seconds: challenge.propagation_seconds,
            },
        },
    }
}

impl<'a> NpmCertificateRequest<'a> {
    /// What the API is told of the certificate. There is no certificate that it
    /// cannot be told.
    pub fn try_from(certificate: &'a Certificate) -> (r: Result<
        NpmCertificateRequest<'a>,
        CertProviderError,
    >)
        ensures
            r is Ok,
            r->Ok_0@ == certificate_request(certificate@),
    {
        let meta = match &certificate.challenge {
            CertificateChallenge::Http01 => NpmCertificateRequestMeta {
                avel_pilot: true,
                dns_challenge: false,
                dns_provider: None,
                dns_provider_credentials: None,
                propagation_seconds: None,
            },
            CertificateChallenge::Dns01(challenge) => NpmCertificateRequestMeta {
                avel_pilot: true,
                dns_challenge: true,
                dns_provider: Some(challenge.provider.as_str()),
                dns_provider_credentials: Some(challenge.credentials.as_str()),
                propagation_seconds: challenge.propagation_seconds,
            },
        };
        let nice_name = match &certificate.name {
            Some(name) => Some(name.as_str()),
            None => None,
        };
        Ok(
            NpmCertificateRequest {
                provider: CERTIFICATE_PROVIDER,
                nice_name,
                domain_names: certificate.domains.as_slice(),
                meta,
            },
        )
    }
}

/// A call that changes a certificate.
pub struct NpmCertificateCall<'a> {
    pub method: ApiMethod,
    pub path: String,
    pub body: Option<NpmCertificateRequest<'a>>,
}

/// What a [`NpmCertificateCall`] holds.
pub struct NpmCertificateCallView {
    pub method: ApiMethod,
    pub path: Seq<char>,
    pub body: Option<NpmCertificateRequestView>,
}

impl<'a> View for NpmCertificateCall<'a> {
    type V = NpmCertificateCallView;

    open spec fn view(&self) -> NpmCertificateCallView {
        NpmCertificateCallView {
            method: self.method,
            path: self.path@,
            body: match self.body {
                Some(body) => Some(body@),
                None => None,
            },
        }
    }
}

/// The call that makes a change to the certificates, unless it names a
/// certificate by something that is no number.
pub open spec fn certificate_call_of(change: CertificateChangeView) -> Result<
    NpmCertificateCallView,
    CertProviderErrorView,
> {
    match change {
        CertificateChangeView::Create(certificate) => Ok(
            NpmCertificateCallView {
                method: ApiMethod::Post,
                path: CERTIFICATES_PATH@,
                body: Some(certificate_request(certificate)),
            },
        ),
        CertificateChangeView::Renew { id } => match id_number(id) {
            Some(number) => Ok(
                NpmCertificateCallView {
                    method: ApiMethod::Post,
                    path: numbered_path(CERTIFICATES_PATH@, number) + "/renew"@,
                    body: None,
                },
            ),
            None => Err(CertProviderErrorView::CertificateNotFound(id)),
        },
        CertificateChangeView::Delete { id } => match id_number(id) {
            Some(number) => Ok(
                NpmCertificateCallView {
                    method: ApiMethod::Delete,
                    path: numbered_path(CERTIFICATES_PATH@, number),
                    body: None,
                },
            ),
            None => Err(CertProviderErrorView::CertificateNotFound(id)),
        },
    }
}

/// The call that makes the change to the certificates.
pub fn certificate_call<'a>(change: &'a CertificateChange) -> (r: Result<
    NpmCertificateCall<'a>,
    CertProviderError,
>)
    ensures
        match certificate_call_of(change@) {
            Ok(call) => r is Ok && r->Ok_0@ == call,
            Err(error) => r is Err && r->Err_0@ == error,
        },
{
    match change {
        CertificateChange::Create(certificate) => match NpmCertificateRequest::try_from(
            certificate,
        ) {
            Ok(body) => Ok(
                NpmCertificateCall {
                    method: ApiMethod::Post,
                    path: CERTIFICATES_PATH.to_owned(),
                    body: Some(body),
                },
            ),
            Err(error) => Err(error),
        },
        CertificateChange::Renew { id } => match NPMProxyProvider::parse_certificate_id(id) {
            Ok(number) => {
                let mut path = numbered(CERTIFICATES_PATH, number);
                path.append("/renew");
                Ok(NpmCertificateCall { method: ApiMethod::Post, path, body: None })
            },
            Err(error) => Err(error),
        },
        CertificateChange::Delete { id } => match NPMProxyProvider::parse_certificate_id(id) {
            Ok(number) => Ok(
                NpmCertificateCall {
                    method: ApiMethod::Delete,
                    path: numbered(CERTIFICATES_PATH, number),
                    body: None,
                },
            ),
            Err(error) => Err(error),
        },
    }
}

/// How many hosts and certificates are managed and how many are not.
#[derive(Debug, Clone, Copy, PartialEq, Eq, Structural)]
pub struct NpmSummary {
    pub proxy_managed: usize,
    pub proxy_unmanaged: usize,
    pub ssl_managed: usize,
    pub ssl_unmanaged: usize,
}

/// How many hosts of a list are managed.
pub open spec fn managed_host_count(hosts: Seq<NpmProxyHostView>) -> nat
    decreases hosts.len(),
{
    if hosts.len() == 0 {
        0
    } else {
        managed_host_count(hosts.drop_last()) + if hosts.last().managed() {
            1nat
        } else {
            0nat
        }
    }
}

/// How many certificates of a list are managed.
pub open spec fn managed_certificate_count(
    certificates: Seq<NpmCertificateView>,
    zone: Seq<char>,
) -> nat
    decreases certificates.len(),
{
    if certificates.len() == 0 {
        0
    } else {
        managed_certificate_count(certificates.drop_last(), zone)
            + if certificates.last().managed_for(zone) {
            1nat
        } else {
            0nat
        }
    }
}

fn count_managed_hosts(hosts: &[NpmProxyHost]) -> (r: usize)
    ensures
        r == managed_host_count(npm_hosts_view(hosts@)),
        r <= hosts@.len(),
{
    let ghost all = npm_hosts_view(hosts@);
    let mut count: usize = 0;
    let mut i: usize = 0;
    while i < hosts.len()
        invariant
            i <= hosts.len(),
            count <= i,
            all == npm_hosts_view(hosts@),
            count == managed_host_count(all.take(i as int)),
        decreases hosts@.len() - i,
    {
        assert(all.take(i + 1).drop_last() =~= all.take(i as int));
        assert(all.take(i + 1).last() == hosts@[i as int]@);
        if hosts[i].is_managed() {
            count = count + 1;
        }
        i = i + 1;
    }
    assert(all.take(i as int) =~= all);
    count
}

fn count_managed_certificates(certificates: &[NpmCertificate], zone: &str) -> (r: usize)
    ensures
        r == managed_certificate_count(npm_certificates_view(certificates@), zone@),
        r <= certificates@.len(),
{
    let ghost all = npm_certificates_view(certificates@);
    let mut count: usize = 0;
    let mut i: usize = 0;
    while i < certificates.len()
        invariant
            i <= certificates.len(),
            count <= i,
            all == npm_certificates_view(certificates@),
            count == managed_certificate_count(all.take(i as int), zone@),
        decreases certificates@.len() - i,
    {
        assert(all.take(i + 1).drop_last() =~= all.take(i as int));
        assert(all.take(i + 1).last() == certificates@[i as int]@);
        if certificates[i].is_managed(zone) {
            count = count + 1;
        }
        i = i + 1;
    }
    assert(all.take(i as int) =~= all);
    count
}

/// A failure as the API explains it.
pub struct NpmErrorResponse {
    pub message: Option<String>,
    pub error: Option<NpmErrorBody>,
}

/// The inner part of an explanation.
pub struct NpmErrorBody {
    pub message: String,
}

/// The message of a failure: what the API explains, and otherwise the whole
/// answer.
pub open spec fn failure_message(explained: Option<NpmErrorResponse>, answer: Seq<char>) -> Seq<
    char,
> {
    match explained {
        Some(response) => match response.message {
            Some(message) => message@,
            None => match response.error {
                Some(body) => body.message@,
                None => answer,
            },
        },
        None => answer,
    }
}

/// The proxy manager that is talked to, and the token that it gave.
pub struct NPMProxyProvider {
    pub base_url: String,
    pub identity: String,
    pub secret: String,
    pub token: Option<String>,
}

impl NPMProxyProvider {
    /// The proxy manager at a URL, not yet logged in. Slashes at the end of the
    /// URL do not count.
    pub fn new(base_url: String, identity: String, secret: String) -> (r: NPMProxyProvider)
        ensures
            r.base_url@ == text::stripped_end(base_url@, '/'),
            r.identity == identity,
            r.secret == secret,
            r.token is None,
    {
        NPMProxyProvider {
            base_url: text::strip_end(base_url.as_str(), '/'),
            identity,
            secret,
            token: None,
        }
    }

    /// The URL of a path.
    pub fn url(&self, path: &str) -> (r: String)
        ensures
            r@ == self.base_url@ + path@,
    {
        text::join2(self.base_url.as_str(), path)
    }

    /// The token, if there is one already.
    pub fn cached_token(&self) -> (r: Option<String>)
        ensures
            text::opt_text(r) == text::opt_text(self.token),
    {
        text::clone_opt_text(&self.token)
    }

    /// Keeps the token that a login gave.
    pub fn logged_in(&mut self, token: String)
        ensures
            final(self).token == Some(token),
            final(self).base_url == old(self).base_url,
            final(self).identity == old(self).identity,
            final(self).secret == old(self).secret,
    {
        self.token = Some(token);
    }

    /// What a failed call reports.
    pub fn api_error(status: u16, explained: Option<NpmErrorResponse>, answer: String) -> (r:
        ProxyError)
        ensures
            r@ == (ProxyErrorView::Api { status, message: failure_message(explained, answer@) }),
    {
        let message = match explained {
            Some(response) => match response.message {
                Some(message) => message,
                None => match response.error {
                    Some(body) => body.message,
                    None => answer,
                },
            },
            None => answer,
        };
        ProxyError::Api { status, message }
    }

    /// How many of the listed hosts and certificates are managed. The wildcard
    /// certificate of the zone is.
    pub fn summary(hosts: &[NpmProxyHost], certificates: &[NpmCertificate], zone: &str) -> (r:
        NpmSummary)
        ensures
            r.proxy_managed == managed_host_count(npm_hosts_view(hosts@)),
            r.proxy_managed + r.proxy_unmanaged == hosts@.len(),
            r.ssl_managed == managed_certificate_count(
                npm_certificates_view(certificates@),
                zone@,
            ),
            r.ssl_managed + r.ssl_unmanaged == certificates@.len(),
    {
        let proxy_managed = count_managed_hosts(hosts);
        let ssl_managed = count_managed_certificates(certificates, zone);
        NpmSummary {
            proxy_managed,
            proxy_unmanaged: hosts.len() - proxy_managed,
            ssl_managed,
            ssl_unmanaged: certificates.len() - ssl_managed,
        }
    }

    /// The number that the API knows the host by.
    pub fn parse_id(id: &ProxyHostId) -> (r: Result<u32, ProxyError>)
        ensures
            match id_number(id@) {
                Some(number) => r is Ok && r->Ok_0 == number,
                None => r is Err && r->Err_0@ == ProxyErrorView::InvalidHostId(id@),
            },
    {
        match text::parse_unsigned(id.0.as_str(), u32::MAX) {
            Some(number) => Ok(number),
            None => Err(ProxyError::InvalidHostId(id.0.clone())),
        }
    }

    /// The number that the API knows the certificate by.
    pub fn parse_certificate_id(id: &CertificateId) -> (r: Result<u32, CertProviderError>)
        ensures
            match id_number(id@) {
                Some(number) => r is Ok && r->Ok_0 == number,
                None => r is Err && r->Err_0@ == CertProviderErrorView::CertificateNotFound(id@),
            },
    {
        match text::parse_unsigned(id.0.as_str(), u32::MAX) {
            Some(number) => Ok(number),
            None => Err(CertProviderError::CertificateNotFound(id.0.clone())),
        }
    }
}

/// The metadata of a certificate that the API keeps as it was told.
pub open spec fn kept_meta(meta: NpmCertificateRequestMetaView) -> Json {
    let always = map![
        "avel_pilot"@ => Json::Bool(meta.avel_pilot),
        "dns_challenge"@ => Json::Bool(meta.dns_challenge),
    ];
    let named = match meta.dns_provider {
        Some(provider) => always.insert("dns_provider"@, Json::Text(provider)),
        None => always,
    };
    let secured = match meta.dns_provider_credentials {
        Some(credentials) => named.insert("dns_provider_credentials"@, Json::Text(credentials)),
        None => named,
    };
    Json::Object(
        match meta.propagation_seconds {
            Some(seconds) => secured.insert(
                "propagation_seconds"@,
                Json::Number(Some(seconds as u64)),
            ),
            None => secured,
        },
    )
}

/// A certificate that the API keeps as it was told, under an id and the name
/// that it was given.
pub open spec fn kept_certificate(
    request: NpmCertificateRequestView,
    id: u32,
    name: Seq<char>,
) -> NpmCertificateView {
    NpmCertificateView {
        id,
        provider: request.provider,
        nice_name: match request.nice_name {
            Some(given) => given,
            None => name,
        },
        domain_names: request.domain_names,
        expires_on: None,
        meta: kept_meta(request.meta),
    }
}

/// Every certificate that was ordered, and that the API keeps as it was told,
/// counts and is managed whatever the zone is, and it reads back with its
/// domains and its challenge, but for the credentials.
pub proof fn law_kept_certificate_is_managed(
    certificate: CertificateView,
    id: u32,
    name: Seq<char>,
    zone: Seq<char>,
)
    ensures
        ({
            let kept = kept_certificate(certificate_request(certificate), id, name);
            &&& kept.counts()
            &&& kept.managed_for(zone)
            &&& kept.certificate().meta.managed
            &&& kept.certificate().id == Some(text::decimal(id as nat))
            &&& kept.certificate().domains == certificate.domains
            &&& kept.certificate().challenge == match certificate.challenge {
                CertificateChallengeView::Http01 => CertificateChallengeView::Http01,
                CertificateChallengeView::Dns01(challenge) => CertificateChallengeView::Dns01(
                    Dns01ChallengeView { credentials: Seq::empty(), ..challenge },
                ),
            }
        }),
{
    reveal_strlit("avel_pilot");
    reveal_strlit("dns_challenge");
    reveal_strlit("dns_provider");
    reveal_strlit("dns_provider_credentials");
    reveal_strlit("propagation_seconds");
    assert("avel_pilot"@.len() == 10);
    assert("dns_challenge"@.len() == 13);
    assert("dns_provider"@.len() == 12);
    assert("dns_provider_credentials"@.len() == 24);
    assert("propagation_seconds"@.len() == 19);
}

/// The existing wildcard certificate of the zone is managed, whatever its name
/// and its metadata say.
pub proof fn law_wildcard_certificate_is_managed(
    certificate: NpmCertificateView,
    zone: Seq<char>,
)
    requires
        certificate.counts(),
        certificate.domain_names == seq![desired::wildcard(zone)],
    ensures
        certificate.managed_for(zone),
{
}

} // verus!
