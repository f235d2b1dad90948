use avel_pilot::api::ApiMethod;
use avel_pilot::cert_provider::{
    CertProviderError, Certificate, CertificateChallenge, CertificateChange, CertificateId,
    CertificateMeta, Dns01Challenge,
};
use avel_pilot::dns_provider::cloudflare::{
    find_zone_id, list_path, managed_records, record_call, CloudflareApiError,
    CloudflareDnsProvider, CloudflareRecord, CloudflareRecordRequest, CloudflareResponse,
    CloudflareZone,
};
use avel_pilot::dns_provider::{
    DnsChange, DnsProviderError, DnsRecord, DnsRecordId, DnsRecordType, DnsSummary,
};
use avel_pilot::proxy_provider::npm::{
    certificate_call, counted_certificates, host_call, managed_hosts, NPMProxyProvider,
    NpmCertificate, NpmCertificateRequest, NpmErrorBody, NpmErrorResponse, NpmProxyHost,
    NpmProxyHostRequest, NpmSummary,
};
use avel_pilot::proxy_provider::{
    CertificateRef, ProxyChange, ProxyError, ProxyHost, ProxyHostId, Upstream, UpstreamScheme,
};
use avel_pilot::reconciler::desired::wildcard_certificate;
use avel_pilot::{json, reconciler};
use serde_json::Value;

#[test]
fn a_failed_answer_reports_its_first_error() {
    let response = CloudflareResponse {
        success: false,
        result: 1u8,
        errors: vec![api_error(9109, "Invalid token"), api_error(1, "other")],
        messages: vec![],
    };
    let error = response.into_result().unwrap_err();
    assert_eq!(error.message(), "Cloudflare API error 9109: Invalid token");
    let response = CloudflareResponse {
        success: false,
        result: 1u8,
        errors: vec![],
        messages: vec![api_error(1, "note")],
    };
    assert_eq!(
        response.into_result(),
        Err(DnsProviderError::Api { code: 0, message: "Unknown Cloudflare API error".to_owned() })
    );
    let response =
        CloudflareResponse { success: true, result: 5u8, errors: vec![], messages: vec![] };
    assert_eq!(response.into_result(), Ok(5));
}

#[test]
fn a_zone_is_found_by_its_name_and_then_known() {
    let zones = vec![zone("z1", "a.b"), zone("z2", "avel.space"), zone("z3", "avel.space")];
    assert_eq!(find_zone_id(&zones, "avel.space"), Ok("z2".to_owned()));
    assert_eq!(
        find_zone_id(&zones, "avel"),
        Err(DnsProviderError::ZoneNotFound("avel".to_owned()))
    );
    let mut provider = CloudflareDnsProvider::new("key".to_owned());
    assert_eq!(provider.cached_zone_id("avel.space"), None);
    let found = provider.resolve_zone_id(
        "avel.space",
        CloudflareResponse { success: true, result: zones, errors: vec![], messages: vec![] },
    );
    assert_eq!(found, Ok("z2".to_owned()));
    assert_eq!(provider.cached_zone_id("avel.space"), Some("z2".to_owned()));
    let missing = provider.resolve_zone_id(
        "other",
        CloudflareResponse { success: true, result: vec![], errors: vec![], messages: vec![] },
    );
    assert_eq!(missing, Err(DnsProviderError::ZoneNotFound("other".to_owned())));
    assert_eq!(provider.cached_zone_id("other"), None);
    let failed = provider.resolve_zone_id(
        "other",
        CloudflareResponse {
            success: false,
            result: vec![zone("z4", "other")],
            errors: vec![api_error(7, "no")],
            messages: vec![],
        },
    );
    assert_eq!(failed, Err(DnsProviderError::Api { code: 7, message: "no".to_owned() }));
    assert_eq!(provider.cached_zone_id("other"), None);
}

#[test]
fn only_marked_records_are_managed() {
    let records = vec![
        cloudflare_record("1", "A", 1, Some("managed-by:avel-pilot")),
        cloudflare_record("2", "SRV", 1, None),
        cloudflare_record("3", "A", 60, Some("by hand")),
        cloudflare_record("4", "TXT", 300, Some("x managed-by:avel-pilot y")),
    ];
    assert_eq!(
        CloudflareDnsProvider::summary(&records),
        DnsSummary { managed: 2, unmanaged: 2 }
    );
    let managed = managed_records(records).unwrap();
    assert_eq!(managed.len(), 2);
    assert_eq!(managed[0].id, Some(DnsRecordId("1".to_owned())));
    assert_eq!(managed[0].ttl, None);
    assert_eq!(managed[1].record_type, DnsRecordType::Txt);
    assert_eq!(managed[1].ttl, Some(300));
}

#[test]
fn unmanaged_records_are_never_changed() {
    let listed = vec![
        cloudflare_record("1", "A", 1, None),
        cloudflare_record("2", "TXT", 1, Some("managed-by:avel-pilot")),
        cloudflare_record("3", "CNAME", 1, Some("mine")),
    ];
    let managed = managed_records(listed).unwrap();
    assert_eq!(
        reconciler::diff_dns_records(&[], &managed),
        vec![DnsChange::Delete { id: DnsRecordId("2".to_owned()) }]
    );
    let hosts = vec![
        npm_host(1, "http", 0, "{}"),
        npm_host(2, "http", 0, r#"{"avel_pilot":true}"#),
        npm_host(3, "gopher", 0, r#"{"avel_pilot":"true"}"#),
    ];
    let changes = reconciler::diff_proxy_hosts(&[], &managed_hosts(hosts).unwrap());
    assert_eq!(changes, vec![ProxyChange::Delete { id: ProxyHostId("2".to_owned()) }]);
    assert_eq!(host_call(&changes[0]).ok().unwrap().path, "/api/nginx/proxy-hosts/2");
}

#[test]
fn a_managed_record_of_an_unknown_kind_is_an_error() {
    let records = vec![
        cloudflare_record("1", "A", 1, Some("managed-by:avel-pilot")),
        cloudflare_record("2", "SRV", 1, Some("managed-by:avel-pilot")),
        cloudflare_record("3", "NS", 1, Some("managed-by:avel-pilot")),
    ];
    let error = managed_records(records).unwrap_err();
    assert_eq!(error.message(), "unsupported record type: SRV");
}

#[test]
fn a_told_record_reads_back() {
    let kinds = [
        DnsRecordType::A,
        DnsRecordType::Aaaa,
        DnsRecordType::Cname,
        DnsRecordType::Txt,
        DnsRecordType::Mx,
    ];
    for record_type in kinds {
        for ttl in [None, Some(0), Some(2), Some(300)] {
            let record = DnsRecord {
                id: Some(DnsRecordId("7".to_owned())),
                name: "tv.avel.space".to_owned(),
                record_type,
                value: "10.0.5.104".to_owned(),
                ttl,
            };
            let request = CloudflareRecordRequest::from(&record);
            assert_eq!(request.comment, "managed-by:avel-pilot");
            let kept = CloudflareRecord {
                id: "7".to_owned(),
                name: request.name.to_owned(),
                record_type: request.record_type.to_owned(),
                content: request.content.to_owned(),
                ttl: request.ttl,
                comment: Some(request.comment.to_owned()),
            };
            assert!(kept.is_managed());
            assert_eq!(DnsRecord::try_from(kept), Ok(record));
        }
    }
}

#[test]
fn record_changes_become_calls() {
    let record = DnsRecord {
        id: None,
        name: "tv.avel.space".to_owned(),
        record_type: DnsRecordType::Aaaa,
        value: "::1".to_owned(),
        ttl: None,
    };
    let change = DnsChange::Create(record.clone());
    let call = record_call("z1", &change);
    assert_eq!(call.method, ApiMethod::Post);
    assert_eq!(call.method.as_name(), "POST");
    assert_eq!(call.path, "/zones/z1/dns_records");
    let body = call.body.unwrap();
    assert_eq!((body.record_type, body.name, body.content), ("AAAA", "tv.avel.space", "::1"));
    assert_eq!(body.ttl, 1);

    let change = DnsChange::Update { id: DnsRecordId("r9".to_owned()), record };
    let call = record_call("z1", &change);
    assert_eq!(call.method.as_name(), "PATCH");
    assert_eq!(call.path, "/zones/z1/dns_records/r9");
    assert!(call.body.is_some());

    let change = DnsChange::Delete { id: DnsRecordId("r9".to_owned()) };
    let call = record_call("z1", &change);
    assert_eq!(call.method.as_name(), "DELETE");
    assert_eq!(call.path, "/zones/z1/dns_records/r9");
    assert!(call.body.is_none());

    assert_eq!(list_path("z1"), "/zones/z1/dns_records?per_page=5000");
    assert_eq!(
        CloudflareDnsProvider::url("/zones"),
        "https://api.cloudflare.com/client/v4/zones"
    );
}

#[test]
fn cloudflare_offers_dns01() {
    let offer = CloudflareDnsProvider::new("abc".to_owned()).dns01_provider_config().unwrap();
    assert_eq!(offer.provider, "cloudflare");
    assert_eq!(offer.credentials, "dns_cloudflare_api_token=abc");
    assert_eq!(offer.propagation_seconds, None);
}

#[test]
fn members_of_json_values_are_read() {
    let value = parse(
        r#"{"t":true,"f":false,"s":"text","n":7,"big":4294967296,"neg":-1,"x":1.5,"o":{"t":true}}"#,
    );
    assert!(json::flag(&value, "t"));
    assert!(!json::flag(&value, "f"));
    assert!(!json::flag(&value, "s"));
    assert!(!json::flag(&value, "missing"));
    assert_eq!(json::text(&value, "s"), "text");
    assert_eq!(json::text(&value, "n"), "");
    assert_eq!(json::number(&value, "n"), Some(7));
    assert_eq!(json::number(&value, "big"), None);
    assert_eq!(json::number(&value, "neg"), None);
    assert_eq!(json::number(&value, "x"), None);
    assert_eq!(json::number(&value, "s"), None);
    for other in [Value::Null, Value::Bool(true), Value::from("t"), parse("[true]")] {
        assert!(!json::flag(&other, "t"));
        assert_eq!(json::text(&other, "t"), "");
        assert_eq!(json::number(&other, "t"), None);
    }
}

#[test]
fn only_marked_hosts_are_managed() {
    let hosts = vec![
        npm_host(1, "http", 0, r#"{"avel_pilot":true}"#),
        npm_host(2, "ftp", 0, "{}"),
        npm_host(3, "https", 4, r#"{"avel_pilot":false}"#),
        npm_host(4, "https", 4, r#"{"avel_pilot":true}"#),
        npm_host(5, "https", 4, "null"),
    ];
    let managed = managed_hosts(hosts).unwrap();
    assert_eq!(managed.len(), 2);
    assert_eq!(managed[0].id, Some(ProxyHostId("1".to_owned())));
    assert_eq!(managed[0].certificate, None);
    assert_eq!(managed[0].upstream.scheme, UpstreamScheme::Http);
    assert_eq!(managed[1].certificate, Some(CertificateRef { id: 4 }));
    assert_eq!(managed[1].upstream.scheme, UpstreamScheme::Https);
}

#[test]
fn a_managed_host_of_an_unknown_scheme_is_an_error() {
    let hosts = vec![
        npm_host(1, "ftp", 0, r#"{"avel_pilot":true}"#),
        npm_host(2, "gopher", 0, r#"{"avel_pilot":true}"#),
    ];
    assert_eq!(
        managed_hosts(hosts).unwrap_err().message(),
        "unsupported upstream scheme: ftp"
    );
}

#[test]
fn a_told_host_reads_back() {
    for certificate in [None, Some(CertificateRef { id: 9 })] {
        let host = proxy_host(certificate);
        let request = NpmProxyHostRequest::from(&host);
        assert_eq!(request.http2_support, certificate.is_some());
        assert!(request.block_exploits && request.enabled);
        assert!(!request.caching_enabled && !request.hsts_enabled && !request.hsts_subdomains);
        assert_eq!(request.access_list_id, 0);
        assert_eq!(request.advanced_config, "");
        assert!(request.locations.is_empty());
        assert_eq!(request.meta, parse(r#"{"avel_pilot":true}"#));
        let kept = NpmProxyHost {
            id: 31,
            domain_names: request.domain_names.to_vec(),
            forward_scheme: request.forward_scheme.to_owned(),
            forward_host: request.forward_host.to_owned(),
            forward_port: request.forward_port,
            allow_websocket_upgrade: request.allow_websocket_upgrade,
            certificate_id: request.certificate_id,
            ssl_forced: request.ssl_forced,
            meta: request.meta.clone(),
        };
        assert!(kept.is_managed());
        let mut want = host.clone();
        want.id = Some(ProxyHostId("31".to_owned()));
        assert_eq!(ProxyHost::try_from(kept), Ok(want));
    }
}

#[test]
fn host_changes_become_calls() {
    let change = ProxyChange::Create(proxy_host(None));
    let call = host_call(&change).ok().unwrap();
    assert_eq!((call.method, call.path.as_str()), (ApiMethod::Post, "/api/nginx/proxy-hosts"));
    assert!(call.body.is_some());
    let change =
        ProxyChange::Update { id: ProxyHostId("007".to_owned()), host: proxy_host(None) };
    let call = host_call(&change).ok().unwrap();
    assert_eq!((call.method, call.path.as_str()), (ApiMethod::Put, "/api/nginx/proxy-hosts/7"));
    assert_eq!(call.method.as_name(), "PUT");
    let change = ProxyChange::Delete { id: ProxyHostId("12".to_owned()) };
    let call = host_call(&change).ok().unwrap();
    assert_eq!(
        (call.method, call.path.as_str()),
        (ApiMethod::Delete, "/api/nginx/proxy-hosts/12")
    );
    assert!(call.body.is_none());
    let change = ProxyChange::Delete { id: ProxyHostId("-1".to_owned()) };
    assert_eq!(host_call(&change).err().unwrap().message(), "invalid proxy host id: -1");
    assert_eq!(ApiMethod::Get.as_name(), "GET");
}

#[test]
fn certificates_are_read_from_their_metadata() {
    let certificate = npm_certificate(
        5,
        "letsencrypt",
        "mine",
        "a.b",
        r#"{"dns_challenge":true,"dns_provider":"cloudflare","propagation_seconds":120}"#,
    );
    let read = Certificate::from(certificate);
    assert_eq!(read.id, Some(CertificateId("5".to_owned())));
    assert_eq!(read.name, Some("mine".to_owned()));
    assert_eq!(read.meta, CertificateMeta { managed: false });
    assert_eq!(read.expires_at, None);
    assert_eq!(
        read.challenge,
        CertificateChallenge::Dns01(Dns01Challenge {
            provider: "cloudflare".to_owned(),
            credentials: String::new(),
            propagation_seconds: Some(120),
        })
    );
    let plain = Certificate::from(npm_certificate(6, "letsencrypt", "x", "a.b", "null"));
    assert_eq!(plain.challenge, CertificateChallenge::Http01);
}

#[test]
fn certificates_of_other_providers_do_not_count() {
    let listed = vec![
        npm_certificate(1, "other", "managed-by:avel-pilot", "a.b", "{}"),
        npm_certificate(2, "letsencrypt", "x managed-by:avel-pilot", "a.b", "{}"),
    ];
    let counted = counted_certificates(listed);
    assert_eq!(counted.len(), 1);
    assert_eq!(counted[0].id, Some(CertificateId("2".to_owned())));
    assert!(counted[0].meta.managed);
}

#[test]
fn the_summary_counts_what_is_managed() {
    let hosts = vec![
        npm_host(1, "http", 0, r#"{"avel_pilot":true}"#),
        npm_host(2, "http", 0, "{}"),
        npm_host(3, "http", 0, "{}"),
    ];
    let certificates = vec![
        npm_certificate(1, "letsencrypt", "managed-by:avel-pilot:*.z", "*.z", "{}"),
        npm_certificate(2, "letsencrypt", "plain", "other", r#"{"avel_pilot":true}"#),
        npm_certificate(3, "letsencrypt", "by hand", "*.Avel.Space", "{}"),
        npm_certificate(4, "letsencrypt", "by hand", "avel.space", "{}"),
        npm_certificate(5, "custom", "managed-by:avel-pilot", "*.avel.space", "{}"),
    ];
    assert_eq!(
        NPMProxyProvider::summary(&hosts, &certificates, "avel.space"),
        NpmSummary { proxy_managed: 1, proxy_unmanaged: 2, ssl_managed: 3, ssl_unmanaged: 2 }
    );
}

#[test]
fn an_ordered_certificate_is_recognised() {
    let offer = CloudflareDnsProvider::new("abc".to_owned()).dns01_provider_config();
    let wanted = wildcard_certificate("avel.space", offer, None);
    let request = NpmCertificateRequest::try_from(&wanted).ok().unwrap();
    assert_eq!(request.provider, "letsencrypt");
    assert_eq!(request.nice_name, Some("managed-by:avel-pilot:*.avel.space"));
    assert!(request.meta.avel_pilot && request.meta.dns_challenge);
    assert_eq!(request.meta.dns_provider, Some("cloudflare"));
    assert_eq!(request.meta.dns_provider_credentials, Some("dns_cloudflare_api_token=abc"));
    assert_eq!(request.meta.propagation_seconds, None);
    let kept = npm_certificate(
        8,
        request.provider,
        "renamed",
        &request.domain_names[0],
        r#"{"avel_pilot":true,"dns_challenge":true,"dns_provider":"cloudflare"}"#,
    );
    assert!(kept.is_managed("elsewhere"));
    let read = Certificate::from(kept);
    assert!(read.meta.managed);
    assert_eq!(
        reconciler::existing_wildcard_certificate_id("avel.space", &[read]),
        Some(CertificateId("8".to_owned()))
    );
}

#[test]
fn an_http_challenge_needs_no_provider() {
    let mut wanted = wildcard_certificate("avel.space", None, None);
    wanted.challenge = CertificateChallenge::Http01;
    wanted.name = None;
    let request = NpmCertificateRequest::try_from(&wanted).ok().unwrap();
    assert!(!request.meta.dns_challenge);
    assert_eq!(request.meta.dns_provider, None);
    assert_eq!(request.meta.dns_provider_credentials, None);
    assert_eq!(request.nice_name, None);
}

#[test]
fn certificate_changes_become_calls() {
    let change = CertificateChange::Create(wildcard_certificate("avel.space", None, None));
    let call = certificate_call(&change).ok().unwrap();
    assert_eq!((call.method, call.path.as_str()), (ApiMethod::Post, "/api/nginx/certificates"));
    assert!(call.body.is_some());
    let change = CertificateChange::Renew { id: CertificateId("4".to_owned()) };
    let call = certificate_call(&change).ok().unwrap();
    assert_eq!(
        (call.method, call.path.as_str()),
        (ApiMethod::Post, "/api/nginx/certificates/4/renew")
    );
    assert!(call.body.is_none());
    let change = CertificateChange::Delete { id: CertificateId("4".to_owned()) };
    let call = certificate_call(&change).ok().unwrap();
    assert_eq!(
        (call.method, call.path.as_str()),
        (ApiMethod::Delete, "/api/nginx/certificates/4")
    );
    for change in [
        CertificateChange::Renew { id: CertificateId("x".to_owned()) },
        CertificateChange::Delete { id: CertificateId("x".to_owned()) },
    ] {
        assert_eq!(
            certificate_call(&change).err().unwrap().message(),
            "certificate not found: x"
        );
    }
}

#[test]
fn ids_are_numbers() {
    assert_eq!(NPMProxyProvider::parse_id(&ProxyHostId("42".to_owned())), Ok(42));
    assert_eq!(
        NPMProxyProvider::parse_id(&ProxyHostId("4 2".to_owned())),
        Err(ProxyError::InvalidHostId("4 2".to_owned()))
    );
    assert_eq!(
        NPMProxyProvider::parse_certificate_id(&CertificateId("4294967295".to_owned())),
        Ok(4294967295)
    );
    assert_eq!(
        NPMProxyProvider::parse_certificate_id(&CertificateId("4294967296".to_owned())),
        Err(CertProviderError::CertificateNotFound("4294967296".to_owned()))
    );
}

#[test]
fn a_proxy_manager_keeps_its_address_and_its_token() {
    let mut provider = NPMProxyProvider::new(
        "http://10.0.5.104:81//".to_owned(),
        "me".to_owned(),
        "word".to_owned(),
    );
    assert_eq!(provider.url("/api/tokens"), "http://10.0.5.104:81/api/tokens");
    assert_eq!(provider.cached_token(), None);
    provider.logged_in("t".to_owned());
    assert_eq!(provider.cached_token(), Some("t".to_owned()));
    assert_eq!(provider.identity, "me");
}

#[test]
fn a_failure_is_explained_as_well_as_possible() {
    let outer = NpmErrorResponse {
        message: Some("outer".to_owned()),
        error: Some(NpmErrorBody { message: "inner".to_owned() }),
    };
    let error = NPMProxyProvider::api_error(403, Some(outer), "raw".to_owned());
    assert_eq!(error.message(), "NPM API error 403: outer");
    let inner = NpmErrorResponse {
        message: None,
        error: Some(NpmErrorBody { message: "inner".to_owned() }),
    };
    let error = NPMProxyProvider::api_error(403, Some(inner), "raw".to_owned());
    assert_eq!(error, ProxyError::Api { status: 403, message: "inner".to_owned() });
    let silent = NpmErrorResponse { message: None, error: None };
    let error = NPMProxyProvider::api_error(500, Some(silent), "raw".to_owned());
    assert_eq!(error.message(), "NPM API error 500: raw");
    let error = NPMProxyProvider::api_error(502, None, "<html>".to_owned());
    assert_eq!(error.message(), "NPM API error 502: <html>");
}

#[test]
fn errors_have_their_messages() {
    assert_eq!(
        ProxyError::Http("timeout".to_owned()).message(),
        "HTTP request failed: timeout"
    );
    assert_eq!(DnsProviderError::Http("t".to_owned()).message(), "HTTP request failed: t");
    assert_eq!(
        CertProviderError::UnsupportedChallengeType("tls".to_owned()).message(),
        "unsupported challenge type: tls"
    );
    assert_eq!(
        CertProviderError::Proxy(ProxyError::UnknownError).message(),
        "proxy provider error: unknown error"
    );
    assert_eq!(CertProviderError::UnknownError.message(), "unknown error");
}

fn parse(text: &str) -> Value {
    serde_json::from_str(text).unwrap()
}

fn api_error(code: u32, message: &str) -> CloudflareApiError {
    CloudflareApiError { code, message: message.to_owned() }
}

fn zone(id: &str, name: &str) -> CloudflareZone {
    CloudflareZone { id: id.to_owned(), name: name.to_owned() }
}

fn cloudflare_record(
    id: &str,
    record_type: &str,
    ttl: u32,
    comment: Option<&str>,
) -> CloudflareRecord {
    CloudflareRecord {
        id: id.to_owned(),
        name: "tv.avel.space".to_owned(),
        record_type: record_type.to_owned(),
        content: "10.0.5.104".to_owned(),
        ttl,
        comment: comment.map(|comment| comment.to_owned()),
    }
}

fn npm_host(id: u32, scheme: &str, certificate_id: u32, meta: &str) -> NpmProxyHost {
    NpmProxyHost {
        id,
        domain_names: vec!["tv.avel.space".to_owned()],
        forward_scheme: scheme.to_owned(),
        forward_host: "10.0.5.101".to_owned(),
        forward_port: 8096,
        allow_websocket_upgrade: true,
        certificate_id,
        ssl_forced: certificate_id != 0,
        meta: parse(meta),
    }
}

fn npm_certificate(
    id: u32,
    provider: &str,
    name: &str,
    domain: &str,
    meta: &str,
) -> NpmCertificate {
    NpmCertificate {
        id,
        provider: provider.to_owned(),
        nice_name: name.to_owned(),
        domain_names: vec![domain.to_owned()],
        expires_on: None,
        meta: parse(meta),
    }
}

fn proxy_host(certificate: Option<CertificateRef>) -> ProxyHost {
    ProxyHost {
        id: None,
        domains: vec!["tv.avel.space".to_owned(), "video.avel.space".to_owned()],
        upstream: Upstream {
            scheme: UpstreamScheme::Https,
            host: "10.0.5.101".to_owned(),
            port: 8096,
        },
        websocket: true,
        certificate,
        force_https: certificate.is_some(),
    }
}
