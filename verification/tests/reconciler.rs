use avel_pilot::cert_provider::{
    CertificateChallenge, CertificateChange, CertificateId, CertificateMeta,
};
use avel_pilot::config::{
    CertificateConfig, Config, DnsConfig, ProxyConfig, ServiceConfig, ServicesFile, UpstreamConfig,
    UpstreamSchemeConfig,
};
use avel_pilot::dns_provider::{DnsChange, DnsRecord, DnsRecordId, DnsRecordType};
use avel_pilot::proxy_provider::{
    CertificateRef, ProxyChange, ProxyHost, ProxyHostId, Upstream, UpstreamScheme,
};
use avel_pilot::reconciler::desired::{certificate_ref, needs_tls, wildcard_certificate};
use avel_pilot::reconciler::diff::{
    find_same_set, missing_certificates, normalized_domain_set, same_text_set,
};
use avel_pilot::reconciler::plan::{describe_certificate_changes, describe_pending};
use avel_pilot::reconciler::{
    build_desired_state, build_plan, describe_dns_change, describe_proxy_change, diff_certificates,
    diff_dns_records, diff_proxy_hosts, domain_in_zone, existing_wildcard_certificate_id,
    find_certificate_id, plan_reconcile, proxy_host, validate, zone, ReconcileError,
};

#[test]
fn desired_state_prefers_one_wildcard_certificate_for_tls_services() {
    let config = test_config("10.0.5.104");
    let services = test_services([
        ("jellyfin", "tv.avel.space", true),
        ("home", "home.avel.space", true),
    ]);

    let desired = build_desired_state(&config, &services, Some(CertificateId("7".to_owned())))
        .expect("desired state");

    assert_eq!(desired.certificates.len(), 1);
    assert_eq!(desired.certificates[0].domains, vec!["*.avel.space"]);
    assert!(desired.proxy_hosts.iter().all(|host| {
        host.certificate.as_ref().map(|certificate| certificate.id) == Some(7)
    }));
}

#[test]
fn dns_diff_updates_creates_and_deletes_by_name_and_type() {
    let desired = vec![
        dns_record(None, "tv.avel.space", DnsRecordType::A, "10.0.5.104"),
        dns_record(None, "home.avel.space", DnsRecordType::A, "10.0.5.104"),
    ];
    let actual = vec![
        dns_record(Some("1"), "tv.avel.space", DnsRecordType::A, "10.0.5.105"),
        dns_record(Some("2"), "old.avel.space", DnsRecordType::A, "10.0.5.104"),
    ];

    let changes = diff_dns_records(&desired, &actual);

    assert_eq!(changes.len(), 3);
    assert!(matches!(changes[0], DnsChange::Create(_)));
    assert!(matches!(changes[1], DnsChange::Update { .. }));
    assert!(matches!(changes[2], DnsChange::Delete { .. }));
}

#[test]
fn proxy_diff_is_idempotent_when_hosts_match() {
    let host = proxy_record(Some("4"), "tv.avel.space", Some(7));
    let desired = vec![proxy_record(None, "tv.avel.space", Some(7))];
    let actual = vec![host];

    assert!(diff_proxy_hosts(&desired, &actual).is_empty());
}

#[test]
fn certificate_diff_creates_missing_wildcard_without_deleting_others() {
    let desired = vec![wildcard_certificate("avel.space", None, None)];
    let actual = vec![wildcard_certificate(
        "example.com",
        None,
        Some(CertificateId("9".to_owned())),
    )];

    let changes = diff_certificates(&desired, &actual);

    assert_eq!(changes.len(), 1);
    assert!(matches!(changes[0], CertificateChange::Create(_)));
}

#[test]
fn validation_rejects_domains_outside_zone() {
    let config = test_config("10.0.5.104");
    let services = test_services([("bad", "bad.example.com", false)]);

    assert!(build_desired_state(&config, &services, None).is_err());
}

#[test]
fn validation_rejects_domain_that_only_shares_zone_suffix() {
    let config = test_config("10.0.5.104");
    let services = test_services([("bad", "badavel.space", false)]);

    assert!(build_desired_state(&config, &services, None).is_err());
}

#[test]
fn dns_changes_come_in_the_order_of_name_and_kind() {
    let desired = vec![
        dns_record(None, "b", DnsRecordType::Txt, "x"),
        dns_record(None, "b", DnsRecordType::A, "x"),
        dns_record(None, "a", DnsRecordType::Mx, "x"),
    ];
    let actual = vec![
        dns_record(Some("9"), "z", DnsRecordType::A, "x"),
        dns_record(Some("8"), "c", DnsRecordType::A, "x"),
    ];
    let changes = diff_dns_records(&desired, &actual);
    assert_eq!(
        changes,
        vec![
            DnsChange::Create(desired[2].clone()),
            DnsChange::Create(desired[1].clone()),
            DnsChange::Create(desired[0].clone()),
            DnsChange::Delete { id: DnsRecordId("8".to_owned()) },
            DnsChange::Delete { id: DnsRecordId("9".to_owned()) },
        ]
    );
}

#[test]
fn records_without_an_id_are_left_alone() {
    let desired = vec![dns_record(None, "a", DnsRecordType::A, "new")];
    let actual = vec![
        dns_record(None, "a", DnsRecordType::A, "old"),
        dns_record(None, "b", DnsRecordType::A, "old"),
    ];
    assert!(diff_dns_records(&desired, &actual).is_empty());
}

#[test]
fn a_different_time_to_live_is_updated() {
    let desired = vec![dns_record(None, "a", DnsRecordType::A, "x")];
    let mut held = dns_record(Some("1"), "a", DnsRecordType::A, "x");
    held.ttl = Some(300);
    let changes = diff_dns_records(&desired, &[held]);
    assert_eq!(
        changes,
        vec![DnsChange::Update { id: DnsRecordId("1".to_owned()), record: desired[0].clone() }]
    );
}

#[test]
fn of_several_records_with_one_key_the_last_counts() {
    let desired = vec![dns_record(None, "a", DnsRecordType::A, "x")];
    let actual = vec![
        dns_record(Some("1"), "a", DnsRecordType::A, "other"),
        dns_record(Some("2"), "a", DnsRecordType::A, "x"),
    ];
    assert!(diff_dns_records(&desired, &actual).is_empty());
}

#[test]
fn applied_dns_changes_leave_nothing_to_change() {
    let desired = vec![
        dns_record(None, "tv.avel.space", DnsRecordType::A, "10.0.5.104"),
        dns_record(None, "home.avel.space", DnsRecordType::A, "10.0.5.104"),
    ];
    let mut held = vec![
        dns_record(Some("1"), "tv.avel.space", DnsRecordType::A, "10.0.5.105"),
        dns_record(Some("2"), "old.avel.space", DnsRecordType::A, "10.0.5.104"),
    ];
    let mut next = 100;
    for change in diff_dns_records(&desired, &held) {
        match change {
            DnsChange::Create(mut record) => {
                record.id = Some(DnsRecordId(format!("{next}")));
                next += 1;
                held.insert(0, record);
            }
            DnsChange::Update { id, mut record } => {
                held.retain(|r| r.id.as_ref() != Some(&id));
                record.id = Some(id);
                held.push(record);
            }
            DnsChange::Delete { id } => held.retain(|r| r.id.as_ref() != Some(&id)),
        }
    }
    assert_eq!(held.len(), 2);
    assert!(diff_dns_records(&desired, &held).is_empty());
}

#[test]
fn applied_proxy_changes_leave_nothing_to_change() {
    let desired = vec![
        proxy_record(None, "tv.avel.space", Some(7)),
        proxy_record(None, "home.avel.space", None),
    ];
    let mut held = vec![
        proxy_record(Some("1"), "tv.avel.space", None),
        proxy_record(Some("2"), "old.avel.space", None),
    ];
    let changes = diff_proxy_hosts(&desired, &held);
    assert_eq!(
        changes,
        vec![
            ProxyChange::Create(desired[1].clone()),
            ProxyChange::Update { id: ProxyHostId("1".to_owned()), host: desired[0].clone() },
            ProxyChange::Delete { id: ProxyHostId("2".to_owned()) },
        ]
    );
    for change in changes {
        match change {
            ProxyChange::Create(mut host) => {
                host.id = Some(ProxyHostId("3".to_owned()));
                held.push(host);
            }
            ProxyChange::Update { id, mut host } => {
                held.retain(|h| h.id.as_ref() != Some(&id));
                host.id = Some(id);
                held.push(host);
            }
            ProxyChange::Delete { id } => held.retain(|h| h.id.as_ref() != Some(&id)),
        }
    }
    assert!(diff_proxy_hosts(&desired, &held).is_empty());
}

#[test]
fn hosts_without_a_domain_do_not_count() {
    let mut bare = proxy_record(Some("1"), "x", None);
    bare.domains.clear();
    assert!(diff_proxy_hosts(&[], &[bare.clone()]).is_empty());
    bare.id = None;
    assert!(diff_proxy_hosts(&[bare], &[]).is_empty());
}

#[test]
fn certificates_match_in_any_letter_case_and_order() {
    let mut wanted = wildcard_certificate("Avel.Space", None, None);
    let held = wildcard_certificate("avel.space", None, Some(CertificateId("4".to_owned())));
    assert!(diff_certificates(&[wanted.clone()], &[held.clone()]).is_empty());
    assert_eq!(
        existing_wildcard_certificate_id("AVEL.SPACE", &[held.clone()]),
        Some(CertificateId("4".to_owned()))
    );
    wanted.domains = vec!["B".to_owned(), "a".to_owned(), "b".to_owned()];
    let mut other = held.clone();
    other.domains = vec!["A".to_owned(), "b".to_owned()];
    assert!(diff_certificates(&[wanted.clone()], &[other.clone()]).is_empty());
    assert_eq!(diff_certificates(&[wanted], &[held]).len(), 1);
}

#[test]
fn lower_case_goes_beyond_ascii() {
    assert_eq!(
        normalized_domain_set(&["ÄB".to_owned(), "c".to_owned()]),
        vec!["äb".to_owned(), "c".to_owned()]
    );
}

#[test]
fn the_first_certificate_for_the_domains_is_found() {
    let certificates = vec![
        wildcard_certificate("other", None, Some(CertificateId("1".to_owned()))),
        wildcard_certificate("zone", None, Some(CertificateId("2".to_owned()))),
        wildcard_certificate("zone", None, Some(CertificateId("3".to_owned()))),
    ];
    assert_eq!(
        find_certificate_id(&certificates, &["*.ZONE".to_owned()]),
        Some(CertificateId("2".to_owned()))
    );
    assert_eq!(find_certificate_id(&certificates, &["zone".to_owned()]), None);
    assert_eq!(existing_wildcard_certificate_id("none", &certificates), None);
}

#[test]
fn sets_of_texts_are_compared_as_sets() {
    let a = vec!["x".to_owned(), "y".to_owned(), "x".to_owned()];
    let b = vec!["y".to_owned(), "x".to_owned()];
    let c = vec!["y".to_owned()];
    assert!(same_text_set(&a, &b));
    assert!(!same_text_set(&a, &c));
    assert_eq!(find_same_set(&vec![c.clone(), a.clone(), b.clone()], &b), Some(1));
    assert_eq!(find_same_set(&vec![c.clone()], &b), None);
    let certificate = wildcard_certificate("zone", None, None);
    assert_eq!(
        missing_certificates(&[certificate.clone()], &vec![a.clone()], &vec![c]),
        vec![CertificateChange::Create(certificate.clone())]
    );
    assert!(missing_certificates(&[certificate], &vec![a], &vec![b]).is_empty());
}

#[test]
fn the_wildcard_certificate_is_named_and_marked() {
    let certificate = wildcard_certificate("avel.space", None, None);
    assert_eq!(certificate.name, Some("managed-by:avel-pilot:*.avel.space".to_owned()));
    assert_eq!(certificate.meta, CertificateMeta { managed: true });
    assert!(matches!(certificate.challenge, CertificateChallenge::Dns01(_)));
    assert!(certificate.id.is_none());
}

#[test]
fn every_fault_of_a_service_has_its_message() {
    let config = test_config("10.0.5.104");
    let mut services = ServicesFile::new();
    services.insert("a".to_owned(), service(" ", "h", false));
    assert_eq!(fault(&config, &services), "invalid config: service a has empty domain");

    let mut services = ServicesFile::new();
    services.insert("a".to_owned(), service("tv.avel.space", "\t", false));
    assert_eq!(fault(&config, &services), "invalid config: service a has empty upstream host");

    let mut services = ServicesFile::new();
    services.insert("a".to_owned(), service("tv.example.com", "h", false));
    assert_eq!(
        fault(&config, &services),
        "invalid config: service a domain tv.example.com is outside zone avel.space"
    );

    let mut services = ServicesFile::new();
    services.insert("a".to_owned(), service("tv.avel.space", "h", false));
    services.insert("b".to_owned(), service("tv.avel.space", "h", false));
    assert_eq!(fault(&config, &services), "invalid config: duplicate service domain tv.avel.space");

    assert_eq!(
        fault(&test_config("  "), &ServicesFile::new()),
        "invalid config: proxy.host is empty"
    );
    assert!(validate(&config, &test_services([("a", "avel.space", true)])).is_ok());
}

#[test]
fn a_zone_holds_itself_and_what_is_below_it() {
    assert!(domain_in_zone("avel.space", "avel.space"));
    assert!(domain_in_zone("a.b.avel.space", "avel.space"));
    assert!(!domain_in_zone("badavel.space", "avel.space"));
    assert!(!domain_in_zone("avel.space.com", "avel.space"));
    let config = test_config("10.0.5.104");
    assert_eq!(zone(&config), "avel.space");
    assert_eq!(proxy_host(&config), "10.0.5.104");
}

#[test]
fn services_are_published_in_the_order_of_their_names() {
    let config = test_config("10.0.5.104");
    let services = test_services([
        ("sonarr", "sonarr.avel.space", false),
        ("jellyfin", "tv.avel.space", true),
    ]);
    let state =
        build_desired_state(&config, &services, Some(CertificateId("7".to_owned()))).unwrap();
    assert_eq!(state.dns_records.len(), 2);
    assert_eq!(state.dns_records[0].name, "tv.avel.space");
    assert_eq!(state.dns_records[0].record_type, DnsRecordType::A);
    assert_eq!(state.dns_records[0].value, "10.0.5.104");
    assert_eq!(state.dns_records[0].ttl, None);
    assert_eq!(state.dns_records[1].name, "sonarr.avel.space");
    assert!(state.proxy_hosts[0].force_https);
    assert_eq!(state.proxy_hosts[0].certificate, Some(CertificateRef { id: 7 }));
    assert!(!state.proxy_hosts[1].force_https);
    assert_eq!(state.proxy_hosts[1].certificate, None);
    assert_eq!(state.proxy_hosts[1].upstream.port, 8000);
    assert!(needs_tls(&services));
}

#[test]
fn without_tls_there_is_no_certificate() {
    let config = test_config("edge.example.com");
    let services = test_services([("a", "a.avel.space", false)]);
    let state = build_desired_state(&config, &services, None).unwrap();
    assert!(state.certificates.is_empty());
    assert_eq!(state.dns_records[0].record_type, DnsRecordType::Cname);
    assert!(!needs_tls(&services));
}

#[test]
fn a_service_can_point_its_record_elsewhere() {
    let config = test_config("10.0.5.104");
    let mut services = ServicesFile::new();
    let mut tv = service("tv.avel.space", "10.0.5.101", true);
    tv.proxy_host = Some("edge.avel.space".to_owned());
    services.insert("tv".to_owned(), tv);
    let mut six = service("six.avel.space", "10.0.5.101", true);
    six.proxy_host = Some("2001:db8::1".to_owned());
    services.insert("six".to_owned(), six);
    let state = build_desired_state(&config, &services, None).unwrap();
    assert_eq!(state.dns_records[0].record_type, DnsRecordType::Aaaa);
    assert_eq!(state.dns_records[0].value, "2001:db8::1");
    assert_eq!(state.dns_records[1].record_type, DnsRecordType::Cname);
    assert_eq!(state.dns_records[1].value, "edge.avel.space");
}

#[test]
fn a_certificate_id_has_to_be_a_number() {
    let config = test_config("10.0.5.104");
    let services = test_services([("a", "a.avel.space", true)]);
    let error = build_desired_state(&config, &services, Some(CertificateId("x1".to_owned())))
        .unwrap_err();
    assert_eq!(error.message(), "invalid config: invalid NPM certificate id x1");
    assert_eq!(certificate_ref(&CertificateId("+12".to_owned())), Ok(CertificateRef { id: 12 }));
    assert!(certificate_ref(&CertificateId("4294967296".to_owned())).is_err());
    assert!(certificate_ref(&CertificateId(String::new())).is_err());
}

#[test]
fn the_plan_shows_all_changes() {
    let config = test_config("10.0.5.104");
    let services = test_services([("tv", "tv.avel.space", true)]);
    let plan = build_plan(&config, &services, &[], &[], &[]).unwrap();
    assert_eq!(plan.dns_changes.len(), 1);
    assert_eq!(plan.proxy_changes.len(), 1);
    assert_eq!(plan.certificate_changes.len(), 1);
    assert_eq!(plan.total(), 3);
    assert!(matches!(
        &plan.proxy_changes[0],
        ProxyChange::Create(host) if host.certificate == Some(CertificateRef { id: 0 })
    ));
    assert_eq!(
        describe_dns_change("avel.space", &plan.dns_changes[0]),
        "create A tv.avel.space -> 10.0.5.104 in avel.space"
    );
    assert_eq!(
        describe_proxy_change(&plan.proxy_changes[0]),
        "create tv.avel.space -> http://10.0.5.100:8000"
    );
}

#[test]
fn the_plan_uses_the_certificate_that_is_there() {
    let config = test_config("10.0.5.104");
    let services = test_services([("tv", "tv.avel.space", true)]);
    let certificates =
        vec![wildcard_certificate("avel.space", None, Some(CertificateId("7".to_owned())))];
    let records = vec![dns_record(Some("1"), "tv.avel.space", DnsRecordType::A, "10.0.5.104")];
    let hosts = vec![proxy_record(Some("2"), "tv.avel.space", Some(7))];
    let plan = build_plan(&config, &services, &certificates, &records, &hosts).unwrap();
    assert_eq!(plan.total(), 0);
    let plan = plan_reconcile(&config, &services, &records, &hosts, None).unwrap();
    assert_eq!(plan.proxy_changes.len(), 1);
    assert!(plan.certificate_changes.is_empty());
}

#[test]
fn a_faulty_configuration_has_no_plan() {
    let config = test_config("");
    let services = ServicesFile::new();
    let error = build_plan(&config, &services, &[], &[], &[]).unwrap_err();
    assert_eq!(error, ReconcileError::InvalidConfig("proxy.host is empty".to_owned()));
}

#[test]
fn changes_are_described() {
    let record = dns_record(None, "a.z", DnsRecordType::Cname, "b.z");
    assert_eq!(
        describe_dns_change(
            "z",
            &DnsChange::Update { id: DnsRecordId("1".to_owned()), record }
        ),
        "update CNAME a.z -> b.z in z"
    );
    assert_eq!(
        describe_dns_change("z", &DnsChange::Delete { id: DnsRecordId("1".to_owned()) }),
        "delete record 1 in z"
    );
    let mut host = proxy_record(None, "a.z", None);
    host.upstream.scheme = UpstreamScheme::Https;
    assert_eq!(
        describe_proxy_change(&ProxyChange::Update { id: ProxyHostId("3".to_owned()), host }),
        "update a.z -> https://10.0.5.100:8000"
    );
    assert_eq!(
        describe_proxy_change(&ProxyChange::Delete { id: ProxyHostId("3".to_owned()) }),
        "delete host 3"
    );
    assert_eq!(describe_certificate_changes(2), "2 certificate change(s)");
    assert_eq!(describe_pending(0), "Everything is already in sync.");
    assert_eq!(describe_pending(12), "12 change(s) pending.");
}

fn fault(config: &Config, services: &ServicesFile) -> String {
    validate(config, services).unwrap_err().message()
}

fn service(domain: &str, host: &str, tls: bool) -> ServiceConfig {
    ServiceConfig {
        domain: domain.to_owned(),
        proxy_host: None,
        upstream: UpstreamConfig {
            host: host.to_owned(),
            port: 8000,
            scheme: UpstreamSchemeConfig::Http,
        },
        tls,
        websocket: true,
    }
}

fn test_config(proxy_host: &str) -> Config {
    Config {
        dns: DnsConfig::Cloudflare {
            zone: "avel.space".to_owned(),
            api_token: "token".to_owned(),
            propagation_seconds: Some(120),
        },
        proxy: ProxyConfig::Npm {
            host: proxy_host.to_owned(),
            url: "http://localhost:81".to_owned(),
            identity: "admin@example.com".to_owned(),
            secret: "secret".to_owned(),
        },
        certificates: CertificateConfig::default(),
    }
}

fn test_services<const N: usize>(items: [(&str, &str, bool); N]) -> ServicesFile {
    let mut services = ServicesFile::new();
    for (name, domain, tls) in items {
        services.insert(name.to_owned(), service(domain, "10.0.5.100", tls));
    }
    services
}

fn dns_record(id: Option<&str>, name: &str, record_type: DnsRecordType, value: &str) -> DnsRecord {
    DnsRecord {
        id: id.map(|id| DnsRecordId(id.to_owned())),
        name: name.to_owned(),
        record_type,
        value: value.to_owned(),
        ttl: None,
    }
}

fn proxy_record(id: Option<&str>, domain: &str, certificate_id: Option<u32>) -> ProxyHost {
    ProxyHost {
        id: id.map(|id| ProxyHostId(id.to_owned())),
        domains: vec![domain.to_owned()],
        upstream: Upstream {
            scheme: UpstreamScheme::Http,
            host: "10.0.5.100".to_owned(),
            port: 8000,
        },
        websocket: true,
        certificate: certificate_id.map(|id| CertificateRef { id }),
        force_https: certificate_id.is_some(),
    }
}
