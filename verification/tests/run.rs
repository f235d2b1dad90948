use avel_pilot::cert_provider::{
    CertProviderError, Certificate, CertificateChallenge, CertificateChange, CertificateId,
};
use avel_pilot::config::{
    CertificateConfig, Config, DnsConfig, ProxyConfig, ServiceConfig, ServicesFile, UpstreamConfig,
    UpstreamSchemeConfig,
};
use avel_pilot::dns_provider::{
    Dns01ProviderConfig, DnsChange, DnsProviderError, DnsRecord, DnsRecordId, DnsRecordType,
};
use avel_pilot::proxy_provider::{ProxyChange, ProxyError, ProxyHost, ProxyHostId};
use avel_pilot::reconciler::desired::wildcard_certificate;
use avel_pilot::reconciler::run::{
    advance, dns01_provider_config, due_action, start, Action, Event,
};
use avel_pilot::reconciler::{build_plan, ReconcileError, ReconcilePlan};

struct World {
    certificates: Vec<Certificate>,
    records: Vec<DnsRecord>,
    hosts: Vec<ProxyHost>,
    orders_arrive: bool,
    next: u32,
    log: Vec<String>,
    made: ReconcilePlan,
}

impl World {
    fn new() -> World {
        World {
            certificates: vec![],
            records: vec![],
            hosts: vec![],
            orders_arrive: true,
            next: 10,
            log: vec![],
            made: ReconcilePlan {
                dns_changes: vec![],
                proxy_changes: vec![],
                certificate_changes: vec![],
            },
        }
    }

    fn perform(&mut self, action: Action) -> Event {
        self.next += 1;
        let id = format!("{}", self.next);
        match action {
            Action::ListCertificates => {
                self.log.push("certificates".to_owned());
                Event::Certificates(Ok(self.certificates.clone()))
            }
            Action::ApplyCertificate(change) => {
                self.log.push("certificate change".to_owned());
                self.made.certificate_changes.push(change.clone());
                if let CertificateChange::Create(mut certificate) = change {
                    assert!(matches!(
                        &certificate.challenge,
                        CertificateChallenge::Dns01(challenge)
                            if challenge.provider == "cloudflare"
                                && challenge.propagation_seconds == Some(120)
                    ));
                    certificate.id = Some(CertificateId(id));
                    if self.orders_arrive {
                        self.certificates.push(certificate);
                    }
                }
                Event::CertificateApplied(Ok(()))
            }
            Action::ListRecords => {
                self.log.push("records".to_owned());
                Event::Records(Ok(self.records.clone()))
            }
            Action::ApplyDns(change) => {
                self.log.push("record change".to_owned());
                self.made.dns_changes.push(change.clone());
                match change {
                    DnsChange::Create(mut record) => {
                        record.id = Some(DnsRecordId(id));
                        self.records.push(record);
                    }
                    DnsChange::Update { id, mut record } => {
                        self.records.retain(|r| r.id.as_ref() != Some(&id));
                        record.id = Some(id);
                        self.records.push(record);
                    }
                    DnsChange::Delete { id } => {
                        self.records.retain(|r| r.id.as_ref() != Some(&id));
                    }
                }
                Event::DnsApplied(Ok(()))
            }
            Action::ListHosts => {
                self.log.push("hosts".to_owned());
                Event::Hosts(Ok(self.hosts.clone()))
            }
            Action::ApplyProxy(change) => {
                self.log.push("host change".to_owned());
                self.made.proxy_changes.push(change.clone());
                match change {
                    ProxyChange::Create(mut host) => {
                        host.id = Some(ProxyHostId(id));
                        self.hosts.push(host);
                    }
                    ProxyChange::Update { id, mut host } => {
                        self.hosts.retain(|h| h.id.as_ref() != Some(&id));
                        host.id = Some(id);
                        self.hosts.push(host);
                    }
                    ProxyChange::Delete { id } => {
                        self.hosts.retain(|h| h.id.as_ref() != Some(&id));
                    }
                }
                Event::ProxyApplied(Ok(()))
            }
            Action::Done => unreachable!(),
        }
    }

    fn run(&mut self, config: &Config, services: &ServicesFile) -> Result<(), ReconcileError> {
        let mut stage = start(config, services, offered())?;
        loop {
            let action = due_action(&stage);
            if matches!(action, Action::Done) {
                return Ok(());
            }
            let event = self.perform(action);
            stage = advance(config, services, stage, event)?;
        }
    }
}

#[test]
fn a_run_settles_the_certificate_and_then_the_records_and_the_hosts() {
    let mut world = World::new();
    world.records.push(DnsRecord {
        id: Some(DnsRecordId("1".to_owned())),
        name: "old.avel.space".to_owned(),
        record_type: DnsRecordType::A,
        value: "10.0.5.104".to_owned(),
        ttl: None,
    });
    let services = services(true);
    world.run(&config(), &services).unwrap();
    assert_eq!(
        world.log,
        vec![
            "certificates",
            "certificate change",
            "certificates",
            "records",
            "record change",
            "record change",
            "hosts",
            "host change",
        ]
    );
    assert_eq!(world.records.len(), 1);
    assert_eq!(world.records[0].name, "tv.avel.space");
    assert_eq!(world.hosts[0].certificate.map(|c| c.id), Some(12));

    world.log.clear();
    world.run(&config(), &services).unwrap();
    assert_eq!(world.log, vec!["certificates", "records", "hosts"]);
}

#[test]
fn the_plan_shows_what_a_run_applies() {
    for (tls, ordered_before) in [(false, false), (true, true), (true, false)] {
        let mut world = World::new();
        if ordered_before {
            world.certificates.push(wildcard_certificate(
                "avel.space",
                None,
                Some(CertificateId("7".to_owned())),
            ));
        }
        world.records.push(DnsRecord {
            id: Some(DnsRecordId("1".to_owned())),
            name: "old.avel.space".to_owned(),
            record_type: DnsRecordType::A,
            value: "10.0.5.104".to_owned(),
            ttl: None,
        });
        let services = services(tls);
        let plan = build_plan(
            &config(),
            &services,
            &world.certificates,
            &world.records,
            &world.hosts,
        )
        .unwrap();
        world.run(&config(), &services).unwrap();
        assert_eq!(plan.dns_changes.len(), 2);
        assert_eq!(plan.dns_changes, world.made.dns_changes);
        if ordered_before || !tls {
            assert_eq!(plan.proxy_changes, world.made.proxy_changes);
        } else {
            assert_eq!(plan.proxy_changes.len(), 1);
            assert_eq!(world.made.proxy_changes.len(), 1);
            match (&plan.proxy_changes[0], &world.made.proxy_changes[0]) {
                (ProxyChange::Create(shown), ProxyChange::Create(made)) => {
                    let mut shown = shown.clone();
                    assert_ne!(shown.certificate, made.certificate);
                    shown.certificate = made.certificate;
                    assert_eq!(shown, *made);
                }
                _ => panic!("the host is new"),
            }
        }
        assert_eq!(plan.certificate_changes.len(), world.made.certificate_changes.len());
        for (shown, made) in plan.certificate_changes.iter().zip(&world.made.certificate_changes) {
            match (shown, made) {
                (CertificateChange::Create(shown), CertificateChange::Create(made)) => {
                    assert_eq!(shown.domains, made.domains)
                }
                _ => panic!("a certificate is only created"),
            }
        }
    }
}

#[test]
fn without_tls_no_certificate_is_asked_for() {
    let mut world = World::new();
    world.run(&config(), &services(false)).unwrap();
    assert_eq!(world.log, vec!["records", "record change", "hosts", "host change"]);
    assert!(world.certificates.is_empty());
}

#[test]
fn a_certificate_that_does_not_arrive_ends_the_run() {
    let mut world = World::new();
    world.orders_arrive = false;
    let error = world.run(&config(), &services(true)).unwrap_err();
    assert_eq!(
        error.message(),
        "invalid config: created wildcard certificate was not found for *.avel.space"
    );
    assert_eq!(world.log, vec!["certificates", "certificate change", "certificates"]);
    assert!(world.records.is_empty());
}

#[test]
fn a_matching_certificate_without_an_id_is_not_ordered_again() {
    let mut world = World::new();
    world.certificates.push(wildcard_certificate("avel.space", None, None));
    assert!(world.run(&config(), &services(true)).is_err());
    assert_eq!(world.log, vec!["certificates", "certificates"]);
}

#[test]
fn a_faulty_configuration_is_refused_at_the_start() {
    let mut faulty = ServicesFile::new();
    faulty.insert("a".to_owned(), service("tv.example.com", true));
    assert!(matches!(
        start(&config(), &faulty, offered()),
        Err(ReconcileError::InvalidConfig(_))
    ));
    assert!(matches!(
        start(&config(), &services(true), None),
        Err(ReconcileError::InvalidConfig(reason)) if reason == "DNS provider does not support DNS-01"
    ));
    assert!(start(&config(), &services(false), None).is_ok());
}

#[test]
fn the_error_of_a_provider_ends_the_run() {
    let config = config();
    let services = services(true);
    let stage = start(&config, &services, offered()).ok().unwrap();
    let failed = Event::Certificates(Err(CertProviderError::OperationFailed("no".to_owned())));
    let error = advance(&config, &services, stage, failed).err().unwrap();
    assert_eq!(
        error.message(),
        "certificate provider error: certificate operation failed: no"
    );

    let stage = start(&config, &services, offered()).ok().unwrap();
    let listed = Event::Certificates(Ok(vec![]));
    let stage = advance(&config, &services, stage, listed).ok().unwrap();
    let failed = Event::CertificateApplied(Err(CertProviderError::UnknownError));
    let error = advance(&config, &services, stage, failed).err().unwrap();
    assert_eq!(error, ReconcileError::Certificate(CertProviderError::UnknownError));

    let services = self::services(false);
    let stage = start(&config, &services, None).ok().unwrap();
    let failed = Event::Records(Err(DnsProviderError::ZoneNotFound("avel.space".to_owned())));
    let error = advance(&config, &services, stage, failed).err().unwrap();
    assert_eq!(error.message(), "dns provider error: DNS zone not found: avel.space");

    let stage = start(&config, &services, None).ok().unwrap();
    let stage = advance(&config, &services, stage, Event::Records(Ok(vec![]))).ok().unwrap();
    let failed = Event::DnsApplied(Err(DnsProviderError::UnknownErorr));
    let error = advance(&config, &services, stage, failed).err().unwrap();
    assert_eq!(error.message(), "dns provider error: unknown error");

    let stage = start(&config, &services, None).ok().unwrap();
    let stage = advance(&config, &services, stage, Event::Records(Ok(vec![]))).ok().unwrap();
    let stage = advance(&config, &services, stage, Event::DnsApplied(Ok(()))).ok().unwrap();
    let failed = Event::Hosts(Err(ProxyError::UnknownError));
    let error = advance(&config, &services, stage, failed).err().unwrap();
    assert_eq!(error.message(), "proxy provider error: unknown error");

    let stage = start(&config, &services, None).ok().unwrap();
    let stage = advance(&config, &services, stage, Event::Records(Ok(vec![]))).ok().unwrap();
    let stage = advance(&config, &services, stage, Event::DnsApplied(Ok(()))).ok().unwrap();
    let stage = advance(&config, &services, stage, Event::Hosts(Ok(vec![]))).ok().unwrap();
    let failed = Event::ProxyApplied(Err(ProxyError::Api { status: 500, message: "x".to_owned() }));
    let error = advance(&config, &services, stage, failed).err().unwrap();
    assert_eq!(error.message(), "proxy provider error: NPM API error 500: x");
}

#[test]
fn the_configured_waiting_time_is_passed_on() {
    let offer = dns01_provider_config(&config(), &services(true), offered()).unwrap().unwrap();
    assert_eq!(offer.provider, "cloudflare");
    assert_eq!(offer.credentials, "key");
    assert_eq!(offer.propagation_seconds, Some(120));
    assert!(dns01_provider_config(&config(), &services(false), offered()).unwrap().is_none());
    assert!(dns01_provider_config(&config(), &services(true), None).is_err());
}

fn offered() -> Option<Dns01ProviderConfig> {
    Some(Dns01ProviderConfig {
        provider: "cloudflare".to_owned(),
        credentials: "key".to_owned(),
        propagation_seconds: None,
    })
}

fn service(domain: &str, tls: bool) -> ServiceConfig {
    ServiceConfig {
        domain: domain.to_owned(),
        proxy_host: None,
        upstream: UpstreamConfig {
            host: "10.0.5.100".to_owned(),
            port: 8000,
            scheme: UpstreamSchemeConfig::Http,
        },
        tls,
        websocket: false,
    }
}

fn services(tls: bool) -> ServicesFile {
    let mut services = ServicesFile::new();
    services.insert("tv".to_owned(), service("tv.avel.space", tls));
    services
}

fn config() -> Config {
    Config {
        dns: DnsConfig::Cloudflare {
            zone: "avel.space".to_owned(),
            api_token: "key".to_owned(),
            propagation_seconds: Some(120),
        },
        proxy: ProxyConfig::Npm {
            host: "10.0.5.104".to_owned(),
            url: "http://localhost:81".to_owned(),
            identity: "admin@example.com".to_owned(),
            secret: "secret".to_owned(),
        },
        certificates: CertificateConfig::default(),
    }
}
