use avel_pilot::config::{
    CertificateConfig, Config, DnsConfig, ProxyConfig, ServicesFile, UpstreamSchemeConfig,
};
use avel_pilot::dns_provider::DnsSummary;
use avel_pilot::entry::{entered_service, shown_default, ServiceField, ServiceLines};
use avel_pilot::logging;
use avel_pilot::paths::{expand_home, missing_file, HomePath};
use avel_pilot::prompt;
use avel_pilot::proxy_provider::npm::NpmSummary;
use avel_pilot::reconciler::domain_in_zone;
use avel_pilot::services::{
    add_service, advance_edit, default_domain, default_service, initial_config, modify_service, not_valid,
    parse_propagation, port_default, remove_service, service_name, service_rows, services_example, start_edit,
    upstream_scheme_name, yes_no, EditEvent, EditStage, InitAnswers, ServiceError,
};
use avel_pilot::table::{
    labelled, paint, status_rows, table_border, table_lines, table_row, table_widths, Color,
};
use avel_pilot::version::{
    up_to_date, update_notice, update_step, updating, version_is_newer, version_parts, Release,
    ReleaseAsset, UpdateStep,
};

#[test]
fn versions_are_read_as_three_numbers() {
    assert_eq!(version_parts("1.2.3"), [1, 2, 3]);
    assert_eq!(version_parts("1.2"), [1, 2, 0]);
    assert_eq!(version_parts("1-rc.2.3"), [1, 2, 0]);
    assert_eq!(version_parts("v1.2.3"), [2, 3, 0]);
    assert_eq!(version_parts("1.2.3.4"), [1, 2, 3]);
    assert_eq!(version_parts(""), [0, 0, 0]);
    assert_eq!(version_parts("1.4294967296.5"), [1, 5, 0]);
}

#[test]
fn later_versions_are_newer() {
    assert!(version_is_newer("1.2.4", "1.2.3"));
    assert!(version_is_newer("1.3.0", "1.2.9"));
    assert!(version_is_newer("2.0.0", "1.9.9"));
    assert!(version_is_newer("0.10.0", "0.9.0"));
    assert!(!version_is_newer("1.2.3", "1.2.3"));
    assert!(!version_is_newer("1.2.3", "1.2.4"));
    assert!(!version_is_newer("1.2.3-beta", "1.2.3"));
}

#[test]
fn an_update_fetches_the_program_of_a_later_release() {
    let mut release = Release {
        tag_name: "v0.3.0".to_owned(),
        html_url: "page".to_owned(),
        assets: vec![
            ReleaseAsset { name: "avel-pilot-linux-amd64.deb".to_owned(), browser_download_url: "d".to_owned() },
            ReleaseAsset { name: "avel-pilot-linux-amd64".to_owned(), browser_download_url: "u".to_owned() },
            ReleaseAsset { name: "avel-pilot-linux-amd64".to_owned(), browser_download_url: "w".to_owned() },
        ],
    };
    assert_eq!(
        update_step("0.2.9", &release),
        UpdateStep::Fetch { latest: "0.3.0".to_owned(), url: "u".to_owned() }
    );
    assert_eq!(update_step("0.3.0", &release), UpdateStep::UpToDate);
    assert_eq!(update_step("0.4.0", &release), UpdateStep::UpToDate);
    release.assets.truncate(1);
    assert_eq!(update_step("0.2.9", &release), UpdateStep::AssetMissing);
    assert_eq!(
        update_notice("0.2.9", "v0.3.0"),
        Some("Avel Pilot 0.3.0 is available. Run `avel-pilot update`.".to_owned())
    );
    assert_eq!(update_notice("0.3.0", "v0.3.0"), None);
    assert_eq!(up_to_date("0.3.0"), "Avel Pilot is already up to date (0.3.0).");
    assert_eq!(updating("1", "2", "page"), "Updating 1 -> 2 from page");
}

#[test]
fn answers_fall_back_to_the_default() {
    assert_eq!(prompt::question("Domain", Some("x")), "Domain [x]: ");
    assert_eq!(prompt::question("Domain", None), "Domain: ");
    assert_eq!(prompt::answer(" a b \n", Some("x")), "a b");
    assert_eq!(prompt::answer("\n", Some(" x ")), " x ");
    assert_eq!(prompt::answer("  ", None), "");
    assert!(prompt::is_given("x"));
    assert!(!prompt::is_given(" "));
    assert_eq!(prompt::required("Domain"), "Domain is required");
    assert_eq!(prompt::optional(" x "), Some("x".to_owned()));
    assert_eq!(prompt::optional(" \t"), None);
}

#[test]
fn yes_and_no_are_read_in_any_letter_case() {
    for yes in ["y", "YES", "True", "1"] {
        assert_eq!(prompt::parse_bool(yes), Some(true));
    }
    for no in ["n", "No", "FALSE", "0"] {
        assert_eq!(prompt::parse_bool(no), Some(false));
    }
    for other in ["", "yep", "2", " y"] {
        assert_eq!(prompt::parse_bool(other), None);
    }
    assert_eq!(prompt::must_be_bool("TLS"), "TLS must be yes or no");
}

#[test]
fn ports_are_numbers_from_one() {
    assert_eq!(prompt::parse_port("1"), Some(1));
    assert_eq!(prompt::parse_port("65535"), Some(65535));
    assert_eq!(prompt::parse_port("+80"), Some(80));
    for other in ["0", "65536", "", "http", "-1"] {
        assert_eq!(prompt::parse_port(other), None);
    }
    assert_eq!(
        prompt::must_be_port("Upstream port"),
        "Upstream port must be a port between 1 and 65535"
    );
}

#[test]
fn schemes_are_http_and_https() {
    assert_eq!(prompt::parse_scheme("HTTP"), Some(UpstreamSchemeConfig::Http));
    assert_eq!(prompt::parse_scheme("https"), Some(UpstreamSchemeConfig::Https));
    assert_eq!(prompt::parse_scheme("ftp"), None);
    assert_eq!(prompt::must_be_scheme("Scheme"), "Scheme must be http or https");
}

#[test]
fn only_yes_confirms() {
    assert_eq!(prompt::confirmation("Sure?", true), "Sure? [Y/n]: ");
    assert_eq!(prompt::confirmation("Sure?", false), "Sure? [y/N]: ");
    assert!(prompt::confirmed(" Yes\n", false));
    assert!(prompt::confirmed("y", false));
    assert!(prompt::confirmed("\n", true));
    assert!(!prompt::confirmed("\n", false));
    assert!(!prompt::confirmed("1", true));
    assert!(!prompt::confirmed("no", true));
}

#[test]
fn a_new_service_is_offered_below_the_zone() {
    assert_eq!(default_domain("tv", "avel.space"), "tv.avel.space");
    assert_eq!(default_domain("tv.example.com", "avel.space"), "tv.example.com");
    assert!(domain_in_zone(&default_domain("tv", "avel.space"), "avel.space"));
    let service = default_service("tv", &config());
    assert_eq!(service.domain, "tv.avel.space");
    assert_eq!(service.proxy_host, None);
    assert_eq!(service.upstream.host, "10.0.5.104");
    assert_eq!(service.upstream.port, 80);
    assert_eq!(service.upstream.scheme, UpstreamSchemeConfig::Http);
    assert!(service.tls);
    assert!(!service.websocket);
    assert_eq!(port_default(&UpstreamSchemeConfig::Http, 0), 80);
    assert_eq!(port_default(&UpstreamSchemeConfig::Https, 0), 443);
    assert_eq!(port_default(&UpstreamSchemeConfig::Https, 8080), 8080);
}

#[test]
fn shown_defaults_are_read_back() {
    for scheme in [UpstreamSchemeConfig::Http, UpstreamSchemeConfig::Https] {
        let shown = upstream_scheme_name(&scheme);
        assert_eq!(prompt::parse_scheme(&prompt::answer("\n", Some(shown))), Some(scheme));
    }
    for port in [1_u16, 80, 65535] {
        assert_eq!(prompt::parse_port(&prompt::answer("", Some(&format!("{port}")))), Some(port));
    }
    for value in [true, false] {
        assert_eq!(prompt::parse_bool(&prompt::answer(" ", Some(yes_no(value)))), Some(value));
    }
}

#[test]
fn a_service_is_entered_line_by_line() {
    let defaults = default_service("tv", &config());
    let mut lines = ServiceLines::new();
    for (field, line) in [
        (ServiceField::Domain, " video.avel.space\n"),
        (ServiceField::ProxyHost, "edge.avel.space\n"),
        (ServiceField::Scheme, "HTTPS\n"),
        (ServiceField::Host, "10.0.5.101\n"),
        (ServiceField::Port, "8096\n"),
        (ServiceField::Tls, "no\n"),
        (ServiceField::Websocket, "Y\n"),
    ] {
        lines.put(field, line.to_owned());
    }
    let service = entered_service(&defaults, &lines).unwrap();
    assert_eq!(service.domain, "video.avel.space");
    assert_eq!(service.proxy_host, Some("edge.avel.space".to_owned()));
    assert_eq!(service.upstream.scheme, UpstreamSchemeConfig::Https);
    assert_eq!(service.upstream.host, "10.0.5.101");
    assert_eq!(service.upstream.port, 8096);
    assert!(!service.tls);
    assert!(service.websocket);
    let again = entered_service(&service, &ServiceLines::new()).unwrap();
    assert_eq!(again, service);
}

#[test]
fn blank_lines_keep_the_service() {
    let mut lines = ServiceLines::new();
    for field in ServiceField::asked() {
        lines.put(field, " \n".to_owned());
    }
    let mut tv = default_service("tv", &config());
    assert_eq!(entered_service(&tv, &lines), Ok(tv.clone()));
    tv.proxy_host = Some("edge.avel.space".to_owned());
    tv.upstream.scheme = UpstreamSchemeConfig::Https;
    tv.upstream.port = 8096;
    assert_eq!(entered_service(&tv, &lines), Ok(tv.clone()));
    tv.proxy_host = Some(" ".to_owned());
    assert_eq!(entered_service(&tv, &lines).unwrap().proxy_host, None);
    tv.upstream.port = 0;
    assert_eq!(entered_service(&tv, &lines).unwrap().upstream.port, 443);
}

#[test]
fn the_first_line_that_cannot_be_read_is_named() {
    let defaults = default_service("tv", &config());
    let mut lines = ServiceLines::new();
    for field in [
        ServiceField::Websocket,
        ServiceField::Tls,
        ServiceField::Port,
        ServiceField::Scheme,
    ] {
        lines.put(field, "?".to_owned());
        assert_eq!(entered_service(&defaults, &lines), Err(field));
    }
    let mut empty = defaults.clone();
    empty.upstream.host = String::new();
    assert_eq!(entered_service(&empty, &ServiceLines::new()), Err(ServiceField::Host));
    empty.domain = String::new();
    assert_eq!(entered_service(&empty, &lines), Err(ServiceField::Domain));
    let said: Vec<String> =
        ServiceField::asked().iter().map(|field| field.complaint()).collect();
    assert_eq!(
        said,
        vec![
            "Domain is required",
            "",
            "Upstream scheme must be http or https",
            "Upstream host is required",
            "Upstream port must be a port between 1 and 65535",
            "TLS must be yes or no",
            "Websocket must be yes or no",
        ]
    );
}

#[test]
fn questions_show_the_defaults() {
    let mut defaults = default_service("tv", &config());
    defaults.upstream.port = 0;
    let mut lines = ServiceLines::new();
    let shown: Vec<Option<String>> = ServiceField::asked()
        .iter()
        .map(|field| shown_default(*field, &defaults, &lines))
        .collect();
    let want = [
        Some("tv.avel.space"),
        None,
        Some("http"),
        Some("10.0.5.104"),
        Some("80"),
        Some("yes"),
        Some("no"),
    ];
    assert_eq!(shown, want.map(|text| text.map(|text| text.to_owned())));
    lines.put(ServiceField::Scheme, "https".to_owned());
    assert_eq!(
        shown_default(ServiceField::Port, &defaults, &lines),
        Some("443".to_owned())
    );
    assert_eq!(ServiceField::ProxyHost.label(), "DNS proxy host override");
}

#[test]
fn service_names_are_trimmed_and_not_empty() {
    assert_eq!(service_name(" tv "), Ok("tv".to_owned()));
    assert_eq!(service_name(" "), Err(ServiceError::EmptyName));
    assert_eq!(ServiceError::EmptyName.message(), "service name cannot be empty");
    assert_eq!(ServiceError::Aborted.message(), "service edit aborted");
}

#[test]
fn services_are_added_changed_and_taken_away() {
    let config = config();
    let empty = ServicesFile::new();
    let tv = default_service("tv", &config);
    let one = add_service(&config, &empty, "tv", &tv).unwrap();
    assert_eq!(one.len(), 1);
    assert_eq!(empty.len(), 0);
    assert_eq!(
        add_service(&config, &one, "tv", &tv).unwrap_err().message(),
        "service already exists: tv"
    );
    let mut other = tv.clone();
    other.upstream.port = 8096;
    let changed = modify_service(&config, &one, "tv", &other).unwrap();
    assert_eq!(changed.get(&"tv".to_owned()).unwrap().upstream.port, 8096);
    assert_eq!(
        modify_service(&config, &one, "x", &other).unwrap_err().message(),
        "service not found: x"
    );
    let none = remove_service(&config, &one, "tv").unwrap();
    assert_eq!(none, empty);
    assert_eq!(
        remove_service(&config, &none, "tv").unwrap_err(),
        ServiceError::NotFound("tv".to_owned())
    );
}

#[test]
fn services_with_a_fault_are_not_saved() {
    let config = config();
    let one = add_service(&config, &ServicesFile::new(), "tv", &default_service("tv", &config))
        .unwrap();
    let mut bad = default_service("x", &config);
    bad.domain = "tv.avel.space".to_owned();
    let error = add_service(&config, &one, "x", &bad).unwrap_err();
    assert_eq!(
        not_valid(&error),
        "Service is not valid: invalid config: duplicate service domain tv.avel.space"
    );
    bad.domain = "x.example.com".to_owned();
    assert!(modify_service(&config, &one, "tv", &bad).is_err());
    assert_eq!(one.len(), 1);
}

#[test]
fn a_new_service_is_edited_until_it_is_verified() {
    let config = config();
    let one = add_service(&config, &ServicesFile::new(), "tv", &default_service("tv", &config))
        .unwrap();
    let stage = start_edit(&config, &one, "home");
    assert!(matches!(
        &stage,
        EditStage::Enter { defaults } if *defaults == default_service("home", &config)
    ));
    let mut bad = default_service("home", &config);
    bad.domain = "tv.avel.space".to_owned();
    let stage =
        advance_edit(&config, &one, "home", stage, EditEvent::Entered(bad.clone())).ok().unwrap();
    assert!(matches!(
        &stage,
        EditStage::Refused { entered, reason }
            if *entered == bad
                && reason.message() == "invalid config: duplicate service domain tv.avel.space"
    ));
    let stage = advance_edit(&config, &one, "home", stage, EditEvent::Retry(true)).ok().unwrap();
    assert!(matches!(&stage, EditStage::Enter { defaults } if *defaults == bad));
    let mut good = bad.clone();
    good.domain = "home.avel.space".to_owned();
    let stage =
        advance_edit(&config, &one, "home", stage, EditEvent::Entered(good.clone())).ok().unwrap();
    let want = add_service(&config, &one, "home", &good).unwrap();
    assert!(matches!(&stage, EditStage::Verified { services } if *services == want));
}

#[test]
fn an_edit_is_given_up_after_a_refusal() {
    let config = config();
    let empty = ServicesFile::new();
    let stage = start_edit(&config, &empty, "tv");
    let mut bad = default_service("tv", &config);
    bad.upstream.host = " ".to_owned();
    let stage = advance_edit(&config, &empty, "tv", stage, EditEvent::Entered(bad)).ok().unwrap();
    let error =
        advance_edit(&config, &empty, "tv", stage, EditEvent::Retry(false)).err().unwrap();
    assert_eq!(error, ServiceError::Aborted);
}

#[test]
fn an_edit_starts_from_the_current_values() {
    let config = config();
    let mut tv = default_service("tv", &config);
    tv.upstream.port = 8096;
    let one = add_service(&config, &ServicesFile::new(), "tv", &tv).unwrap();
    let stage = start_edit(&config, &one, "tv");
    assert!(matches!(&stage, EditStage::Enter { defaults } if *defaults == tv));
    let stage =
        advance_edit(&config, &one, "tv", stage, EditEvent::Entered(tv)).ok().unwrap();
    assert!(matches!(&stage, EditStage::Verified { services } if *services == one));
}

#[test]
fn services_are_listed_with_their_dns_target() {
    let config = config();
    let mut tv = default_service("tv", &config);
    tv.proxy_host = Some("edge.avel.space".to_owned());
    tv.upstream.scheme = UpstreamSchemeConfig::Https;
    let services = add_service(&config, &ServicesFile::new(), "tv", &tv).unwrap();
    let services =
        add_service(&config, &services, "home", &default_service("home", &config)).unwrap();
    assert_eq!(
        service_rows(&config, &services),
        vec![
            vec!["home", "home.avel.space", "10.0.5.104", "http://10.0.5.104:80", "yes", "no"],
            vec!["tv", "tv.avel.space", "edge.avel.space", "https://10.0.5.104:80", "yes", "no"],
        ]
    );
}

#[test]
fn a_configuration_is_made_of_the_answers() {
    assert_eq!(initial_config(answers(120)), config());
    assert_eq!(parse_propagation("120"), Ok(120));
    assert_eq!(
        parse_propagation("soon"),
        Err("DNS propagation seconds must be a number".to_owned())
    );
    assert!(parse_propagation("4294967296").is_err());
}

#[test]
fn a_new_services_file_is_empty_and_shows_an_example() {
    let example = services_example("avel.space");
    assert_eq!(
        example,
        "\
# Declare one entry for each service Avel Pilot should expose.
# Uncomment and edit the example below.
#
# services:
#   jellyfin:
#     domain: tv.avel.space
#     # Optional: defaults to proxy.host from config.yml.
#     # proxy_host: edge.example.com
#     upstream:
#       scheme: http
#       host: 10.0.5.101
#       port: 8096
#     tls: true
#     websocket: true
services: {}
"
    );
}

#[test]
fn paths_lead_to_the_home_directory() {
    assert_eq!(expand_home("~"), HomePath::Home);
    assert_eq!(expand_home("~/a/b"), HomePath::Below("a/b".to_owned()));
    assert_eq!(expand_home("~/"), HomePath::Below(String::new()));
    assert_eq!(expand_home("~user"), HomePath::Plain("~user".to_owned()));
    assert_eq!(expand_home("./c"), HomePath::Plain("./c".to_owned()));
    assert_eq!(expand_home(""), HomePath::Plain(String::new()));
    assert_eq!(
        missing_file("config", "/x"),
        "config file not found at /x. Run `avel-pilot init` first."
    );
}

#[test]
fn tables_are_as_wide_as_their_cells() {
    let rows = vec![
        vec!["a".to_owned(), "long cell".to_owned()],
        vec!["äb".to_owned()],
        vec!["c".to_owned(), "d".to_owned(), "dropped".to_owned()],
    ];
    assert_eq!(table_widths(&["X", "Name"], &rows), vec![3, 9]);
    let lines = table_lines(&["X", "Name"], &rows);
    assert_eq!(
        lines,
        vec![
            "+-----+-----------+",
            "| X   | Name      |",
            "+-----+-----------+",
            "| a   | long cell |",
            "| äb  |           |",
            "| c   | d         |",
            "+-----+-----------+",
        ]
    );
    for line in &lines {
        assert_eq!(line.chars().count(), lines[0].chars().count());
    }
    assert_eq!(table_border(&[]), "++");
    assert_eq!(table_row(&["wide".to_owned()], &[2]), "| wide |");
}

#[test]
fn the_status_is_shown_in_rows() {
    let rows = status_rows(
        &DnsSummary { managed: 1, unmanaged: 20 },
        &NpmSummary { proxy_managed: 3, proxy_unmanaged: 4, ssl_managed: 5, ssl_unmanaged: 6 },
    );
    assert_eq!(
        rows,
        vec![
            vec!["Cloudflare", "DNS records", "1", "20"],
            vec!["NPM", "Proxy hosts", "3", "4"],
            vec!["NPM", "SSL certificates", "5", "6"],
        ]
    );
}

#[test]
fn texts_are_painted() {
    assert_eq!(paint("x", Color::Bold), "\x1b[1mx\x1b[0m");
    assert_eq!(paint("x", Color::Cyan), "\x1b[36;1mx\x1b[0m");
    assert_eq!(paint("x", Color::Dim), "\x1b[2mx\x1b[0m");
    assert_eq!(paint("x", Color::Green), "\x1b[32;1mx\x1b[0m");
    assert_eq!(paint("x", Color::Red), "\x1b[31;1mx\x1b[0m");
    assert_eq!(paint("x", Color::Yellow), "\x1b[33;1mx\x1b[0m");
    assert_eq!(
        labelled("Services", 3),
        format!("  {:<28} {}", "Services", "\x1b[1m3\x1b[0m")
    );
}

#[test]
fn log_lines_say_when_and_how_grave() {
    assert_eq!(logging::timestamp(12, 7), "[12.007]");
    assert_eq!(logging::timestamp(12, 70), "[12.070]");
    assert_eq!(logging::timestamp(12, 700), "[12.700]");
    assert_eq!(logging::line("[1.000]", logging::Level::Info, "hi"), "[1.000] INFO  hi");
    assert_eq!(logging::line("[1.000]", logging::Level::Warn, "hi"), "[1.000] WARN  hi");
    assert_eq!(logging::line("[1.000]", logging::Level::Error, "hi"), "[1.000] ERROR hi");
    assert_eq!(logging::started("load"), "START load");
    assert_eq!(logging::succeeded("load", 12), "OK    load elapsed_ms=12");
    assert_eq!(logging::failed("load", 12, "no"), "FAIL  load elapsed_ms=12 error=no");
    assert_eq!(
        logging::refused_call("GET", "/p", 401, "{}"),
        "NPM non-2xx response method=GET path=/p status=401 body={}"
    );
}

fn answers(seconds: u32) -> InitAnswers {
    InitAnswers {
        zone: "avel.space".to_owned(),
        api_token: "token".to_owned(),
        propagation_seconds: seconds,
        url: "http://localhost:81".to_owned(),
        proxy_host: "10.0.5.104".to_owned(),
        identity: "me".to_owned(),
        secret: "word".to_owned(),
    }
}

fn config() -> Config {
    Config {
        dns: DnsConfig::Cloudflare {
            zone: "avel.space".to_owned(),
            api_token: "token".to_owned(),
            propagation_seconds: Some(120),
        },
        proxy: ProxyConfig::Npm {
            host: "10.0.5.104".to_owned(),
            url: "http://localhost:81".to_owned(),
            identity: "me".to_owned(),
            secret: "word".to_owned(),
        },
        certificates: CertificateConfig::default(),
    }
}
