//! Entering the values of a service line by line.

use crate::config::{
    ServiceConfig, ServiceConfigView, UpstreamConfig, UpstreamConfigView, UpstreamSchemeConfig,
};
use crate::{prompt, services, text, text_laws};
use vstd::prelude::*;

verus! {

/// A value that is asked for.
#[derive(Debug, Clone, Copy, PartialEq, Eq, Structural)]
pub enum ServiceField {
    Domain,
    ProxyHost,
    Scheme,
    Host,
    Port,
    Tls,
    Websocket,
}

impl ServiceField {
    /// What the value is called.
    pub open spec fn name(self) -> Seq<char> {
        match self {
            ServiceField::Domain => "Domain"@,
            ServiceField::ProxyHost => "DNS proxy host override"@,
            ServiceField::Scheme => "Upstream scheme"@,
            ServiceField::Host => "Upstream host"@,
            ServiceField::Port => "Upstream port"@,
            ServiceField::Tls => "TLS"@,
            ServiceField::Websocket => "Websocket"@,
        }
    }

    /// What the value is called.
    pub fn label(&self) -> (r: &'static str)
        ensures
            r@ == self.name(),
    {
        match self {
            ServiceField::Domain => "Domain",
            ServiceField::ProxyHost => "DNS proxy host override",
            ServiceField::Scheme => "Upstream scheme",
            ServiceField::Host => "Upstream host",
            ServiceField::Port => "Upstream port",
            ServiceField::Tls => "TLS",
            ServiceField::Websocket => "Websocket",
        }
    }

    /// The place of the value among those that are asked for.
    pub open spec fn place(self) -> int {
        match self {
            ServiceField::Domain => 0,
            ServiceField::ProxyHost => 1,
            ServiceField::Scheme => 2,
            ServiceField::Host => 3,
            ServiceField::Port => 4,
            ServiceField::Tls => 5,
            ServiceField::Websocket => 6,
        }
    }

    /// The values in the order in which they are asked for.
    pub fn asked() -> (r: [ServiceField; 7])
        ensures
            forall|i: int| 0 <= i < 7 ==> (#[trigger] r@[i]).place() == i,
    {
        [
            ServiceField::Domain,
            ServiceField::ProxyHost,
            ServiceField::Scheme,
            ServiceField::Host,
            ServiceField::Port,
            ServiceField::Tls,
            ServiceField::Websocket,
        ]
    }

    /// What is said of a line that gives no such value. The override may be left
    /// out, so nothing is ever said of it.
    pub open spec fn complaint_of(self) -> Seq<char> {
        match self {
            ServiceField::Domain => self.name() + " is required"@,
            ServiceField::ProxyHost => Seq::empty(),
            ServiceField::Scheme => self.name() + " must be http or https"@,
            ServiceField::Host => self.name() + " is required"@,
            ServiceField::Port => self.name() + " must be a port between 1 and 65535"@,
            ServiceField::Tls => self.name() + " must be yes or no"@,
            ServiceField::Websocket => self.name() + " must be yes or no"@,
        }
    }

    /// What is said of a line that gives no such value.
    pub fn complaint(&self) -> (r: String)
        ensures
            r@ == self.complaint_of(),
    {
        match self {
            ServiceField::Domain => prompt::required(self.label()),
            ServiceField::ProxyHost => String::new(),
            ServiceField::Scheme => prompt::must_be_scheme(self.label()),
            ServiceField::Host => prompt::required(self.label()),
            ServiceField::Port => prompt::must_be_port(self.label()),
            ServiceField::Tls => prompt::must_be_bool(self.label()),
            ServiceField::Websocket => prompt::must_be_bool(self.label()),
        }
    }
}

/// The lines that were typed for a service.
pub struct ServiceLines {
    pub domain: String,
    pub proxy_host: String,
    pub scheme: String,
    pub host: String,
    pub port: String,
    pub tls: String,
    pub websocket: String,
}

/// What a [`ServiceLines`] holds.
pub struct ServiceLinesView {
    pub domain: Seq<char>,
    pub proxy_host: Seq<char>,
    pub scheme: Seq<char>,
    pub host: Seq<char>,
    pub port: Seq<char>,
    pub tls: Seq<char>,
    pub websocket: Seq<char>,
}

impl View for ServiceLines {
    type V = ServiceLinesView;

    open spec fn view(&self) -> ServiceLinesView {
        ServiceLinesView {
            domain: self.domain@,
            proxy_host: self.proxy_host@,
            scheme: self.scheme@,
            host: self.host@,
            port: self.port@,
            tls: self.tls@,
            websocket: self.websocket@,
        }
    }
}

impl ServiceLinesView {
    /// The lines with one of them typed anew.
    pub open spec fn with(self, field: ServiceField, line: Seq<char>) -> ServiceLinesView {
        match field {
            ServiceField::Domain => ServiceLinesView { domain: line, ..self },
            ServiceField::ProxyHost => ServiceLinesView { proxy_host: line, ..self },
            ServiceField::Scheme => ServiceLinesView { scheme: line, ..self },
            ServiceField::Host => ServiceLinesView { host: line, ..self },
            ServiceField::Port => ServiceLinesView { port: line, ..self },
            ServiceField::Tls => ServiceLinesView { tls: line, ..self },
            ServiceField::Websocket => ServiceLinesView { websocket: line, ..self },
        }
    }

    /// Whether nothing but white space was typed.
    pub open spec fn all_blank(self) -> bool {
        &&& text::blank(self.domain)
        &&& text::blank(self.proxy_host)
        &&& text::blank(self.scheme)
        &&& text::blank(self.host)
        &&& text::blank(self.port)
        &&& text::blank(self.tls)
        &&& text::blank(self.websocket)
    }
}

impl ServiceLines {
    /// Lines of which none was typed yet.
    pub fn new() -> (r: ServiceLines)
        ensures
            r@ == (ServiceLinesView {
                domain: Seq::empty(),
                proxy_host: Seq::empty(),
                scheme: Seq::empty(),
                host: Seq::empty(),
                port: Seq::empty(),
                tls: Seq::empty(),
                websocket: Seq::empty(),
            }),
    {
        ServiceLines {
            domain: String::new(),
            proxy_host: String::new(),
            scheme: String::new(),
            host: String::new(),
            port: String::new(),
            tls: String::new(),
            websocket: String::new(),
        }
    }

    /// Takes the line that was typed for a value.
    pub fn put(&mut self, field: ServiceField, line: String)
        ensures
            final(self)@ == old(self)@.with(field, line@),
    {
        match field {
            ServiceField::Domain => {
                self.domain = line;
            },
            ServiceField::ProxyHost => {
                self.proxy_host = line;
            },
            ServiceField::Scheme => {
                self.scheme = line;
            },
            ServiceField::Host => {
                self.host = line;
            },
            ServiceField::Port => {
                self.port = line;
            },
            ServiceField::Tls => {
                self.tls = line;
            },
            ServiceField::Websocket => {
                self.websocket = line;
            },
        }
    }
}

/// The protocol that was entered, if it is one.
pub open spec fn entered_scheme(
    defaults: ServiceConfigView,
    lines: ServiceLinesView,
) -> Option<UpstreamSchemeConfig> {
    prompt::scheme_of(
        prompt::answer_of(
            lines.scheme,
            Some(services::scheme_name_of(defaults.upstream.scheme)),
        ),
    )
}

/// The default that a question shows and a blank line takes. That of the port
/// depends on the protocol that was entered.
pub open spec fn default_of(
    field: ServiceField,
    defaults: ServiceConfigView,
    lines: ServiceLinesView,
) -> Option<Seq<char>> {
    match field {
        ServiceField::Domain => Some(defaults.domain),
        ServiceField::ProxyHost => defaults.proxy_host,
        ServiceField::Scheme => Some(services::scheme_name_of(defaults.upstream.scheme)),
        ServiceField::Host => Some(defaults.upstream.host),
        ServiceField::Port => Some(
            text::decimal(
                services::offered_port(
                    match entered_scheme(defaults, lines) {
                        Some(scheme) => scheme,
                        None => defaults.upstream.scheme,
                    },
                    defaults.upstream.port,
                ) as nat,
            ),
        ),
        ServiceField::Tls => Some(services::yes_no_of(defaults.tls)),
        ServiceField::Websocket => Some(services::yes_no_of(defaults.websocket)),
    }
}

/// The service that was entered, or the first value that cannot be read.
pub open spec fn entered_of(defaults: ServiceConfigView, lines: ServiceLinesView) -> Result<
    ServiceConfigView,
    ServiceField,
> {
    let domain = prompt::answer_of(lines.domain, default_of(ServiceField::Domain, defaults, lines));
    let proxy_host = prompt::answer_of(
        lines.proxy_host,
        default_of(ServiceField::ProxyHost, defaults, lines),
    );
    let host = prompt::answer_of(lines.host, default_of(ServiceField::Host, defaults, lines));
    let port = prompt::answer_of(lines.port, default_of(ServiceField::Port, defaults, lines));
    let tls = prompt::answer_of(lines.tls, default_of(ServiceField::Tls, defaults, lines));
    let websocket = prompt::answer_of(
        lines.websocket,
        default_of(ServiceField::Websocket, defaults, lines),
    );
    if text::blank(domain) {
        Err(ServiceField::Domain)
    } else if entered_scheme(defaults, lines) is None {
        Err(ServiceField::Scheme)
    } else if text::blank(host) {
        Err(ServiceField::Host)
    } else if prompt::port_of(port) is None {
        Err(ServiceField::Port)
    } else if prompt::bool_of(tls) is None {
        Err(ServiceField::Tls)
    } else if prompt::bool_of(websocket) is None {
        Err(ServiceField::Websocket)
    } else {
        Ok(
            ServiceConfigView {
                domain,
                proxy_host: prompt::optional_of(proxy_host),
                upstream: UpstreamConfigView {
                    host,
                    port: prompt::port_of(port)->0,
                    scheme: entered_scheme(defaults, lines)->0,
                },
                tls: prompt::bool_of(tls)->0,
                websocket: prompt::bool_of(websocket)->0,
            },
        )
    }
}

fn read_scheme(defaults: &ServiceConfig, lines: &ServiceLines) -> (r: Option<UpstreamSchemeConfig>)
    ensures
        r == entered_scheme(defaults@, lines@),
{
    let shown = services::upstream_scheme_name(&defaults.upstream.scheme);
    prompt::parse_scheme(prompt::answer(lines.scheme.as_str(), Some(shown)).as_str())
}

/// The default that the question for a value shows.
pub fn shown_default(field: ServiceField, defaults: &ServiceConfig, lines: &ServiceLines) -> (r:
    Option<String>)
    ensures
        text::opt_text(r) == default_of(field, defaults@, lines@),
{
    match field {
        ServiceField::Domain => Some(defaults.domain.clone()),
        ServiceField::ProxyHost => text::clone_opt_text(&defaults.proxy_host),
        ServiceField::Scheme => Some(
            services::upstream_scheme_name(&defaults.upstream.scheme).to_owned(),
        ),
        ServiceField::Host => Some(defaults.upstream.host.clone()),
        ServiceField::Port => {
            let scheme = match read_scheme(defaults, lines) {
                Some(scheme) => scheme,
                None => defaults.upstream.scheme,
            };
            let port: u16 = services::port_default(&scheme, defaults.upstream.port);
            Some(text::to_decimal(port as u128))
        },
        ServiceField::Tls => Some(services::yes_no(defaults.tls).to_owned()),
        ServiceField::Websocket => Some(services::yes_no(defaults.websocket).to_owned()),
    }
}

fn answer_for(
    field: ServiceField,
    line: &str,
    defaults: &ServiceConfig,
    lines: &ServiceLines,
) -> (r: String)
    ensures
        r@ == prompt::answer_of(line@, default_of(field, defaults@, lines@)),
{
    match shown_default(field, defaults, lines) {
        Some(shown) => prompt::answer(line, Some(shown.as_str())),
        None => prompt::answer(line, None),
    }
}

/// The service that the lines give, where a blank line takes the default. If
/// some lines give no value, the first of them is named.
pub fn entered_service(defaults: &ServiceConfig, lines: &ServiceLines) -> (r: Result<
    ServiceConfig,
    ServiceField,
>)
    ensures
        match entered_of(defaults@, lines@) {
            Ok(service) => r is Ok && r->Ok_0@ == service,
            Err(field) => r is Err && r->Err_0 == field,
        },
{
    let domain = answer_for(ServiceField::Domain, lines.domain.as_str(), defaults, lines);
    if !prompt::is_given(domain.as_str()) {
        return Err(ServiceField::Domain);
    }
    let proxy_host = answer_for(
        ServiceField::ProxyHost,
        lines.proxy_host.as_str(),
        defaults,
        lines,
    );
    let scheme = match read_scheme(defaults, lines) {
        Some(scheme) => scheme,
        None => {
            return Err(ServiceField::Scheme);
        },
    };
    let host = answer_for(ServiceField::Host, lines.host.as_str(), defaults, lines);
    if !prompt::is_given(host.as_str()) {
        return Err(ServiceField::Host);
    }
    let port = answer_for(ServiceField::Port, lines.port.as_str(), defaults, lines);
    let port: u16 = match prompt::parse_port(port.as_str()) {
        Some(port) => port,
        None => {
            return Err(ServiceField::Port);
        },
    };
    let tls = answer_for(ServiceField::Tls, lines.tls.as_str(), defaults, lines);
    let tls = match prompt::parse_bool(tls.as_str()) {
        Some(tls) => tls,
        None => {
            return Err(ServiceField::Tls);
        },
    };
    let websocket = answer_for(ServiceField::Websocket, lines.websocket.as_str(), defaults, lines);
    let websocket = match prompt::parse_bool(websocket.as_str()) {
        Some(websocket) => websocket,
        None => {
            return Err(ServiceField::Websocket);
        },
    };
    Ok(
        ServiceConfig {
            domain,
            proxy_host: prompt::optional(proxy_host.as_str()),
            upstream: UpstreamConfig { host, port, scheme },
            tls,
            websocket,
        },
    )
}

/// A service that could have been entered: it has a domain, an upstream host and
/// a port, and no white space around an override, which is not empty.
pub open spec fn enterable(service: ServiceConfigView) -> bool {
    &&& !text::blank(service.domain)
    &&& !text::blank(service.upstream.host)
    &&& service.upstream.port > 0
    &&& service.proxy_host is Some ==> service.proxy_host->0.len() > 0 && text::trimmed(
        service.proxy_host->0,
    ) == service.proxy_host->0
}

/// Blank lines give back the service that the defaults describe, exactly where
/// it could have been entered.
pub proof fn law_blank_lines_keep_the_service(
    defaults: ServiceConfigView,
    lines: ServiceLinesView,
)
    requires
        lines.all_blank(),
    ensures
        enterable(defaults) <==> entered_of(defaults, lines) == Ok::<
            ServiceConfigView,
            ServiceField,
        >(defaults),
{
    prompt::law_blank_line_takes_the_default(lines.domain, defaults.domain);
    prompt::law_blank_line_takes_the_default(
        lines.scheme,
        services::scheme_name_of(defaults.upstream.scheme),
    );
    prompt::law_blank_line_takes_the_default(lines.host, defaults.upstream.host);
    prompt::law_blank_line_takes_the_default(
        lines.port,
        text::decimal(defaults.upstream.port as nat),
    );
    prompt::law_blank_line_takes_the_default(lines.tls, services::yes_no_of(defaults.tls));
    prompt::law_blank_line_takes_the_default(
        lines.websocket,
        services::yes_no_of(defaults.websocket),
    );
    prompt::law_shown_defaults_read_back(
        defaults.upstream.scheme,
        defaults.upstream.port,
        defaults.tls,
    );
    prompt::law_shown_defaults_read_back(
        defaults.upstream.scheme,
        defaults.upstream.port,
        defaults.websocket,
    );
    text::law_blank_is_trimmed_empty(lines.proxy_host);
    text::law_blank_is_trimmed_empty(Seq::empty());
    assert(text::blank(Seq::empty()));
}

/// Whether a value is the first that cannot be read does not depend on the lines
/// that are typed for later ones.
pub proof fn law_later_lines_do_not_matter(
    defaults: ServiceConfigView,
    lines: ServiceLinesView,
    field: ServiceField,
    later: ServiceField,
    line: Seq<char>,
)
    requires
        field.place() < later.place(),
    ensures
        entered_of(defaults, lines.with(later, line)) == Err::<ServiceConfigView, ServiceField>(
            field,
        ) <==> entered_of(defaults, lines) == Err::<ServiceConfigView, ServiceField>(field),
{
}

/// Every service that was entered can be entered again as it is.
pub proof fn law_entered_service_is_enterable(
    defaults: ServiceConfigView,
    lines: ServiceLinesView,
)
    requires
        entered_of(defaults, lines) is Ok,
    ensures
        enterable(entered_of(defaults, lines)->Ok_0),
{
    text::law_trimming_twice_is_trimming(
        prompt::answer_of(
            lines.proxy_host,
            default_of(ServiceField::ProxyHost, defaults, lines),
        ),
    );
}

/// Whether the lines spell out a service, value by value.
pub open spec fn spell(lines: ServiceLinesView, service: ServiceConfigView) -> bool {
    &&& lines.domain == service.domain
    &&& service.proxy_host is Some ==> lines.proxy_host == service.proxy_host->0
    &&& service.proxy_host is None ==> text::blank(lines.proxy_host)
    &&& service.upstream.scheme is Http ==> lines.scheme == "http"@
    &&& service.upstream.scheme is Https ==> lines.scheme == "https"@
    &&& lines.host == service.upstream.host
    &&& lines.port == text::decimal(service.upstream.port as nat)
    &&& lines.tls == if service.tls {
        "yes"@
    } else {
        "no"@
    }
    &&& lines.websocket == if service.websocket {
        "yes"@
    } else {
        "no"@
    }
}

proof fn lemma_spelled_values_are_trimmed(port: u16)
    ensures
        text::trimmed("http"@) == "http"@,
        text::trimmed("https"@) == "https"@,
        text::trimmed("yes"@) == "yes"@,
        text::trimmed("no"@) == "no"@,
        text::trimmed(text::decimal(port as nat)) == text::decimal(port as nat),
        "http"@.len() > 0,
        "https"@.len() > 0,
        "yes"@.len() > 0,
        "no"@.len() > 0,
        text::decimal(port as nat).len() > 0,
{
    reveal_strlit("http");
    reveal_strlit("https");
    reveal_strlit("yes");
    reveal_strlit("no");
    let digits = text::decimal(port as nat);
    text::lemma_decimal_digits(port as nat);
    assert(text::is_digit(digits[0]));
    assert(text::is_digit(digits[digits.len() - 1]));
    lemma_is_trimmed("http"@);
    lemma_is_trimmed("https"@);
    lemma_is_trimmed("yes"@);
    lemma_is_trimmed("no"@);
    lemma_is_trimmed(digits);
}

proof fn lemma_is_trimmed(s: Seq<char>)
    requires
        s.len() > 0,
        !text::white_space(s.first()),
        !text::white_space(s.last()),
    ensures
        text::trimmed(s) == s,
{
    let none = Seq::<char>::empty();
    text_laws::law_trimming_leaves_what_stands_between(none, s, none);
    assert(none + s + none =~= s);
}

/// Lines that spell out a service give this service, value by value, whatever the
/// defaults are. Only an override that is left out takes the default.
pub proof fn law_spelled_service_is_entered(
    service: ServiceConfigView,
    defaults: ServiceConfigView,
    lines: ServiceLinesView,
)
    requires
        enterable(service),
        text::trimmed(service.domain) == service.domain,
        text::trimmed(service.upstream.host) == service.upstream.host,
        spell(lines, service),
        service.proxy_host is None ==> defaults.proxy_host is None,
    ensures
        entered_of(defaults, lines) == Ok::<ServiceConfigView, ServiceField>(service),
{
    lemma_spelled_values_are_trimmed(service.upstream.port);
    text::law_blank_is_trimmed_empty(service.domain);
    text::law_blank_is_trimmed_empty(service.upstream.host);
    text::law_blank_is_trimmed_empty(lines.proxy_host);
    text::law_blank_is_trimmed_empty(Seq::empty());
    assert(text::blank(Seq::empty()));
    prompt::law_shown_defaults_read_back(
        service.upstream.scheme,
        service.upstream.port,
        service.tls,
    );
    prompt::law_shown_defaults_read_back(
        service.upstream.scheme,
        service.upstream.port,
        service.websocket,
    );
}

/// Where one of the lines that spell out a service is typed wrong, its value is
/// named: a protocol that is none, a port that is none, or an answer that is
/// neither yes nor no. A domain or an upstream host that is left out without a
/// default is named as well.
pub proof fn law_wrong_line_is_named(
    service: ServiceConfigView,
    defaults: ServiceConfigView,
    lines: ServiceLinesView,
    wrong: Seq<char>,
    nothing: Seq<char>,
)
    requires
        enterable(service),
        text::trimmed(service.domain) == service.domain,
        text::trimmed(service.upstream.host) == service.upstream.host,
        spell(lines, service),
        service.proxy_host is None ==> defaults.proxy_host is None,
        wrong.len() > 0,
        text::trimmed(wrong) == wrong,
        text::blank(nothing),
    ensures
        prompt::scheme_of(wrong) is None ==> entered_of(
            defaults,
            lines.with(ServiceField::Scheme, wrong),
        ) == Err::<ServiceConfigView, ServiceField>(ServiceField::Scheme),
        prompt::port_of(wrong) is None ==> entered_of(
            defaults,
            lines.with(ServiceField::Port, wrong),
        ) == Err::<ServiceConfigView, ServiceField>(ServiceField::Port),
        prompt::bool_of(wrong) is None ==> entered_of(
            defaults,
            lines.with(ServiceField::Tls, wrong),
        ) == Err::<ServiceConfigView, ServiceField>(ServiceField::Tls),
        prompt::bool_of(wrong) is None ==> entered_of(
            defaults,
            lines.with(ServiceField::Websocket, wrong),
        ) == Err::<ServiceConfigView, ServiceField>(ServiceField::Websocket),
        text::blank(defaults.domain) ==> entered_of(
            defaults,
            lines.with(ServiceField::Domain, nothing),
        ) == Err::<ServiceConfigView, ServiceField>(ServiceField::Domain),
        text::blank(defaults.upstream.host) ==> entered_of(
            defaults,
            lines.with(ServiceField::Host, nothing),
        ) == Err::<ServiceConfigView, ServiceField>(ServiceField::Host),
{
    law_spelled_service_is_entered(service, defaults, lines);
    text::law_blank_is_trimmed_empty(nothing);
}

/// A line that is left out takes the value of the defaults, and the other lines
/// count as they are typed.
pub proof fn law_left_out_line_takes_the_default(
    service: ServiceConfigView,
    defaults: ServiceConfigView,
    lines: ServiceLinesView,
    nothing: Seq<char>,
)
    requires
        enterable(service),
        enterable(defaults),
        text::trimmed(service.domain) == service.domain,
        text::trimmed(service.upstream.host) == service.upstream.host,
        spell(lines, service),
        service.proxy_host is None ==> defaults.proxy_host is None,
        text::blank(nothing),
    ensures
        entered_of(defaults, lines.with(ServiceField::Domain, nothing)) == Ok::<
            ServiceConfigView,
            ServiceField,
        >((ServiceConfigView { domain: defaults.domain, ..service })),
        entered_of(defaults, lines.with(ServiceField::ProxyHost, nothing)) == Ok::<
            ServiceConfigView,
            ServiceField,
        >((ServiceConfigView { proxy_host: defaults.proxy_host, ..service })),
        entered_of(defaults, lines.with(ServiceField::Scheme, nothing)) == Ok::<
            ServiceConfigView,
            ServiceField,
        >(
            (ServiceConfigView {
                upstream: (UpstreamConfigView {
                    scheme: defaults.upstream.scheme,
                    ..service.upstream
                }),
                ..service
            }),
        ),
        entered_of(defaults, lines.with(ServiceField::Host, nothing)) == Ok::<
            ServiceConfigView,
            ServiceField,
        >(
            (ServiceConfigView {
                upstream: (UpstreamConfigView { host: defaults.upstream.host, ..service.upstream }),
                ..service
            }),
        ),
        entered_of(defaults, lines.with(ServiceField::Port, nothing)) == Ok::<
            ServiceConfigView,
            ServiceField,
        >(
            (ServiceConfigView {
                upstream: (UpstreamConfigView { port: defaults.upstream.port, ..service.upstream }),
                ..service
            }),
        ),
        entered_of(defaults, lines.with(ServiceField::Tls, nothing)) == Ok::<
            ServiceConfigView,
            ServiceField,
        >((ServiceConfigView { tls: defaults.tls, ..service })),
        entered_of(defaults, lines.with(ServiceField::Websocket, nothing)) == Ok::<
            ServiceConfigView,
            ServiceField,
        >((ServiceConfigView { websocket: defaults.websocket, ..service })),
{
    law_spelled_service_is_entered(service, defaults, lines);
    text::law_blank_is_trimmed_empty(nothing);
    text::law_blank_is_trimmed_empty(Seq::empty());
    assert(text::blank(Seq::empty()));
    prompt::law_shown_defaults_read_back(
        defaults.upstream.scheme,
        defaults.upstream.port,
        defaults.tls,
    );
    prompt::law_shown_defaults_read_back(
        defaults.upstream.scheme,
        defaults.upstream.port,
        defaults.websocket,
    );
}

/// Where the defaults have no port, the usual port of the protocol that was typed
/// is offered: 80 for HTTP and 443 for HTTPS.
pub proof fn law_offered_port_follows_the_protocol(
    defaults: ServiceConfigView,
    lines: ServiceLinesView,
)
    requires
        defaults.upstream.port == 0,
    ensures
        lines.scheme == "http"@ ==> default_of(ServiceField::Port, defaults, lines) == Some(
            text::decimal(80),
        ),
        lines.scheme == "https"@ ==> default_of(ServiceField::Port, defaults, lines) == Some(
            text::decimal(443),
        ),
{
    lemma_spelled_values_are_trimmed(80);
    prompt::law_shown_defaults_read_back(UpstreamSchemeConfig::Http, 80, true);
    prompt::law_shown_defaults_read_back(UpstreamSchemeConfig::Https, 443, true);
}

} // verus!
