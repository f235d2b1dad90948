//! What is said, and how things are called.

use crate::api::ApiMethod;
use crate::cert_provider::CertProviderErrorView;
use crate::config::ConfigErrorView;
use crate::dns_provider::DnsProviderErrorView;
use crate::entry::ServiceField;
use crate::logging::Level;
use crate::proxy_provider::ProxyErrorView;
use crate::reconciler::ReconcileErrorView;
use crate::services::ServiceErrorView;
use crate::table::Color;
use crate::text;
use vstd::prelude::*;

verus! {

/// An error of the DNS provider says what happened and what it happened to.
pub proof fn law_dns_errors_name_their_subject(code: u32, subject: Seq<char>)
    ensures
        DnsProviderErrorView::Http(subject).text() == "HTTP request failed: "@ + subject,
        (DnsProviderErrorView::Api { code, message: subject }).text() == "Cloudflare API error "@
            + text::decimal(code as nat) + ": "@ + subject,
        DnsProviderErrorView::ZoneNotFound(subject).text() == "DNS zone not found: "@ + subject,
        DnsProviderErrorView::UnsupportedRecordType(subject).text() == "unsupported record type: "@
            + subject,
        DnsProviderErrorView::UnknownErorr.text() == "unknown error"@,
{
}

/// An error of the proxy says what happened and what it happened to.
pub proof fn law_proxy_errors_name_their_subject(status: u16, subject: Seq<char>)
    ensures
        ProxyErrorView::Http(subject).text() == "HTTP request failed: "@ + subject,
        (ProxyErrorView::Api { status, message: subject }).text() == "NPM API error "@
            + text::decimal(status as nat) + ": "@ + subject,
        ProxyErrorView::UnsupportedUpstreamScheme(subject).text()
            == "unsupported upstream scheme: "@ + subject,
        ProxyErrorView::InvalidHostId(subject).text() == "invalid proxy host id: "@ + subject,
        ProxyErrorView::UnknownError.text() == "unknown error"@,
{
}

/// An error with a certificate says what happened and what it happened to, and an
/// error of the proxy is passed on.
pub proof fn law_certificate_errors_name_their_subject(subject: Seq<char>, error: ProxyErrorView)
    ensures
        CertProviderErrorView::CertificateNotFound(subject).text() == "certificate not found: "@
            + subject,
        CertProviderErrorView::UnsupportedChallengeType(subject).text()
            == "unsupported challenge type: "@ + subject,
        CertProviderErrorView::Proxy(error).text() == "proxy provider error: "@ + error.text(),
        CertProviderErrorView::OperationFailed(subject).text()
            == "certificate operation failed: "@ + subject,
        CertProviderErrorView::UnknownError.text() == "unknown error"@,
{
}

/// An error of a run says whose it is and passes on what that one says.
pub proof fn law_run_errors_name_their_source(
    reason: Seq<char>,
    dns: DnsProviderErrorView,
    proxy: ProxyErrorView,
    certificate: CertProviderErrorView,
)
    ensures
        ReconcileErrorView::InvalidConfig(reason).text() == "invalid config: "@ + reason,
        ReconcileErrorView::Dns(dns).text() == "dns provider error: "@ + dns.text(),
        ReconcileErrorView::Proxy(proxy).text() == "proxy provider error: "@ + proxy.text(),
        ReconcileErrorView::Certificate(certificate).text() == "certificate provider error: "@
            + certificate.text(),
{
}

/// An error with a service names the service, or passes on what is wrong with the
/// configuration.
pub proof fn law_service_errors_name_the_service(name: Seq<char>, error: ReconcileErrorView)
    ensures
        ServiceErrorView::EmptyName.text() == "service name cannot be empty"@,
        ServiceErrorView::AlreadyExists(name).text() == "service already exists: "@ + name,
        ServiceErrorView::NotFound(name).text() == "service not found: "@ + name,
        ServiceErrorView::Invalid(error).text() == error.text(),
        ServiceErrorView::Aborted.text() == "service edit aborted"@,
{
}

/// An error with a file says what could not be done and why.
pub proof fn law_file_errors_name_their_reason(reason: Seq<char>)
    ensures
        ConfigErrorView::Read(reason).text() == "failed to read config file: "@ + reason,
        ConfigErrorView::Parse(reason).text() == "failed to parse yaml: "@ + reason,
        ConfigErrorView::MissingEnvVar(reason).text() == "environment variable not found: "@
            + reason,
        ConfigErrorView::UnterminatedEnvVar.text()
            == "unterminated environment variable reference"@,
{
}

/// A complaint names the value that is wrong. The domain and the upstream host are
/// the values that are required, and the override is the one that may be left out.
pub proof fn law_complaints_name_the_value()
    ensures
        ServiceField::Domain.complaint_of() == "Domain"@ + " is required"@,
        ServiceField::ProxyHost.complaint_of().len() == 0,
        ServiceField::Scheme.complaint_of() == "Upstream scheme"@ + " must be http or https"@,
        ServiceField::Host.complaint_of() == "Upstream host"@ + " is required"@,
        ServiceField::Port.complaint_of() == "Upstream port"@
            + " must be a port between 1 and 65535"@,
        ServiceField::Tls.complaint_of() == "TLS"@ + " must be yes or no"@,
        ServiceField::Websocket.complaint_of() == "Websocket"@ + " must be yes or no"@,
        ServiceField::ProxyHost.name() == "DNS proxy host override"@,
{
}

/// The methods are called as HTTP calls them.
pub proof fn law_methods_have_their_names()
    ensures
        ApiMethod::Get.name() == "GET"@,
        ApiMethod::Post.name() == "POST"@,
        ApiMethod::Put.name() == "PUT"@,
        ApiMethod::Patch.name() == "PATCH"@,
        ApiMethod::Delete.name() == "DELETE"@,
{
}

/// The names of the levels are all equally long and start with the level.
pub proof fn law_levels_are_equally_long(level: Level)
    ensures
        level.name().len() == 5,
        level is Info ==> level.name().take(4) == "INFO"@,
        level is Warn ==> level.name().take(4) == "WARN"@,
        level is Error ==> level.name() == "ERROR"@,
{
    reveal_strlit("INFO ");
    reveal_strlit("WARN ");
    reveal_strlit("ERROR");
    reveal_strlit("INFO");
    reveal_strlit("WARN");
    assert("INFO "@.take(4) =~= "INFO"@);
    assert("WARN "@.take(4) =~= "WARN"@);
}

/// The colours have the codes of the terminal: bold ones, but for dim text.
pub proof fn law_colours_have_their_codes()
    ensures
        Color::Bold.code() == "1"@,
        Color::Dim.code() == "2"@,
        Color::Red.code() == "31;1"@,
        Color::Green.code() == "32;1"@,
        Color::Yellow.code() == "33;1"@,
        Color::Cyan.code() == "36;1"@,
{
}

/// The values of a service are asked for in this order: the domain, the override,
/// the protocol, the host and the port of the upstream, TLS and websockets.
pub proof fn law_values_are_asked_for_in_order()
    ensures
        ServiceField::Domain.place() < ServiceField::ProxyHost.place(),
        ServiceField::ProxyHost.place() < ServiceField::Scheme.place(),
        ServiceField::Scheme.place() < ServiceField::Host.place(),
        ServiceField::Host.place() < ServiceField::Port.place(),
        ServiceField::Port.place() < ServiceField::Tls.place(),
        ServiceField::Tls.place() < ServiceField::Websocket.place(),
{
}

} // verus!
