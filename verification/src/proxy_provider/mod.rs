//! Proxy hosts, the changes made to them, and what can go wrong.

use crate::text;
use vstd::prelude::*;
use vstd::string::StringExecFns;

pub mod npm;
pub mod npm_laws;

verus! {

/// The name by which a proxy knows a host.
#[derive(Debug, PartialEq, Eq)]
pub struct ProxyHostId(pub String);

/// The certificate that a host is served with.
#[derive(Debug, Clone, Copy, PartialEq, Eq, Structural)]
pub struct CertificateRef {
    pub id: u32,
}

/// The protocol that is spoken with an upstream server.
#[derive(Debug, Clone, Copy, PartialEq, Eq, Structural)]
pub enum UpstreamScheme {
    Http,
    Https,
}

/// The server that a host forwards to.
#[derive(Debug, PartialEq, Eq)]
pub struct Upstream {
    pub scheme: UpstreamScheme,
    pub host: String,
    pub port: u16,
}

/// A host that the proxy serves.
#[derive(Debug, PartialEq, Eq)]
pub struct ProxyHost {
    pub id: Option<ProxyHostId>,
    pub domains: Vec<String>,
    pub upstream: Upstream,
    pub websocket: bool,
    pub certificate: Option<CertificateRef>,
    pub force_https: bool,
}

/// A change to the hosts of a proxy.
#[derive(Debug, PartialEq, Eq)]
pub enum ProxyChange {
    Create(ProxyHost),
    Update { id: ProxyHostId, host: ProxyHost },
    Delete { id: ProxyHostId },
}

/// Why a proxy could not do what it was asked.
#[derive(Debug, PartialEq, Eq)]
pub enum ProxyError {
    Http(String),
    Api { status: u16, message: String },
    UnsupportedUpstreamScheme(String),
    InvalidHostId(String),
    UnknownError,
}

/// What an [`Upstream`] holds.
pub struct UpstreamView {
    pub scheme: UpstreamScheme,
    pub host: Seq<char>,
    pub port: u16,
}

/// What a [`ProxyHost`] holds.
pub struct ProxyHostView {
    pub id: Option<Seq<char>>,
    pub domains: Seq<Seq<char>>,
    pub upstream: UpstreamView,
    pub websocket: bool,
    pub certificate: Option<CertificateRef>,
    pub force_https: bool,
}

/// What a [`ProxyChange`] asks for.
pub enum ProxyChangeView {
    Create(ProxyHostView),
    Update { id: Seq<char>, host: ProxyHostView },
    Delete { id: Seq<char> },
}

/// What a [`ProxyError`] reports.
pub enum ProxyErrorView {
    Http(Seq<char>),
    Api { status: u16, message: Seq<char> },
    UnsupportedUpstreamScheme(Seq<char>),
    InvalidHostId(Seq<char>),
    UnknownError,
}

impl View for ProxyHostId {
    type V = Seq<char>;

    open spec fn view(&self) -> Seq<char> {
        self.0@
    }
}

impl Clone for ProxyHostId {
    fn clone(&self) -> (r: Self)
        ensures
            r@ == self@,
    {
        ProxyHostId(self.0.clone())
    }
}

/// The text that an optional host id holds.
pub open spec fn opt_host_id(id: Option<ProxyHostId>) -> Option<Seq<char>> {
    match id {
        Some(held) => Some(held@),
        None => None,
    }
}

impl View for Upstream {
    type V = UpstreamView;

    open spec fn view(&self) -> UpstreamView {
        UpstreamView { scheme: self.scheme, host: self.host@, port: self.port }
    }
}

impl Clone for Upstream {
    fn clone(&self) -> (r: Self)
        ensures
            r@ == self@,
    {
        Upstream { scheme: self.scheme, host: self.host.clone(), port: self.port }
    }
}

impl View for ProxyHost {
    type V = ProxyHostView;

    open spec fn view(&self) -> ProxyHostView {
        ProxyHostView {
            id: opt_host_id(self.id),
            domains: text::texts(self.domains@),
            upstream: self.upstream@,
            websocket: self.websocket,
            certificate: self.certificate,
            force_https: self.force_https,
        }
    }
}

impl Clone for ProxyHost {
    fn clone(&self) -> (r: Self)
        ensures
            r@ == self@,
    {
        ProxyHost {
            id: match &self.id {
                Some(id) => Some(id.clone()),
                None => None,
            },
            domains: text::clone_texts(&self.domains),
            upstream: self.upstream.clone(),
            websocket: self.websocket,
            certificate: self.certificate,
            force_https: self.force_https,
        }
    }
}

impl View for ProxyChange {
    type V = ProxyChangeView;

    open spec fn view(&self) -> ProxyChangeView {
        match self {
            ProxyChange::Create(host) => ProxyChangeView::Create(host@),
            ProxyChange::Update { id, host } => ProxyChangeView::Update { id: id@, host: host@ },
            ProxyChange::Delete { id } => ProxyChangeView::Delete { id: id@ },
        }
    }
}

impl Clone for ProxyChange {
    fn clone(&self) -> (r: Self)
        ensures
            r@ == self@,
    {
        match self {
            ProxyChange::Create(host) => ProxyChange::Create(host.clone()),
            ProxyChange::Update { id, host } => ProxyChange::Update {
                id: id.clone(),
                host: host.clone(),
            },
            ProxyChange::Delete { id } => ProxyChange::Delete { id: id.clone() },
        }
    }
}

/// What a list of hosts holds.
pub open spec fn hosts_view(hosts: Seq<ProxyHost>) -> Seq<ProxyHostView> {
    hosts.map_values(|h: ProxyHost| h@)
}

/// What a list of changes asks for.
pub open spec fn proxy_changes_view(changes: Seq<ProxyChange>) -> Seq<ProxyChangeView> {
    changes.map_values(|c: ProxyChange| c@)
}

impl View for ProxyError {
    type V = ProxyErrorView;

    open spec fn view(&self) -> ProxyErrorView {
        match self {
            ProxyError::Http(text) => ProxyErrorView::Http(text@),
            ProxyError::Api { status, message } => ProxyErrorView::Api {
                status: *status,
                message: message@,
            },
            ProxyError::UnsupportedUpstreamScheme(
                scheme,
            ) => ProxyErrorView::UnsupportedUpstreamScheme(scheme@),
            ProxyError::InvalidHostId(id) => ProxyErrorView::InvalidHostId(id@),
            ProxyError::UnknownError => ProxyErrorView::UnknownError,
        }
    }
}

impl ProxyErrorView {
    /// The error in words.
    pub open spec fn text(self) -> Seq<char> {
        match self {
            ProxyErrorView::Http(text) => "HTTP request failed: "@ + text,
            ProxyErrorView::Api { status, message } => "NPM API error "@ + text::decimal(
                status as nat,
            ) + ": "@ + message,
            ProxyErrorView::UnsupportedUpstreamScheme(scheme) => "unsupported upstream scheme: "@
                + scheme,
            ProxyErrorView::InvalidHostId(id) => "invalid proxy host id: "@ + id,
            ProxyErrorView::UnknownError => "unknown error"@,
        }
    }
}

impl ProxyError {
    /// The error in words.
    pub fn message(&self) -> (r: String)
        ensures
            r@ == self@.text(),
    {
        match self {
            ProxyError::Http(reason) => text::join2("HTTP request failed: ", reason.as_str()),
            ProxyError::Api { status, message } => {
                let mut out = text::join2(
                    "NPM API error ",
                    text::to_decimal(*status as u128).as_str(),
                );
                out.append(": ");
                out.append(message.as_str());
                out
            },
            ProxyError::UnsupportedUpstreamScheme(scheme) => text::join2(
                "unsupported upstream scheme: ",
                scheme.as_str(),
            ),
            ProxyError::InvalidHostId(id) => text::join2("invalid proxy host id: ", id.as_str()),
            ProxyError::UnknownError => "unknown error".to_owned(),
        }
    }
}

impl UpstreamScheme {
    /// The name of the protocol in a URL.
    pub open spec fn name(self) -> Seq<char> {
        match self {
            UpstreamScheme::Http => "http"@,
            UpstreamScheme::Https => "https"@,
        }
    }

    /// The name of the protocol in a URL.
    pub fn as_name(&self) -> (r: &'static str)
        ensures
            r@ == self.name(),
    {
        match self {
            UpstreamScheme::Http => "http",
            UpstreamScheme::Https => "https",
        }
    }
}

} // verus!
