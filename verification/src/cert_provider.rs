//! Certificates, the changes made to them, and what can go wrong.

use crate::proxy_provider::{ProxyError, ProxyErrorView};
use crate::text;
use vstd::prelude::*;

verus! {

/// What the name of a certificate holds when it is managed.
pub const MANAGED_CERTIFICATE_NAME_MARKER: &'static str = "managed-by:avel-pilot";

/// A point in time: `std::time::SystemTime`, which this library carries and
/// never looks into.
#[verifier::external_type_specification]
#[verifier::external_body]
pub struct ExSystemTime(std::time::SystemTime);

/// The name by which a provider knows a certificate.
#[derive(Debug, PartialEq, Eq, Hash)]
pub struct CertificateId(pub String);

/// What is known of a certificate beside what it certifies.
#[derive(Debug, Clone, Copy, PartialEq, Eq, Structural)]
pub struct CertificateMeta {
    pub managed: bool,
}

/// How control of a domain is proved through its DNS.
#[derive(Debug, PartialEq, Eq)]
pub struct Dns01Challenge {
    pub provider: String,
    pub credentials: String,
    pub propagation_seconds: Option<u32>,
}

/// How control of a domain is proved.
#[derive(Debug, PartialEq, Eq)]
pub enum CertificateChallenge {
    Http01,
    Dns01(Dns01Challenge),
}

/// A certificate.
#[derive(Debug, PartialEq, Eq)]
pub struct Certificate {
    pub id: Option<CertificateId>,
    pub name: Option<String>,
    pub meta: CertificateMeta,
    pub domains: Vec<String>,
    pub challenge: CertificateChallenge,
    pub expires_at: Option<std::time::SystemTime>,
}

/// A change to the certificates of a provider.
#[derive(Debug, PartialEq, Eq)]
pub enum CertificateChange {
    Create(Certificate),
    Renew { id: CertificateId },
    Delete { id: CertificateId },
}

/// Why a certificate provider could not do what it was asked.
#[derive(Debug, PartialEq, Eq)]
pub enum CertProviderError {
    CertificateNotFound(String),
    UnsupportedChallengeType(String),
    Proxy(ProxyError),
    OperationFailed(String),
    UnknownError,
}

/// What a [`Dns01Challenge`] holds.
pub struct Dns01ChallengeView {
    pub provider: Seq<char>,
    pub credentials: Seq<char>,
    pub propagation_seconds: Option<u32>,
}

/// What a [`CertificateChallenge`] is.
pub enum CertificateChallengeView {
    Http01,
    Dns01(Dns01ChallengeView),
}

/// What a [`Certificate`] holds.
pub struct CertificateView {
    pub id: Option<Seq<char>>,
    pub name: Option<Seq<char>>,
    pub meta: CertificateMeta,
    pub domains: Seq<Seq<char>>,
    pub challenge: CertificateChallengeView,
    pub expires_at: Option<std::time::SystemTime>,
}

/// What a [`CertificateChange`] asks for.
pub enum CertificateChangeView {
    Create(CertificateView),
    Renew { id: Seq<char> },
    Delete { id: Seq<char> },
}

/// What a [`CertProviderError`] reports.
pub enum CertProviderErrorView {
    CertificateNotFound(Seq<char>),
    UnsupportedChallengeType(Seq<char>),
    Proxy(ProxyErrorView),
    OperationFailed(Seq<char>),
    UnknownError,
}

impl Default for CertificateMeta {
    fn default() -> (r: Self)
        ensures
            !r.managed,
    {
        CertificateMeta { managed: false }
    }
}

impl View for CertificateId {
    type V = Seq<char>;

    open spec fn view(&self) -> Seq<char> {
        self.0@
    }
}

impl Clone for CertificateId {
    fn clone(&self) -> (r: Self)
        ensures
            r@ == self@,
    {
        CertificateId(self.0.clone())
    }
}

/// The text that an optional certificate id holds.
pub open spec fn opt_certificate_id(id: Option<CertificateId>) -> Option<Seq<char>> {
    match id {
        Some(held) => Some(held@),
        None => None,
    }
}

/// A copy of an optional certificate id.
pub fn clone_certificate_id(id: &Option<CertificateId>) -> (r: Option<CertificateId>)
    ensures
        opt_certificate_id(r) == opt_certificate_id(*id),
{
    match id {
        Some(held) => Some(held.clone()),
        None => None,
    }
}

impl View for Dns01Challenge {
    type V = Dns01ChallengeView;

    open spec fn view(&self) -> Dns01ChallengeView {
        Dns01ChallengeView {
            provider: self.provider@,
            credentials: self.credentials@,
            propagation_seconds: self.propagation_seconds,
        }
    }
}

impl Clone for Dns01Challenge {
    fn clone(&self) -> (r: Self)
        ensures
            r@ == self@,
    {
        Dns01Challenge {
            provider: self.provider.clone(),
            credentials: self.credentials.clone(),
            propagation_seconds: self.propagation_seconds,
        }
    }
}

impl View for CertificateChallenge {
    type V = CertificateChallengeView;

    open spec fn view(&self) -> CertificateChallengeView {
        match self {
            CertificateChallenge::Http01 => CertificateChallengeView::Http01,
            CertificateChallenge::Dns01(challenge) => CertificateChallengeView::Dns01(challenge@),
        }
    }
}

impl Clone for CertificateChallenge {
    fn clone(&self) -> (r: Self)
        ensures
            r@ == self@,
    {
        match self {
            CertificateChallenge::Http01 => CertificateChallenge::Http01,
            CertificateChallenge::Dns01(challenge) => CertificateChallenge::Dns01(
                challenge.clone(),
            ),
        }
    }
}

impl View for Certificate {
    type V = CertificateView;

    open spec fn view(&self) -> CertificateView {
        CertificateView {
            id: opt_certificate_id(self.id),
            name: text::opt_text(self.name),
            meta: self.meta,
            domains: text::texts(self.domains@),
            challenge: self.challenge@,
            expires_at: self.expires_at,
        }
    }
}

impl Clone for Certificate {
    fn clone(&self) -> (r: Self)
        ensures
            r@ == self@,
    {
        Certificate {
            id: clone_certificate_id(&self.id),
            name: text::clone_opt_text(&self.name),
            meta: self.meta,
            domains: text::clone_texts(&self.domains),
            challenge: self.challenge.clone(),
            expires_at: self.expires_at,
        }
    }
}

impl View for CertificateChange {
    type V = CertificateChangeView;

    open spec fn view(&self) -> CertificateChangeView {
        match self {
            CertificateChange::Create(certificate) => CertificateChangeView::Create(certificate@),
            CertificateChange::Renew { id } => CertificateChangeView::Renew { id: id@ },
            CertificateChange::Delete { id } => CertificateChangeView::Delete { id: id@ },
        }
    }
}

impl Clone for CertificateChange {
    fn clone(&self) -> (r: Self)
        ensures
            r@ == self@,
    {
        match self {
            CertificateChange::Create(certificate) => CertificateChange::Create(
                certificate.clone(),
            ),
            CertificateChange::Renew { id } => CertificateChange::Renew { id: id.clone() },
            CertificateChange::Delete { id } => CertificateChange::Delete { id: id.clone() },
        }
    }
}

/// What a list of certificates holds.
pub open spec fn certificates_view(certificates: Seq<Certificate>) -> Seq<CertificateView> {
    certificates.map_values(|c: Certificate| c@)
}

/// What a list of changes asks for.
pub open spec fn certificate_changes_view(
    changes: Seq<CertificateChange>,
) -> Seq<CertificateChangeView> {
    changes.map_values(|c: CertificateChange| c@)
}

impl View for CertProviderError {
    type V = CertProviderErrorView;

    open spec fn view(&self) -> CertProviderErrorView {
        match self {
            CertProviderError::CertificateNotFound(
                id,
            ) => CertProviderErrorView::CertificateNotFound(id@),
            CertProviderError::UnsupportedChallengeType(
                kind,
            ) => CertProviderErrorView::UnsupportedChallengeType(kind@),
            CertProviderError::Proxy(error) => CertProviderErrorView::Proxy(error@),
            CertProviderError::OperationFailed(
                reason,
            ) => CertProviderErrorView::OperationFailed(reason@),
            CertProviderError::UnknownError => CertProviderErrorView::UnknownError,
        }
    }
}

impl CertProviderErrorView {
    /// The error in words.
    pub open spec fn text(self) -> Seq<char> {
        match self {
            CertProviderErrorView::CertificateNotFound(id) => "certificate not found: "@ + id,
            CertProviderErrorView::UnsupportedChallengeType(
                kind,
            ) => "unsupported challenge type: "@ + kind,
            CertProviderErrorView::Proxy(error) => "proxy provider error: "@ + error.text(),
            CertProviderErrorView::OperationFailed(
                reason,
            ) => "certificate operation failed: "@ + reason,
            CertProviderErrorView::UnknownError => "unknown error"@,
        }
    }
}

impl CertProviderError {
    /// The error in words.
    pub fn message(&self) -> (r: String)
        ensures
            r@ == self@.text(),
    {
        match self {
            CertProviderError::CertificateNotFound(id) => text::join2(
                "certificate not found: ",
                id.as_str(),
            ),
            CertProviderError::UnsupportedChallengeType(kind) => text::join2(
                "unsupported challenge type: ",
                kind.as_str(),
            ),
            CertProviderError::Proxy(error) => text::join2(
                "proxy provider error: ",
                error.message().as_str(),
            ),
            CertProviderError::OperationFailed(reason) => text::join2(
                "certificate operation failed: ",
                reason.as_str(),
            ),
            CertProviderError::UnknownError => "unknown error".to_owned(),
        }
    }
}

} // verus!
