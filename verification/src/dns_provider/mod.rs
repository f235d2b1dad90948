//! DNS records, the changes made to them, and what can go wrong.

use crate::order::{KeyOrder, MapKey};
use crate::{order, text};
use vstd::prelude::*;
use vstd::string::StringExecFns;

pub mod cloudflare;
pub mod cloudflare_laws;

verus! {

/// The name by which a provider knows a record.
#[derive(Debug, PartialEq, Eq, Hash)]
pub struct DnsRecordId(pub String);

/// The kinds of records that are managed.
#[derive(Debug, Clone, Copy, PartialEq, Eq, Structural)]
pub enum DnsRecordType {
    A,
    Aaaa,
    Cname,
    Txt,
    Mx,
}

/// A DNS record. Without a `ttl` the provider chooses one.
#[derive(Debug, PartialEq, Eq)]
pub struct DnsRecord {
    pub id: Option<DnsRecordId>,
    pub name: String,
    pub record_type: DnsRecordType,
    pub value: String,
    pub ttl: Option<u32>,
}

/// A change to the records of a zone.
#[derive(Debug, PartialEq, Eq)]
pub enum DnsChange {
    Create(DnsRecord),
    Update { id: DnsRecordId, record: DnsRecord },
    Delete { id: DnsRecordId },
}

/// How many records of a zone are managed and how many are not.
#[derive(Debug, Clone, Copy, PartialEq, Eq, Structural)]
pub struct DnsSummary {
    pub managed: usize,
    pub unmanaged: usize,
}

/// What a certificate authority is told in order to prove control of a zone
/// through its DNS.
#[derive(Debug, PartialEq, Eq)]
pub struct Dns01ProviderConfig {
    pub provider: String,
    pub credentials: String,
    pub propagation_seconds: Option<u32>,
}

/// Why a DNS provider could not do what it was asked.
#[derive(Debug, PartialEq, Eq)]
pub enum DnsProviderError {
    Http(String),
    Api { code: u32, message: String },
    ZoneNotFound(String),
    UnsupportedRecordType(String),
    UnknownErorr,
}

/// What a [`DnsRecord`] holds.
pub struct DnsRecordView {
    pub id: Option<Seq<char>>,
    pub name: Seq<char>,
    pub record_type: DnsRecordType,
    pub value: Seq<char>,
    pub ttl: Option<u32>,
}

/// What a [`DnsChange`] asks for.
pub enum DnsChangeView {
    Create(DnsRecordView),
    Update { id: Seq<char>, record: DnsRecordView },
    Delete { id: Seq<char> },
}

/// What a [`Dns01ProviderConfig`] holds.
pub struct Dns01ProviderConfigView {
    pub provider: Seq<char>,
    pub credentials: Seq<char>,
    pub propagation_seconds: Option<u32>,
}

/// What a [`DnsProviderError`] reports.
pub enum DnsProviderErrorView {
    Http(Seq<char>),
    Api { code: u32, message: Seq<char> },
    ZoneNotFound(Seq<char>),
    UnsupportedRecordType(Seq<char>),
    UnknownErorr,
}

impl View for DnsRecordId {
    type V = Seq<char>;

    open spec fn view(&self) -> Seq<char> {
        self.0@
    }
}

impl Clone for DnsRecordId {
    fn clone(&self) -> (r: Self)
        ensures
            r@ == self@,
    {
        DnsRecordId(self.0.clone())
    }
}

/// The text that an optional record id holds.
pub open spec fn opt_record_id(id: Option<DnsRecordId>) -> Option<Seq<char>> {
    match id {
        Some(held) => Some(held@),
        None => None,
    }
}

impl View for DnsRecord {
    type V = DnsRecordView;

    open spec fn view(&self) -> DnsRecordView {
        DnsRecordView {
            id: opt_record_id(self.id),
            name: self.name@,
            record_type: self.record_type,
            value: self.value@,
            ttl: self.ttl,
        }
    }
}

impl Clone for DnsRecord {
    fn clone(&self) -> (r: Self)
        ensures
            r@ == self@,
    {
        DnsRecord {
            id: match &self.id {
                Some(id) => Some(id.clone()),
                None => None,
            },
            name: self.name.clone(),
            record_type: self.record_type,
            value: self.value.clone(),
            ttl: self.ttl,
        }
    }
}

impl View for DnsChange {
    type V = DnsChangeView;

    open spec fn view(&self) -> DnsChangeView {
        match self {
            DnsChange::Create(record) => DnsChangeView::Create(record@),
            DnsChange::Update { id, record } => DnsChangeView::Update { id: id@, record: record@ },
            DnsChange::Delete { id } => DnsChangeView::Delete { id: id@ },
        }
    }
}

impl Clone for DnsChange {
    fn clone(&self) -> (r: Self)
        ensures
            r@ == self@,
    {
        match self {
            DnsChange::Create(record) => DnsChange::Create(record.clone()),
            DnsChange::Update { id, record } => DnsChange::Update {
                id: id.clone(),
                record: record.clone(),
            },
            DnsChange::Delete { id } => DnsChange::Delete { id: id.clone() },
        }
    }
}

/// What a list of records holds.
pub open spec fn records_view(records: Seq<DnsRecord>) -> Seq<DnsRecordView> {
    records.map_values(|r: DnsRecord| r@)
}

/// What a list of changes asks for.
pub open spec fn dns_changes_view(changes: Seq<DnsChange>) -> Seq<DnsChangeView> {
    changes.map_values(|c: DnsChange| c@)
}

impl View for Dns01ProviderConfig {
    type V = Dns01ProviderConfigView;

    open spec fn view(&self) -> Dns01ProviderConfigView {
        Dns01ProviderConfigView {
            provider: self.provider@,
            credentials: self.credentials@,
            propagation_seconds: self.propagation_seconds,
        }
    }
}

impl Clone for Dns01ProviderConfig {
    fn clone(&self) -> (r: Self)
        ensures
            r@ == self@,
    {
        Dns01ProviderConfig {
            provider: self.provider.clone(),
            credentials: self.credentials.clone(),
            propagation_seconds: self.propagation_seconds,
        }
    }
}

impl View for DnsProviderError {
    type V = DnsProviderErrorView;

    open spec fn view(&self) -> DnsProviderErrorView {
        match self {
            DnsProviderError::Http(text) => DnsProviderErrorView::Http(text@),
            DnsProviderError::Api { code, message } => DnsProviderErrorView::Api {
                code: *code,
                message: message@,
            },
            DnsProviderError::ZoneNotFound(zone) => DnsProviderErrorView::ZoneNotFound(zone@),
            DnsProviderError::UnsupportedRecordType(
                name,
            ) => DnsProviderErrorView::UnsupportedRecordType(name@),
            DnsProviderError::UnknownErorr => DnsProviderErrorView::UnknownErorr,
        }
    }
}

impl DnsProviderErrorView {
    /// The error in words.
    pub open spec fn text(self) -> Seq<char> {
        match self {
            DnsProviderErrorView::Http(text) => "HTTP request failed: "@ + text,
            DnsProviderErrorView::Api { code, message } => "Cloudflare API error "@ + text::decimal(
                code as nat,
            ) + ": "@ + message,
            DnsProviderErrorView::ZoneNotFound(zone) => "DNS zone not found: "@ + zone,
            DnsProviderErrorView::UnsupportedRecordType(name) => "unsupported record type: "@
                + name,
            DnsProviderErrorView::UnknownErorr => "unknown error"@,
        }
    }
}

impl DnsProviderError {
    /// The error in words.
    pub fn message(&self) -> (r: String)
        ensures
            r@ == self@.text(),
    {
        match self {
            DnsProviderError::Http(text) => text::join2("HTTP request failed: ", text.as_str()),
            DnsProviderError::Api { code, message } => {
                let mut out = text::join2(
                    "Cloudflare API error ",
                    text::to_decimal(*code as u128).as_str(),
                );
                out.append(": ");
                out.append(message.as_str());
                out
            },
            DnsProviderError::ZoneNotFound(zone) => text::join2("DNS zone not found: ", zone.as_str()),
            DnsProviderError::UnsupportedRecordType(name) => text::join2(
                "unsupported record type: ",
                name.as_str(),
            ),
            DnsProviderError::UnknownErorr => "unknown error".to_owned(),
        }
    }
}

impl DnsRecordType {
    /// The name of the kind in a zone file.
    pub open spec fn name(self) -> Seq<char> {
        match self {
            DnsRecordType::A => "A"@,
            DnsRecordType::Aaaa => "AAAA"@,
            DnsRecordType::Cname => "CNAME"@,
            DnsRecordType::Txt => "TXT"@,
            DnsRecordType::Mx => "MX"@,
        }
    }

    /// The name of the kind in a zone file.
    pub fn as_name(&self) -> (r: &'static str)
        ensures
            r@ == self.name(),
    {
        match self {
            DnsRecordType::A => "A",
            DnsRecordType::Aaaa => "AAAA",
            DnsRecordType::Cname => "CNAME",
            DnsRecordType::Txt => "TXT",
            DnsRecordType::Mx => "MX",
        }
    }

    /// The place of the kind among the kinds.
    pub open spec fn rank(self) -> int {
        match self {
            DnsRecordType::A => 0,
            DnsRecordType::Aaaa => 1,
            DnsRecordType::Cname => 2,
            DnsRecordType::Txt => 3,
            DnsRecordType::Mx => 4,
        }
    }

    fn place(&self) -> (r: u8)
        ensures
            r == self.rank(),
    {
        match self {
            DnsRecordType::A => 0,
            DnsRecordType::Aaaa => 1,
            DnsRecordType::Cname => 2,
            DnsRecordType::Txt => 3,
            DnsRecordType::Mx => 4,
        }
    }
}

/// What tells the records of a zone apart: their name and their kind.
pub struct DnsRecordKey {
    pub name: String,
    pub record_type: DnsRecordType,
}

/// The name and the kind of a record.
pub open spec fn record_key(record: DnsRecordView) -> (Seq<char>, DnsRecordType) {
    (record.name, record.record_type)
}

impl MapKey for DnsRecordKey {
    type Model = (Seq<char>, DnsRecordType);

    open spec fn model(&self) -> (Seq<char>, DnsRecordType) {
        (self.name@, self.record_type)
    }

    open spec fn before(a: (Seq<char>, DnsRecordType), b: (Seq<char>, DnsRecordType)) -> bool {
        order::text_before(a.0, b.0) || (a.0 == b.0 && a.1.rank() < b.1.rank())
    }

    proof fn order_is_total(
        a: (Seq<char>, DnsRecordType),
        b: (Seq<char>, DnsRecordType),
        c: (Seq<char>, DnsRecordType),
    ) {
        order::law_text_order(a.0, b.0, c.0);
    }

    fn compare(&self, other: &Self) -> (r: KeyOrder) {
        match order::compare_text(self.name.as_str(), other.name.as_str()) {
            KeyOrder::Before => KeyOrder::Before,
            KeyOrder::After => KeyOrder::After,
            KeyOrder::Same => {
                let left: u8 = self.record_type.place();
                let right: u8 = other.record_type.place();
                if left < right {
                    KeyOrder::Before
                } else if left == right {
                    KeyOrder::Same
                } else {
                    KeyOrder::After
                }
            },
        }
    }
}

/// Records are ordered by their names. Under one name the kinds come in the order
/// A, AAAA, CNAME, TXT, MX.
pub proof fn law_records_are_ordered_by_name_and_kind(
    a: Seq<char>,
    b: Seq<char>,
    s: DnsRecordType,
    t: DnsRecordType,
)
    ensures
        order::text_before(a, b) ==> <DnsRecordKey as MapKey>::before((a, s), (b, t)),
        order::text_before(b, a) ==> !<DnsRecordKey as MapKey>::before((a, s), (b, t)),
        <DnsRecordKey as MapKey>::before((a, DnsRecordType::A), (a, DnsRecordType::Aaaa)),
        <DnsRecordKey as MapKey>::before((a, DnsRecordType::Aaaa), (a, DnsRecordType::Cname)),
        <DnsRecordKey as MapKey>::before((a, DnsRecordType::Cname), (a, DnsRecordType::Txt)),
        <DnsRecordKey as MapKey>::before((a, DnsRecordType::Txt), (a, DnsRecordType::Mx)),
{
    order::law_text_order(a, b, a);
}

} // verus!
