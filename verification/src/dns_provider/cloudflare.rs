//! Cloudflare: what its API says and is told.

use crate::api::ApiMethod;
use crate::dns_provider::{
    Dns01ProviderConfig, DnsChange, DnsChangeView, DnsProviderError, DnsProviderErrorView,
    DnsRecord, DnsRecordId, DnsRecordType, DnsRecordView, DnsSummary,
};
use crate::{dns_provider, text};
use vstd::hash_map::StringHashMap;
use vstd::prelude::*;
use vstd::string::StringExecFns;

verus! {

/// Where the API is.
pub const CLOUDFLARE_API_URL: &'static str = "https://api.cloudflare.com/client/v4";

/// What the comment of a record holds when it is managed.
pub const MANAGED_COMMENT: &'static str = "managed-by:avel-pilot";

/// Where the zones are.
pub const ZONES_PATH: &'static str = "/zones";

/// What went wrong, as the API reports it.
pub struct CloudflareApiError {
    pub code: u32,
    pub message: String,
}

/// An answer of the API.
pub struct CloudflareResponse<T> {
    pub success: bool,
    pub result: T,
    pub errors: Vec<CloudflareApiError>,
    pub messages: Vec<CloudflareApiError>,
}

/// The error of an answer that reports a failure: the first that it names.
pub open spec fn reported(errors: Seq<CloudflareApiError>) -> DnsProviderErrorView {
    if errors.len() > 0 {
        DnsProviderErrorView::Api { code: errors[0].code, message: errors[0].message@ }
    } else {
        DnsProviderErrorView::Api { code: 0, message: "Unknown Cloudflare API error"@ }
    }
}

impl<T> CloudflareResponse<T> {
    /// The result of the answer, or the error that it reports.
    pub fn into_result(self) -> (r: Result<T, DnsProviderError>)
        ensures
            if self.success {
                r is Ok && r->Ok_0 == self.result
            } else {
                r is Err && r->Err_0@ == reported(self.errors@)
            },
    {
        if self.success {
            return Ok(self.result);
        }
        if self.errors.len() > 0 {
            let first = &self.errors[0];
            Err(DnsProviderError::Api { code: first.code, message: first.message.clone() })
        } else {
            Err(
                DnsProviderError::Api {
                    code: 0,
                    message: "Unknown Cloudflare API error".to_owned(),
                },
            )
        }
    }
}

/// A zone as the API lists it.
pub struct CloudflareZone {
    pub id: String,
    pub name: String,
}

/// The id of the first zone of a name.
pub open spec fn zone_id_of(zones: Seq<CloudflareZone>, zone: Seq<char>) -> Option<Seq<char>>
    decreases zones.len(),
{
    if zones.len() == 0 {
        None
    } else {
        match zone_id_of(zones.drop_last(), zone) {
            Some(id) => Some(id),
            None => if zones.last().name@ == zone {
                Some(zones.last().id@)
            } else {
                None
            },
        }
    }
}

proof fn lemma_zone_id_stays(zones: Seq<CloudflareZone>, k: int, zone: Seq<char>)
    requires
        0 <= k <= zones.len(),
        zone_id_of(zones.take(k), zone) is Some,
    ensures
        zone_id_of(zones, zone) == zone_id_of(zones.take(k), zone),
    decreases zones.len() - k,
{
    if k == zones.len() {
        assert(zones.take(k) =~= zones);
    } else {
        assert(zones.take(k + 1).drop_last() =~= zones.take(k));
        lemma_zone_id_stays(zones, k + 1, zone);
    }
}

/// The id of the zone among those that the API lists.
pub fn find_zone_id(zones: &[CloudflareZone], zone: &str) -> (r: Result<String, DnsProviderError>)
    ensures
        match zone_id_of(zones@, zone@) {
            Some(id) => r is Ok && r->Ok_0@ == id,
            None => r is Err && r->Err_0@ == DnsProviderErrorView::ZoneNotFound(zone@),
        },
{
    let mut i: usize = 0;
    while i < zones.len()
        invariant
            i <= zones@.len(),
            zone_id_of(zones@.take(i as int), zone@) is None,
        decreases zones@.len() - i,
    {
        assert(zones@.take(i + 1).drop_last() =~= zones@.take(i as int));
        if text::text_eq(zones[i].name.as_str(), zone) {
            proof {
                lemma_zone_id_stays(zones@, i + 1, zone@);
            }
            return Ok(zones[i].id.clone());
        }
        i = i + 1;
    }
    assert(zones@.take(i as int) =~= zones@);
    Err(DnsProviderError::ZoneNotFound(zone.to_owned()))
}

/// A record as the API lists it.
pub struct CloudflareRecord {
    pub id: String,
    pub name: String,
    pub record_type: String,
    pub content: String,
    pub ttl: u32,
    pub comment: Option<String>,
}

/// What a [`CloudflareRecord`] holds.
pub struct CloudflareRecordView {
    pub id: Seq<char>,
    pub name: Seq<char>,
    pub record_type: Seq<char>,
    pub content: Seq<char>,
    pub ttl: u32,
    pub comment: Option<Seq<char>>,
}

impl View for CloudflareRecord {
    type V = CloudflareRecordView;

    open spec fn view(&self) -> CloudflareRecordView {
        CloudflareRecordView {
            id: self.id@,
            name: self.name@,
            record_type: self.record_type@,
            content: self.content@,
            ttl: self.ttl,
            comment: text::opt_text(self.comment),
        }
    }
}

/// The kind of records of a name.
pub open spec fn record_type_named(name: Seq<char>) -> Option<DnsRecordType> {
    if name == "A"@ {
        Some(DnsRecordType::A)
    } else if name == "AAAA"@ {
        Some(DnsRecordType::Aaaa)
    } else if name == "CNAME"@ {
        Some(DnsRecordType::Cname)
    } else if name == "TXT"@ {
        Some(DnsRecordType::Txt)
    } else if name == "MX"@ {
        Some(DnsRecordType::Mx)
    } else {
        None
    }
}

impl CloudflareRecordView {
    /// Whether the record is managed.
    pub open spec fn managed(self) -> bool {
        match self.comment {
            Some(comment) => text::contains_text(comment, MANAGED_COMMENT@),
            None => false,
        }
    }

    /// The record that the API means, unless its kind is unknown. A time to live
    /// of 1 leaves the choice to the provider.
    pub open spec fn record(self) -> Result<DnsRecordView, DnsProviderErrorView> {
        match record_type_named(self.record_type) {
            None => Err(DnsProviderErrorView::UnsupportedRecordType(self.record_type)),
            Some(record_type) => Ok(
                DnsRecordView {
                    id: Some(self.id),
                    name: self.name,
                    record_type,
                    value: self.content,
                    ttl: if self.ttl != 1 {
                        Some(self.ttl)
                    } else {
                        None
                    },
                },
            ),
        }
    }
}

impl CloudflareRecord {
    /// Whether the record is managed.
    pub fn is_managed(&self) -> (r: bool)
        ensures
            r == self@.managed(),
    {
        match &self.comment {
            Some(comment) => text::contains(comment.as_str(), MANAGED_COMMENT),
            None => false,
        }
    }
}

impl DnsRecord {
    /// The record that the API means. Only the kinds of [`DnsRecordType`] are
    /// supported.
    pub fn try_from(record: CloudflareRecord) -> (r: Result<DnsRecord, DnsProviderError>)
        ensures
            match record@.record() {
                Ok(want) => r is Ok && r->Ok_0@ == want,
                Err(error) => r is Err && r->Err_0@ == error,
            },
    {
        let name = record.record_type.as_str();
        let record_type = if text::text_eq(name, "A") {
            DnsRecordType::A
        } else if text::text_eq(name, "AAAA") {
            DnsRecordType::Aaaa
        } else if text::text_eq(name, "CNAME") {
            DnsRecordType::Cname
        } else if text::text_eq(name, "TXT") {
            DnsRecordType::Txt
        } else if text::text_eq(name, "MX") {
            DnsRecordType::Mx
        } else {
            return Err(DnsProviderError::UnsupportedRecordType(record.record_type));
        };
        Ok(
            DnsRecord {
                id: Some(DnsRecordId(record.id)),
                name: record.name,
                record_type,
                value: record.content,
                ttl: if record.ttl != 1 {
                    Some(record.ttl)
                } else {
                    None
                },
            },
        )
    }
}

/// What a list of listed records holds.
pub open spec fn cloudflare_records_view(records: Seq<CloudflareRecord>) -> Seq<
    CloudflareRecordView,
> {
    records.map_values(|r: CloudflareRecord| r@)
}

/// The managed records of a list, or the error of the first of them that is not
/// supported.
pub open spec fn managed_of(records: Seq<CloudflareRecordView>) -> Result<
    Seq<DnsRecordView>,
    DnsProviderErrorView,
>
    decreases records.len(),
{
    if records.len() == 0 {
        Ok(Seq::empty())
    } else {
        match managed_of(records.drop_last()) {
            Err(error) => Err(error),
            Ok(before) => if !records.last().managed() {
                Ok(before)
            } else {
                match records.last().record() {
                    Err(error) => Err(error),
                    Ok(record) => Ok(before.push(record)),
                }
            },
        }
    }
}

proof fn lemma_managed_error_stays(records: Seq<CloudflareRecordView>, k: int)
    requires
        0 <= k <= records.len(),
        managed_of(records.take(k)) is Err,
    ensures
        managed_of(records) == managed_of(records.take(k)),
    decreases records.len() - k,
{
    if k == records.len() {
        assert(records.take(k) =~= records);
    } else {
        assert(records.take(k + 1).drop_last() =~= records.take(k));
        lemma_managed_error_stays(records, k + 1);
    }
}

/// The managed records of the list.
pub fn managed_records(records: Vec<CloudflareRecord>) -> (r: Result<
    Vec<DnsRecord>,
    DnsProviderError,
>)
    ensures
        match managed_of(cloudflare_records_view(records@)) {
            Ok(want) => r is Ok && dns_provider::records_view(r->Ok_0@) == want,
            Err(error) => r is Err && r->Err_0@ == error,
        },
{
    let ghost all = cloudflare_records_view(records@);
    let mut left = records;
    let mut out: Vec<DnsRecord> = Vec::new();
    let ghost mut done: int = 0;
    assert(dns_provider::records_view(out@) =~= Seq::empty());
    while left.len() > 0
        invariant
            0 <= done <= all.len(),
            all == cloudflare_records_view(records@),
            cloudflare_records_view(left@) == all.skip(done),
            managed_of(all.take(done)) is Ok,
            dns_provider::records_view(out@) == managed_of(all.take(done))->Ok_0,
        decreases left.len(),
    {
        assert(cloudflare_records_view(left@).len() == left@.len());
        let ghost before = left@;
        let record = left.remove(0);
        proof {
            assert(record@ == all.skip(done)[0]);
            assert(cloudflare_records_view(left@) =~= all.skip(done + 1)) by {
                assert forall|i: int| 0 <= i < left@.len() implies cloudflare_records_view(
                    left@,
                )[i] == all.skip(done + 1)[i] by {
                    assert(cloudflare_records_view(before)[i + 1] == all.skip(done)[i + 1]);
                }
            }
            assert(all.take(done + 1).drop_last() =~= all.take(done));
            assert(all.take(done + 1).last() == record@);
        }
        if record.is_managed() {
            match DnsRecord::try_from(record) {
                Ok(found) => {
                    let ghost held = out@;
                    out.push(found);
                    assert(dns_provider::records_view(out@) =~= dns_provider::records_view(
                        held,
                    ).push(found@));
                },
                Err(error) => {
                    proof {
                        lemma_managed_error_stays(all, done + 1);
                    }
                    return Err(error);
                },
            }
        }
        proof {
            done = done + 1;
        }
    }
    assert(cloudflare_records_view(left@).len() == 0);
    assert(all.take(done) =~= all);
    Ok(out)
}

/// How many records of a list are managed.
pub open spec fn managed_count(records: Seq<CloudflareRecordView>) -> nat
    decreases records.len(),
{
    if records.len() == 0 {
        0
    } else {
        managed_count(records.drop_last()) + if records.last().managed() {
            1nat
        } else {
            0nat
        }
    }
}

/// A record as the API is told.
pub struct CloudflareRecordRequest<'a> {
    pub record_type: &'a str,
    pub name: &'a str,
    pub content: &'a str,
    pub ttl: u32,
    pub comment: &'a str,
}

/// What a [`CloudflareRecordRequest`] holds.
pub struct CloudflareRecordRequestView {
    pub record_type: Seq<char>,
    pub name: Seq<char>,
    pub content: Seq<char>,
    pub ttl: u32,
    pub comment: Seq<char>,
}

impl<'a> View for CloudflareRecordRequest<'a> {
    type V = CloudflareRecordRequestView;

    open spec fn view(&self) -> CloudflareRecordRequestView {
        CloudflareRecordRequestView {
            record_type: self.record_type@,
            name: self.name@,
            content: self.content@,
            ttl: self.ttl,
            comment: self.comment@,
        }
    }
}

/// What the API is told of a record, which is marked as managed.
pub open spec fn record_request(record: DnsRecordView) -> CloudflareRecordRequestView {
    CloudflareRecordRequestView {
        record_type: record.record_type.name(),
        name: record.name,
        content: record.value,
        ttl: match record.ttl {
            Some(ttl) => ttl,
            None => 1,
        },
        comment: MANAGED_COMMENT@,
    }
}

impl<'a> CloudflareRecordRequest<'a> {
    /// What the API is told of the record.
    pub fn from(record: &'a DnsRecord) -> (r: CloudflareRecordRequest<'a>)
        ensures
            r@ == record_request(record@),
    {
        CloudflareRecordRequest {
            record_type: record.record_type.as_name(),
            name: record.name.as_str(),
            content: record.value.as_str(),
            ttl: match record.ttl {
                Some(ttl) => ttl,
                None => 1,
            },
            comment: MANAGED_COMMENT,
        }
    }
}

/// A call that changes a record.
pub struct CloudflareCall<'a> {
    pub method: ApiMethod,
    pub path: String,
    pub body: Option<CloudflareRecordRequest<'a>>,
}

/// What a [`CloudflareCall`] holds.
pub struct CloudflareCallView {
    pub method: ApiMethod,
    pub path: Seq<char>,
    pub body: Option<CloudflareRecordRequestView>,
}

impl<'a> View for CloudflareCall<'a> {
    type V = CloudflareCallView;

    open spec fn view(&self) -> CloudflareCallView {
        CloudflareCallView {
            method: self.method,
            path: self.path@,
            body: match self.body {
                Some(body) => Some(body@),
                None => None,
            },
        }
    }
}

/// Where the records of a zone are.
pub open spec fn records_path_of(zone_id: Seq<char>) -> Seq<char> {
    "/zones/"@ + zone_id + "/dns_records"@
}

/// Where all records of the zone are listed.
pub fn list_path(zone_id: &str) -> (r: String)
    ensures
        r@ == records_path_of(zone_id@) + "?per_page=5000"@,
{
    let mut out = records_path(zone_id);
    out.append("?per_page=5000");
    out
}

/// Where the records of the zone are.
pub fn records_path(zone_id: &str) -> (r: String)
    ensures
        r@ == records_path_of(zone_id@),
{
    text::join3("/zones/", zone_id, "/dns_records")
}

fn record_path(zone_id: &str, id: &DnsRecordId) -> (r: String)
    ensures
        r@ == records_path_of(zone_id@) + "/"@ + id@,
{
    let mut out = records_path(zone_id);
    out.append("/");
    out.append(id.0.as_str());
    out
}

/// The call that makes a change to the records of a zone.
pub open spec fn record_call_of(zone_id: Seq<char>, change: DnsChangeView) -> CloudflareCallView {
    match change {
        DnsChangeView::Create(record) => CloudflareCallView {
            method: ApiMethod::Post,
            path: records_path_of(zone_id),
            body: Some(record_request(record)),
        },
        DnsChangeView::Update { id, record } => CloudflareCallView {
            method: ApiMethod::Patch,
            path: records_path_of(zone_id) + "/"@ + id,
            body: Some(record_request(record)),
        },
        DnsChangeView::Delete { id } => CloudflareCallView {
            method: ApiMethod::Delete,
            path: records_path_of(zone_id) + "/"@ + id,
            body: None,
        },
    }
}

/// The call that makes the change to the records of the zone.
pub fn record_call<'a>(zone_id: &str, change: &'a DnsChange) -> (r: CloudflareCall<'a>)
    ensures
        r@ == record_call_of(zone_id@, change@),
{
    match change {
        DnsChange::Create(record) => CloudflareCall {
            method: ApiMethod::Post,
            path: records_path(zone_id),
            body: Some(CloudflareRecordRequest::from(record)),
        },
        DnsChange::Update { id, record } => CloudflareCall {
            method: ApiMethod::Patch,
            path: record_path(zone_id, id),
            body: Some(CloudflareRecordRequest::from(record)),
        },
        DnsChange::Delete { id } => CloudflareCall {
            method: ApiMethod::Delete,
            path: record_path(zone_id, id),
            body: None,
        },
    }
}

/// The account that is acted for, and the ids of the zones that are known.
pub struct CloudflareDnsProvider {
    pub api_token: String,
    pub zone_cache: StringHashMap<String>,
}

impl CloudflareDnsProvider {
    /// The account of a token. No zone is known at first.
    pub fn new(api_token: String) -> (r: CloudflareDnsProvider)
        ensures
            r.api_token == api_token,
            r.zone_cache@ == Map::<Seq<char>, String>::empty(),
    {
        CloudflareDnsProvider { api_token, zone_cache: StringHashMap::new() }
    }

    /// The URL of a path.
    pub fn url(path: &str) -> (r: String)
        ensures
            r@ == CLOUDFLARE_API_URL@ + path@,
    {
        text::join2(CLOUDFLARE_API_URL, path)
    }

    /// The id of a zone that is known.
    pub fn cached_zone_id(&self, zone: &str) -> (r: Option<String>)
        ensures
            match r {
                Some(id) => self.zone_cache@.contains_key(zone@) && id@
                    == self.zone_cache@[zone@]@,
                None => !self.zone_cache@.contains_key(zone@),
            },
    {
        match self.zone_cache.get(zone) {
            Some(id) => Some(id.clone()),
            None => None,
        }
    }

    /// The id of a zone from the answer of the API, which is then known.
    /// Nothing is learnt from an answer without it.
    pub fn resolve_zone_id(
        &mut self,
        zone: &str,
        response: CloudflareResponse<Vec<CloudflareZone>>,
    ) -> (r: Result<String, DnsProviderError>)
        ensures
            final(self).api_token == old(self).api_token,
            if !response.success {
                &&& r is Err
                &&& r->Err_0@ == reported(response.errors@)
                &&& final(self).zone_cache@ == old(self).zone_cache@
            } else {
                match zone_id_of(response.result@, zone@) {
                    Some(id) => {
                        &&& r is Ok
                        &&& r->Ok_0@ == id
                        &&& final(self).zone_cache@ == old(self).zone_cache@.insert(
                            zone@,
                            r->Ok_0,
                        )
                    },
                    None => {
                        &&& r is Err
                        &&& r->Err_0@ == DnsProviderErrorView::ZoneNotFound(zone@)
                        &&& final(self).zone_cache@ == old(self).zone_cache@
                    },
                }
            },
    {
        let zones = match response.into_result() {
            Ok(zones) => zones,
            Err(error) => {
                return Err(error);
            },
        };
        let id = match find_zone_id(zones.as_slice(), zone) {
            Ok(id) => id,
            Err(error) => {
                return Err(error);
            },
        };
        self.zone_cache.insert(zone.to_owned(), id.clone());
        Ok(id)
    }

    /// What a certificate authority is told: the provider is Cloudflare, and the
    /// token opens the zone.
    pub fn dns01_provider_config(&self) -> (r: Option<Dns01ProviderConfig>)
        ensures
            r is Some,
            r->0.provider@ == "cloudflare"@,
            r->0.credentials@ == "dns_cloudflare_api_token="@ + self.api_token@,
            r->0.propagation_seconds is None,
    {
        Some(
            Dns01ProviderConfig {
                provider: "cloudflare".to_owned(),
                credentials: text::join2("dns_cloudflare_api_token=", self.api_token.as_str()),
                propagation_seconds: None,
            },
        )
    }

    /// How many of the listed records are managed and how many are not.
    pub fn summary(records: &[CloudflareRecord]) -> (r: DnsSummary)
        ensures
            r.managed == managed_count(cloudflare_records_view(records@)),
            r.managed + r.unmanaged == records@.len(),
    {
        let ghost all = cloudflare_records_view(records@);
        let mut count: usize = 0;
        let mut i: usize = 0;
        while i < records.len()
            invariant
                i <= records.len(),
                count <= i,
                all == cloudflare_records_view(records@),
                count == managed_count(all.take(i as int)),
            decreases records@.len() - i,
        {
            assert(all.take(i + 1).drop_last() =~= all.take(i as int));
            assert(all.take(i + 1).last() == records@[i as int]@);
            if records[i].is_managed() {
                count = count + 1;
            }
            i = i + 1;
        }
        assert(all.take(i as int) =~= all);
        DnsSummary { managed: count, unmanaged: records.len() - count }
    }
}

/// A record that the API keeps as it was told, under an id.
pub open spec fn kept_record(
    request: CloudflareRecordRequestView,
    id: Seq<char>,
) -> CloudflareRecordView {
    CloudflareRecordView {
        id,
        name: request.name,
        record_type: request.record_type,
        content: request.content,
        ttl: request.ttl,
        comment: Some(request.comment),
    }
}

/// A record that the API keeps as it was told is listed as managed, and it reads
/// back as the same record. A time to live of 1 is the one that does not come
/// back: the API takes it for leaving the choice to the provider.
pub proof fn law_kept_record_reads_back(record: DnsRecordView, id: Seq<char>)
    requires
        record.ttl != Some(1u32),
    ensures
        kept_record(record_request(record), id).managed(),
        kept_record(record_request(record), id).record() == Ok::<
            DnsRecordView,
            DnsProviderErrorView,
        >(DnsRecordView { id: Some(id), ..record }),
{
    reveal_strlit("A");
    reveal_strlit("AAAA");
    reveal_strlit("CNAME");
    reveal_strlit("TXT");
    reveal_strlit("MX");
    assert("A"@.len() == 1);
    assert("AAAA"@.len() == 4);
    assert("CNAME"@.len() == 5);
    assert("TXT"@.len() == 3);
    assert("MX"@.len() == 2);
    assert(text::occurs_at(MANAGED_COMMENT@, MANAGED_COMMENT@, 0)) by {
        assert(MANAGED_COMMENT@.subrange(0, MANAGED_COMMENT@.len() as int) =~= MANAGED_COMMENT@);
    }
}

} // verus!
