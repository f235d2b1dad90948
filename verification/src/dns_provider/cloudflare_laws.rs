//! What holds of the calls to Cloudflare and of what it lists, whatever the
//! records are.

use crate::api::ApiMethod;
use crate::dns_provider::cloudflare::{CloudflareApiError, CloudflareRecordView, CloudflareZone};
use crate::dns_provider::{
    cloudflare, DnsChangeView, DnsProviderErrorView, DnsRecordType, DnsRecordView,
};
use crate::text;
use vstd::prelude::*;

verus! {

/// What a creation or an update sends comes back: a record that the API keeps as
/// the call told it is listed as managed, and it reads back as the record of the
/// change. Only a time to live of 1 comes back as the choice of the provider.
pub proof fn law_sent_record_reads_back(zone_id: Seq<char>, record: DnsRecordView, id: Seq<char>)
    ensures
        ({
            let back = DnsRecordView {
                id: Some(id),
                ttl: if record.ttl == Some(1u32) {
                    None
                } else {
                    record.ttl
                },
                ..record
            };
            let created = cloudflare::record_call_of(zone_id, DnsChangeView::Create(record)).body;
            let updated = cloudflare::record_call_of(
                zone_id,
                DnsChangeView::Update { id, record },
            ).body;
            &&& created is Some
            &&& cloudflare::kept_record(created->0, id).managed()
            &&& cloudflare::kept_record(created->0, id).record() == Ok::<
                DnsRecordView,
                DnsProviderErrorView,
            >(back)
            &&& updated is Some
            &&& cloudflare::kept_record(updated->0, id).managed()
            &&& cloudflare::kept_record(updated->0, id).record() == Ok::<
                DnsRecordView,
                DnsProviderErrorView,
            >(back)
        }),
{
    if record.ttl == Some(1u32) {
        cloudflare::law_kept_record_reads_back(DnsRecordView { ttl: None, ..record }, id);
    } else {
        cloudflare::law_kept_record_reads_back(record, id);
    }
}

/// What a creation or an update sends is the name, the kind, the value and the
/// time to live of the record, 1 where the provider chooses, and the marker.
pub proof fn law_sent_record_is_the_record(zone_id: Seq<char>, record: DnsRecordView, id: Seq<char>)
    ensures
        ({
            let created = cloudflare::record_call_of(zone_id, DnsChangeView::Create(record)).body;
            let updated = cloudflare::record_call_of(
                zone_id,
                DnsChangeView::Update { id, record },
            ).body;
            &&& created is Some
            &&& updated == created
            &&& created->0.name == record.name
            &&& created->0.content == record.value
            &&& created->0.comment == "managed-by:avel-pilot"@
            &&& record.record_type is A <==> created->0.record_type == "A"@
            &&& record.record_type is Aaaa <==> created->0.record_type == "AAAA"@
            &&& record.record_type is Cname <==> created->0.record_type == "CNAME"@
            &&& record.record_type is Txt <==> created->0.record_type == "TXT"@
            &&& record.record_type is Mx <==> created->0.record_type == "MX"@
            &&& record.ttl is None ==> created->0.ttl == 1
            &&& record.ttl is Some ==> created->0.ttl == record.ttl->0
        }),
{
    lemma_kinds_differ();
}

proof fn lemma_kinds_differ()
    ensures
        "A"@.len() == 1,
        "AAAA"@.len() == 4,
        "CNAME"@.len() == 5,
        "TXT"@.len() == 3,
        "MX"@.len() == 2,
{
    reveal_strlit("A");
    reveal_strlit("AAAA");
    reveal_strlit("CNAME");
    reveal_strlit("TXT");
    reveal_strlit("MX");
}

/// A creation is posted to the records of the zone. An update patches and a
/// deletion deletes the one record of the id, and a deletion sends nothing else.
pub proof fn law_record_calls_are_addressed(
    zone_id: Seq<char>,
    record: DnsRecordView,
    id: Seq<char>,
)
    ensures
        ({
            let created = cloudflare::record_call_of(zone_id, DnsChangeView::Create(record));
            let updated = cloudflare::record_call_of(zone_id, DnsChangeView::Update { id, record });
            let deleted = cloudflare::record_call_of(zone_id, DnsChangeView::Delete { id });
            &&& created.method == ApiMethod::Post
            &&& created.path == "/zones/"@ + zone_id + "/dns_records"@
            &&& updated.method == ApiMethod::Patch
            &&& updated.path == "/zones/"@ + zone_id + "/dns_records/"@ + id
            &&& deleted.method == ApiMethod::Delete
            &&& deleted.path == updated.path
            &&& deleted.body is None
        }),
{
    reveal_strlit("/dns_records");
    reveal_strlit("/");
    reveal_strlit("/dns_records/");
    assert("/dns_records"@ + "/"@ =~= "/dns_records/"@);
    assert(cloudflare::records_path_of(zone_id) + "/"@ + id =~= "/zones/"@ + zone_id
        + "/dns_records/"@ + id);
}

/// A record is managed exactly when the marker stands somewhere in its comment.
pub proof fn law_marked_record_is_managed(record: CloudflareRecordView)
    ensures
        record.managed() <==> exists|before: Seq<char>, after: Seq<char>|
            record.comment == Some(#[trigger] (before + "managed-by:avel-pilot"@ + after)),
{
    let marker = "managed-by:avel-pilot"@;
    if record.managed() {
        text::law_part_stands_between(record.comment->0, marker);
    }
    if exists|before: Seq<char>, after: Seq<char>|
        record.comment == Some(#[trigger] (before + marker + after)) {
        text::law_part_stands_between(record.comment->0, marker);
    }
}

/// A listed record is read exactly when its kind is one of the five, with its id,
/// its name, its value and its time to live, where 1 is the choice of the
/// provider. Otherwise the kind is named in the error.
pub proof fn law_listed_record_is_read(listed: CloudflareRecordView)
    ensures
        match listed.record() {
            Ok(record) => {
                &&& record.id == Some(listed.id)
                &&& record.name == listed.name
                &&& record.value == listed.content
                &&& record.ttl == if listed.ttl == 1 {
                    None
                } else {
                    Some(listed.ttl)
                }
                &&& match record.record_type {
                    DnsRecordType::A => listed.record_type == "A"@,
                    DnsRecordType::Aaaa => listed.record_type == "AAAA"@,
                    DnsRecordType::Cname => listed.record_type == "CNAME"@,
                    DnsRecordType::Txt => listed.record_type == "TXT"@,
                    DnsRecordType::Mx => listed.record_type == "MX"@,
                }
            },
            Err(error) => {
                &&& error == DnsProviderErrorView::UnsupportedRecordType(listed.record_type)
                &&& listed.record_type != "A"@
                &&& listed.record_type != "AAAA"@
                &&& listed.record_type != "CNAME"@
                &&& listed.record_type != "TXT"@
                &&& listed.record_type != "MX"@
            },
        },
{
    lemma_kinds_differ();
}

/// The managed records of two lists, one after the other, are those of the first
/// and then those of the second, unless one of the lists holds an error: then the
/// first error counts.
pub proof fn law_managed_records_of_joined_lists(
    a: Seq<CloudflareRecordView>,
    b: Seq<CloudflareRecordView>,
)
    ensures
        cloudflare::managed_of(a + b) == match (
            cloudflare::managed_of(a),
            cloudflare::managed_of(b),
        ) {
            (Ok(first), Ok(second)) => Ok(first + second),
            (Err(error), _) => Err(error),
            (_, Err(error)) => Err(error),
        },
        cloudflare::managed_count(a + b) == cloudflare::managed_count(a)
            + cloudflare::managed_count(b),
    decreases b.len(),
{
    if b.len() == 0 {
        assert(a + b =~= a);
        if let Ok(first) = cloudflare::managed_of(a) {
            assert(first + Seq::<DnsRecordView>::empty() =~= first);
        }
    } else {
        assert((a + b).drop_last() =~= a + b.drop_last());
        assert((a + b).last() == b.last());
        law_managed_records_of_joined_lists(a, b.drop_last());
        if let (Ok(first), Ok(second)) = (
            cloudflare::managed_of(a),
            cloudflare::managed_of(b.drop_last()),
        ) {
            if let Ok(record) = b.last().record() {
                assert((first + second).push(record) =~= first + second.push(record));
            }
        }
    }
}

/// Of a list of one record, that record is managed if its comment holds the
/// marker, and otherwise nothing is.
pub proof fn law_one_record_is_managed_or_not(record: CloudflareRecordView)
    ensures
        !record.managed() ==> cloudflare::managed_of(seq![record]) == Ok::<
            Seq<DnsRecordView>,
            DnsProviderErrorView,
        >(Seq::empty()),
        record.managed() ==> match record.record() {
            Ok(read) => cloudflare::managed_of(seq![record]) == Ok::<
                Seq<DnsRecordView>,
                DnsProviderErrorView,
            >(seq![read]),
            Err(error) => cloudflare::managed_of(seq![record]) == Err::<
                Seq<DnsRecordView>,
                DnsProviderErrorView,
            >(error),
        },
        cloudflare::managed_count(seq![record]) == if record.managed() {
            1nat
        } else {
            0nat
        },
        cloudflare::managed_of(Seq::empty()) == Ok::<Seq<DnsRecordView>, DnsProviderErrorView>(
            Seq::empty(),
        ),
        cloudflare::managed_count(Seq::empty()) == 0,
{
    let none = Seq::<CloudflareRecordView>::empty();
    assert(seq![record].drop_last() =~= none);
    assert(cloudflare::managed_of(none) == Ok::<Seq<DnsRecordView>, DnsProviderErrorView>(
        Seq::empty(),
    ));
    assert(cloudflare::managed_count(none) == 0);
    if let Ok(read) = record.record() {
        assert(Seq::<DnsRecordView>::empty().push(read) =~= seq![read]);
    }
}

/// As many records are counted as managed as are read.
pub proof fn law_managed_records_are_counted(records: Seq<CloudflareRecordView>)
    requires
        cloudflare::managed_of(records) is Ok,
    ensures
        cloudflare::managed_of(records)->Ok_0.len() == cloudflare::managed_count(records),
    decreases records.len(),
{
    if records.len() > 0 {
        law_managed_records_are_counted(records.drop_last());
    }
}

/// The zone of a name is the first that has the name, and there is none where no
/// zone has it.
pub proof fn law_first_zone_of_the_name_counts(zones: Seq<CloudflareZone>, zone: Seq<char>, at: int)
    requires
        0 <= at <= zones.len(),
        forall|i: int| 0 <= i < at ==> (#[trigger] zones[i]).name@ != zone,
        at < zones.len() ==> zones[at].name@ == zone,
    ensures
        cloudflare::zone_id_of(zones, zone) == if at < zones.len() {
            Some(zones[at].id@)
        } else {
            None
        },
    decreases zones.len(),
{
    if zones.len() > 0 {
        let before = zones.drop_last();
        if at == zones.len() {
            assert(zones[zones.len() - 1].name@ != zone);
            law_first_zone_of_the_name_counts(before, zone, at - 1);
        } else {
            law_first_zone_of_the_name_counts(before, zone, at);
        }
    }
}

/// What a failed answer reports is the first of its errors, and an unknown one
/// where it names none.
pub proof fn law_first_error_is_reported(errors: Seq<CloudflareApiError>)
    ensures
        errors.len() > 0 ==> cloudflare::reported(errors) == (DnsProviderErrorView::Api {
            code: errors.first().code,
            message: errors.first().message@,
        }),
        errors.len() == 0 ==> cloudflare::reported(errors) == (DnsProviderErrorView::Api {
            code: 0,
            message: "Unknown Cloudflare API error"@,
        }),
{
}

} // verus!
