//! The notation of IP addresses, by which the kind of a DNS target is told.

use crate::dns_provider::DnsRecordType;
use crate::text;
use vstd::prelude::*;

verus! {

/// A number from 0 to 255 in decimal notation without leading zeros.
pub open spec fn is_octet(s: Seq<char>) -> bool {
    &&& 1 <= s.len() <= 3
    &&& text::all_digits(s)
    &&& s.len() > 1 ==> s[0] != '0'
    &&& text::decimal_value(s) <= 255
}

/// An IPv4 address: four octets with dots between them.
pub open spec fn is_ipv4(s: Seq<char>) -> bool {
    let parts = text::fields(s, seq!['.']);
    parts.len() == 4 && forall|i: int| 0 <= i < 4 ==> is_octet(#[trigger] parts[i])
}

/// A hexadecimal digit.
pub open spec fn is_hex_digit(c: char) -> bool {
    text::is_digit(c) || ('a' <= c && c <= 'f') || ('A' <= c && c <= 'F')
}

/// A group of an IPv6 address: one to four hexadecimal digits.
pub open spec fn is_hextet(s: Seq<char>) -> bool {
    1 <= s.len() <= 4 && forall|i: int| 0 <= i < s.len() ==> is_hex_digit(#[trigger] s[i])
}

/// How many groups of an IPv6 address a text denotes: none if it is empty, else
/// one for each of its parts between colons. The last part may be an IPv4
/// address, which takes the place of two groups, where `embedded` says so.
pub open spec fn group_count(s: Seq<char>, embedded: bool) -> Option<nat> {
    let parts = text::fields(s, seq![':']);
    if s.len() == 0 {
        Some(0)
    } else if forall|i: int| 0 <= i < parts.len() - 1 ==> is_hextet(#[trigger] parts[i]) {
        if is_hextet(parts.last()) {
            Some(parts.len())
        } else if embedded && is_ipv4(parts.last()) {
            Some(parts.len() + 1)
        } else {
            None
        }
    } else {
        None
    }
}

/// Whether `s` is an IPv6 address whose missing groups the two colons at `at`
/// stand for.
pub open spec fn is_compressed_at(s: Seq<char>, at: int) -> bool {
    &&& 0 <= at
    &&& at + 2 <= s.len()
    &&& s[at] == ':'
    &&& s[at + 1] == ':'
    &&& match (group_count(s.take(at), false), group_count(s.skip(at + 2), true)) {
        (Some(head), Some(tail)) => head + tail <= 7,
        _ => false,
    }
}

/// An IPv6 address: eight groups with colons between them, or fewer with a
/// double colon in place of the missing ones.
pub open spec fn is_ipv6(s: Seq<char>) -> bool {
    group_count(s, true) == Some(8nat) || exists|at: int| #[trigger] is_compressed_at(s, at)
}

/// The kind of the record that points to a host: an address record for an IP
/// address, an alias for anything else.
pub open spec fn target_type(host: Seq<char>) -> DnsRecordType {
    if is_ipv4(host) {
        DnsRecordType::A
    } else if is_ipv6(host) {
        DnsRecordType::Aaaa
    } else {
        DnsRecordType::Cname
    }
}

fn octet(s: &str) -> (r: bool)
    ensures
        r == is_octet(s@),
{
    let chars = text::chars_of(s);
    if chars.len() < 1 || chars.len() > 3 || chars[0] == '+' || (chars.len() > 1 && chars[0]
        == '0') {
        assert(chars@.len() > 0 && chars@[0] == '+' ==> !text::is_digit(s@[0]));
        return false;
    }
    match text::parse_unsigned(s, 255) {
        Some(_) => true,
        None => false,
    }
}

/// Whether the text is an IPv4 address.
pub fn ipv4(s: &str) -> (r: bool)
    ensures
        r == is_ipv4(s@),
{
    let dot: [char; 1] = ['.'];
    let parts = text::split_fields(s, dot.as_slice());
    let ghost model = text::fields(s@, seq!['.']);
    assert(dot@ =~= seq!['.']);
    assert(text::texts(parts@) == model);
    if parts.len() != 4 {
        return false;
    }
    let mut i: usize = 0;
    while i < 4
        invariant
            i <= 4,
            parts@.len() == 4,
            text::texts(parts@) == model,
            model == text::fields(s@, seq!['.']),
            forall|j: int| 0 <= j < i ==> is_octet(#[trigger] model[j]),
        decreases 4 - i,
    {
        assert(model[i as int] == parts@[i as int]@);
        if !octet(parts[i].as_str()) {
            return false;
        }
        i = i + 1;
    }
    true
}

fn hextet(s: &str) -> (r: bool)
    ensures
        r == is_hextet(s@),
{
    let chars = text::chars_of(s);
    if chars.len() < 1 || chars.len() > 4 {
        return false;
    }
    let mut i: usize = 0;
    while i < chars.len()
        invariant
            i <= chars@.len(),
            chars@ == s@,
            forall|j: int| 0 <= j < i ==> is_hex_digit(#[trigger] s@[j]),
        decreases chars@.len() - i,
    {
        let c = chars[i];
        if !(('0' <= c && c <= '9') || ('a' <= c && c <= 'f') || ('A' <= c && c <= 'F')) {
            assert(!is_hex_digit(s@[i as int]));
            return false;
        }
        i = i + 1;
    }
    true
}

fn count_groups(s: &str, embedded: bool) -> (r: Option<usize>)
    ensures
        match r {
            Some(n) => group_count(s@, embedded) == Some(n as nat),
            None => group_count(s@, embedded) is None || group_count(s@, embedded)->0 > 8,
        },
{
    if s.is_empty() {
        return Some(0);
    }
    let colon: [char; 1] = [':'];
    let parts = text::split_fields(s, colon.as_slice());
    let ghost model = text::fields(s@, seq![':']);
    assert(colon@ =~= seq![':']);
    assert(text::texts(parts@) == model);
    proof {
        text::lemma_fields_nonempty(s@, seq![':']);
    }
    if parts.len() > 8 {
        return None;
    }
    let last: usize = parts.len() - 1;
    let mut i: usize = 0;
    while i < last
        invariant
            i <= last,
            last == parts@.len() - 1,
            s@.len() > 0,
            text::texts(parts@) == model,
            model == text::fields(s@, seq![':']),
            forall|j: int| 0 <= j < i ==> is_hextet(#[trigger] model[j]),
        decreases last - i,
    {
        assert(model[i as int] == parts@[i as int]@);
        if !hextet(parts[i].as_str()) {
            return None;
        }
        i = i + 1;
    }
    assert(model.last() == parts@[last as int]@);
    if hextet(parts[last].as_str()) {
        Some(parts.len())
    } else if embedded && ipv4(parts[last].as_str()) {
        Some(parts.len() + 1)
    } else {
        None
    }
}

/// Whether the text is an IPv6 address.
pub fn ipv6(s: &str) -> (r: bool)
    ensures
        r == is_ipv6(s@),
{
    if let Some(n) = count_groups(s, true) {
        if n == 8 {
            return true;
        }
    }
    let chars = text::chars_of(s);
    let mut at: usize = 0;
    while at < chars.len()
        invariant
            at <= chars@.len(),
            chars@ == s@,
            forall|k: int| 0 <= k < at ==> !#[trigger] is_compressed_at(s@, k),
        decreases chars@.len() - at,
    {
        if chars.len() - at >= 2 && chars[at] == ':' && chars[at + 1] == ':' {
            let head = text::string_of(chars.as_slice(), 0, at);
            let tail = text::string_of(chars.as_slice(), at + 2, chars.len());
            assert(head@ =~= s@.take(at as int));
            assert(tail@ =~= s@.skip(at + 2));
            if let (Some(a), Some(b)) = (
                count_groups(head.as_str(), false),
                count_groups(tail.as_str(), true),
            ) {
                if a <= 7 && b <= 7 - a {
                    assert(is_compressed_at(s@, at as int));
                    return true;
                }
            }
        }
        at = at + 1;
    }
    assert(forall|k: int| !#[trigger] is_compressed_at(s@, k));
    false
}

/// The kind of the record that points to the host.
pub fn dns_record_type(proxy_host: &str) -> (r: DnsRecordType)
    ensures
        r == target_type(proxy_host@),
{
    if ipv4(proxy_host) {
        DnsRecordType::A
    } else if ipv6(proxy_host) {
        DnsRecordType::Aaaa
    } else {
        DnsRecordType::Cname
    }
}

} // verus!
