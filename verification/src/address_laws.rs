//! What the notation of IP addresses comes to.

use crate::{address, text, text_laws};
use vstd::prelude::*;

verus! {

/// A text is an IPv4 address exactly when it is four numbers up to 255 in decimal
/// notation with dots between them.
pub proof fn law_ipv4_is_four_numbers(s: Seq<char>)
    ensures
        address::is_ipv4(s) <==> exists|a: nat, b: nat, c: nat, d: nat|
            a <= 255 && b <= 255 && c <= 255 && d <= 255 && s == #[trigger] quad(a, b, c, d),
{
    let parts = text::fields(s, seq!['.']);
    if address::is_ipv4(s) {
        text_laws::law_joined_fields_are_the_text(s, '.');
        assert(address::is_octet(parts[0]) && address::is_octet(parts[1]) && address::is_octet(
            parts[2],
        ) && address::is_octet(parts[3]));
        text_laws::law_digits_are_the_notation_of_their_number(parts[0]);
        text_laws::law_digits_are_the_notation_of_their_number(parts[1]);
        text_laws::law_digits_are_the_notation_of_their_number(parts[2]);
        text_laws::law_digits_are_the_notation_of_their_number(parts[3]);
        let (a, b, c, d) = (
            text::decimal_value(parts[0]),
            text::decimal_value(parts[1]),
            text::decimal_value(parts[2]),
            text::decimal_value(parts[3]),
        );
        assert(parts =~= seq![parts[0], parts[1], parts[2], parts[3]]);
        assert(s == quad(a, b, c, d));
    }
    if exists|a: nat, b: nat, c: nat, d: nat|
        a <= 255 && b <= 255 && c <= 255 && d <= 255 && s == #[trigger] quad(a, b, c, d) {
        let (a, b, c, d) = choose|a: nat, b: nat, c: nat, d: nat|
            a <= 255 && b <= 255 && c <= 255 && d <= 255 && s == #[trigger] quad(a, b, c, d);
        lemma_octet(a);
        lemma_octet(b);
        lemma_octet(c);
        lemma_octet(d);
        text_laws::law_joined_texts_are_parted_again(
            seq![text::decimal(a), text::decimal(b), text::decimal(c), text::decimal(d)],
            '.',
        );
    }
}

/// Four numbers in decimal notation with dots between them.
pub open spec fn quad(a: nat, b: nat, c: nat, d: nat) -> Seq<char> {
    text_laws::joined(
        seq![text::decimal(a), text::decimal(b), text::decimal(c), text::decimal(d)],
        '.',
    )
}

proof fn lemma_octet(n: nat)
    requires
        n <= 255,
    ensures
        address::is_octet(text::decimal(n)),
        !text::decimal(n).contains('.'),
        !text::decimal(n).contains(':'),
{
    let s = text::decimal(n);
    text::lemma_decimal_digits(n);
    if s.contains('.') {
        let i = choose|i: int| 0 <= i < s.len() && s[i] == '.';
        assert(text::is_digit(s[i]));
    }
    if s.contains(':') {
        let i = choose|i: int| 0 <= i < s.len() && s[i] == ':';
        assert(text::is_digit(s[i]));
    }
    reveal_with_fuel(text::decimal, 4);
    if n >= 10 {
        if n >= 100 {
            assert(n / 10 / 10 < 10);
        }
    }
}

/// Groups of an IPv6 address, where an IPv4 address may stand behind them.
pub open spec fn spelled(groups: Seq<Seq<char>>, embedded: Option<Seq<char>>) -> Seq<char> {
    text_laws::joined(
        match embedded {
            Some(quad) => groups.push(quad),
            None => groups,
        },
        ':',
    )
}

/// Whether a text is that many groups of an IPv6 address with colons between
/// them: hexadecimal numbers of one to four digits, and behind them, where
/// allowed, an IPv4 address that stands for two.
pub open spec fn has_groups(s: Seq<char>, n: nat, allowed: bool) -> bool {
    exists|groups: Seq<Seq<char>>, embedded: Option<Seq<char>>|
        {
            &&& s == #[trigger] spelled(groups, embedded)
            &&& forall|i: int|
                0 <= i < groups.len() ==> 1 <= (#[trigger] groups[i]).len() <= 4 && hexadecimal(
                    groups[i],
                )
            &&& embedded is Some ==> allowed && address::is_ipv4(embedded->0)
            &&& n == groups.len() + if embedded is Some {
                2nat
            } else {
                0nat
            }
        }
}

/// Whether a text holds nothing but hexadecimal digits.
pub open spec fn hexadecimal(s: Seq<char>) -> bool {
    forall|i: int|
        0 <= i < s.len() ==> "0123456789abcdefABCDEF"@.contains(#[trigger] s[i])
}

/// A text is an IPv6 address exactly when it is eight groups with colons between
/// them, or a double colon with at most seven groups around it.
pub proof fn law_ipv6_is_eight_groups(s: Seq<char>)
    ensures
        address::is_ipv6(s) <==> has_groups(s, 8, true) || exists|
            head: Seq<char>,
            tail: Seq<char>,
            m: nat,
            n: nat,
        | #![trigger has_groups(head, m, false), has_groups(tail, n, true)]
            s == head + seq![':', ':'] + tail && has_groups(head, m, false) && has_groups(
                tail,
                n,
                true,
            ) && m + n <= 7,
{
    lemma_group_count(s, 8, true);
    if exists|at: int| #[trigger] address::is_compressed_at(s, at) {
        let at = choose|at: int| #[trigger] address::is_compressed_at(s, at);
        let head = s.take(at);
        let tail = s.skip(at + 2);
        let m = address::group_count(head, false)->0;
        let n = address::group_count(tail, true)->0;
        lemma_group_count(head, m, false);
        lemma_group_count(tail, n, true);
        assert(s =~= head + seq![':', ':'] + tail);
        assert(has_groups(head, m, false) && has_groups(tail, n, true));
    }
    if exists|head: Seq<char>, tail: Seq<char>, m: nat, n: nat|
        #![trigger has_groups(head, m, false), has_groups(tail, n, true)]
        s == head + seq![':', ':'] + tail && has_groups(head, m, false) && has_groups(
            tail,
            n,
            true,
        ) && m + n <= 7 {
        let (head, tail, m, n) = choose|head: Seq<char>, tail: Seq<char>, m: nat, n: nat|
            #![trigger has_groups(head, m, false), has_groups(tail, n, true)]
            s == head + seq![':', ':'] + tail && has_groups(head, m, false) && has_groups(
                tail,
                n,
                true,
            ) && m + n <= 7;
        lemma_group_count(head, m, false);
        lemma_group_count(tail, n, true);
        assert(s.take(head.len() as int) =~= head);
        assert(s.skip(head.len() as int + 2) =~= tail);
        assert(address::is_compressed_at(s, head.len() as int));
    }
}

proof fn lemma_hextet(s: Seq<char>)
    ensures
        address::is_hextet(s) <==> 1 <= s.len() <= 4 && hexadecimal(s),
        address::is_hextet(s) ==> !s.contains(':') && !s.contains('.'),
{
    reveal_strlit("0123456789abcdefABCDEF");
    let digits = "0123456789abcdefABCDEF"@;
    assert forall|c: char| digits.contains(c) <==> address::is_hex_digit(c) by {
        if address::is_hex_digit(c) {
            let i = if text::is_digit(c) {
                c as int - '0' as int
            } else if 'a' <= c && c <= 'f' {
                c as int - 'a' as int + 10
            } else {
                c as int - 'A' as int + 16
            };
            assert(digits[i] == c);
        }
    }
    if address::is_hextet(s) {
        assert forall|i: int| 0 <= i < s.len() implies digits.contains(#[trigger] s[i]) by {
            assert(address::is_hex_digit(s[i]));
        }
        if s.contains(':') {
            let i = choose|i: int| 0 <= i < s.len() && s[i] == ':';
            assert(address::is_hex_digit(s[i]));
        }
        if s.contains('.') {
            let i = choose|i: int| 0 <= i < s.len() && s[i] == '.';
            assert(address::is_hex_digit(s[i]));
        }
    }
    if 1 <= s.len() <= 4 && hexadecimal(s) {
        assert forall|i: int| 0 <= i < s.len() implies address::is_hex_digit(#[trigger] s[i]) by {
            assert(digits.contains(s[i]));
        }
    }
}

proof fn lemma_no_colon(s: Seq<char>)
    requires
        address::is_ipv4(s),
    ensures
        !s.contains(':'),
        s.len() > 0,
        !address::is_hextet(s),
{
    law_ipv4_is_four_numbers(s);
    let (a, b, c, d) = choose|a: nat, b: nat, c: nat, d: nat|
        a <= 255 && b <= 255 && c <= 255 && d <= 255 && s == #[trigger] quad(a, b, c, d);
    lemma_octet(a);
    lemma_octet(b);
    lemma_octet(c);
    lemma_octet(d);
    let (w, x, y, z) = (text::decimal(a), text::decimal(b), text::decimal(c), text::decimal(d));
    let dot = seq!['.'];
    reveal_with_fuel(text_laws::joined, 4);
    assert(seq![w, x, y, z].drop_last() =~= seq![w, x, y]);
    assert(seq![w, x, y].drop_last() =~= seq![w, x]);
    assert(seq![w, x].drop_last() =~= seq![w]);
    assert(s == w + dot + x + dot + y + dot + z);
    assert(s[w.len() as int] == '.');
    lemma_hextet(s);
    assert(s.contains('.'));
    if s.contains(':') {
        let i = choose|i: int| 0 <= i < s.len() && s[i] == ':';
        lemma_char_of_sum(w + dot + x + dot + y + dot, z, ':');
        lemma_char_of_sum(w + dot + x + dot + y, dot, ':');
        lemma_char_of_sum(w + dot + x + dot, y, ':');
        lemma_char_of_sum(w + dot + x, dot, ':');
        lemma_char_of_sum(w + dot, x, ':');
        lemma_char_of_sum(w, dot, ':');
    }
}

proof fn lemma_char_of_sum(a: Seq<char>, b: Seq<char>, c: char)
    ensures
        (a + b).contains(c) ==> a.contains(c) || b.contains(c),
{
    if (a + b).contains(c) {
        let i = choose|i: int| 0 <= i < (a + b).len() && (a + b)[i] == c;
        if i < a.len() {
            assert(a[i] == c);
        } else {
            assert(b[i - a.len()] == c);
        }
    }
}

proof fn lemma_group_count(s: Seq<char>, n: nat, allowed: bool)
    ensures
        address::group_count(s, allowed) == Some(n) <==> has_groups(s, n, allowed),
{
    if address::group_count(s, allowed) == Some(n) {
        lemma_counted_groups(s, n, allowed);
    }
    if has_groups(s, n, allowed) {
        lemma_groups_are_counted(s, n, allowed);
    }
}

proof fn lemma_counted_groups(s: Seq<char>, n: nat, allowed: bool)
    requires
        address::group_count(s, allowed) == Some(n),
    ensures
        has_groups(s, n, allowed),
{
    let parts = text::fields(s, seq![':']);
    text_laws::law_joined_fields_are_the_text(s, ':');
    text::lemma_fields_nonempty(s, seq![':']);
    if s.len() == 0 {
        let none = Seq::<Seq<char>>::empty();
        assert(s =~= spelled(none, None));
    } else if address::is_hextet(parts.last()) {
        assert(s == spelled(parts, None));
        assert forall|i: int| 0 <= i < parts.len() implies 1 <= (#[trigger] parts[i]).len() <= 4
            && hexadecimal(parts[i]) by {
            lemma_hextet(parts[i]);
            if i == parts.len() - 1 {
                assert(parts[i] == parts.last());
            }
        }
    } else {
        let groups = parts.drop_last();
        assert(groups.push(parts.last()) =~= parts);
        assert(s == spelled(groups, Some(parts.last())));
        assert forall|i: int| 0 <= i < groups.len() implies 1 <= (#[trigger] groups[i]).len() <= 4
            && hexadecimal(groups[i]) by {
            assert(groups[i] == parts[i]);
            lemma_hextet(parts[i]);
        }
    }
}

proof fn lemma_groups_are_counted(s: Seq<char>, n: nat, allowed: bool)
    requires
        has_groups(s, n, allowed),
    ensures
        address::group_count(s, allowed) == Some(n),
{
    let (groups, embedded) = choose|groups: Seq<Seq<char>>, embedded: Option<Seq<char>>|
        {
            &&& s == #[trigger] spelled(groups, embedded)
            &&& forall|i: int|
                0 <= i < groups.len() ==> 1 <= (#[trigger] groups[i]).len() <= 4 && hexadecimal(
                    groups[i],
                )
            &&& embedded is Some ==> allowed && address::is_ipv4(embedded->0)
            &&& n == groups.len() + if embedded is Some {
                2nat
            } else {
                0nat
            }
        };
    let parts = match embedded {
        Some(quad) => groups.push(quad),
        None => groups,
    };
    assert forall|i: int| 0 <= i < groups.len() implies address::is_hextet(#[trigger] groups[i])
        && !groups[i].contains(':') by {
        lemma_hextet(groups[i]);
    }
    if embedded is Some {
        lemma_no_colon(embedded->0);
    }
    if parts.len() > 0 {
        assert forall|i: int| 0 <= i < parts.len() implies !(#[trigger] parts[i]).contains(':')
            && parts[i].len() > 0 by {
            if i < groups.len() {
                assert(parts[i] == groups[i]);
            }
        }
        text_laws::law_joined_texts_are_parted_again(parts, ':');
        assert(s.len() > 0) by {
            assert(parts[parts.len() - 1].len() > 0);
        }
        assert forall|i: int| 0 <= i < parts.len() - 1 implies address::is_hextet(
            #[trigger] parts[i],
        ) by {
            assert(parts[i] == groups[i]);
        }
        if embedded is None {
            assert(address::is_hextet(groups[groups.len() - 1]));
        }
    }
}

} // verus!
