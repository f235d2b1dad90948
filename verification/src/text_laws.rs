//! What the text primitives come to, in terms of the texts themselves.

use crate::text;
use vstd::prelude::*;

verus! {

/// Trimming takes away the white space around a text and nothing else: a text
/// that neither starts nor ends with white space is what is left of it with white
/// space before it and behind it.
pub proof fn law_trimming_leaves_what_stands_between(
    before: Seq<char>,
    core: Seq<char>,
    after: Seq<char>,
)
    requires
        text::blank(before),
        text::blank(after),
        core.len() > 0 ==> !text::white_space(core.first()) && !text::white_space(core.last()),
    ensures
        text::trimmed(before + core + after) == core,
{
    if core.len() == 0 {
        let s = before + core + after;
        assert forall|i: int| 0 <= i < s.len() implies text::white_space(#[trigger] s[i]) by {
            if i < before.len() {
                assert(s[i] == before[i]);
            } else {
                assert(s[i] == after[i - before.len()]);
            }
        }
        text::law_blank_is_trimmed_empty(s);
        assert(text::trimmed(s) =~= core);
    } else {
        lemma_start_is_trimmed(before, core + after);
        lemma_end_is_trimmed(core, after);
        assert(before + core + after =~= before + (core + after));
    }
}

proof fn lemma_start_is_trimmed(before: Seq<char>, rest: Seq<char>)
    requires
        text::blank(before),
        rest.len() > 0,
        !text::white_space(rest.first()),
    ensures
        text::trimmed_start(before + rest) == rest,
    decreases before.len(),
{
    if before.len() == 0 {
        assert(before + rest =~= rest);
    } else {
        let less = before.drop_first();
        assert((before + rest).drop_first() =~= less + rest);
        assert(text::white_space(before[0]));
        assert forall|i: int| 0 <= i < less.len() implies text::white_space(#[trigger] less[i]) by {
            assert(less[i] == before[i + 1]);
        }
        lemma_start_is_trimmed(less, rest);
    }
}

proof fn lemma_end_is_trimmed(rest: Seq<char>, after: Seq<char>)
    requires
        text::blank(after),
        rest.len() > 0,
        !text::white_space(rest.last()),
    ensures
        text::trimmed_end(rest + after) == rest,
    decreases after.len(),
{
    if after.len() == 0 {
        assert(rest + after =~= rest);
    } else {
        let less = after.drop_last();
        assert((rest + after).drop_last() =~= rest + less);
        assert(text::white_space(after[after.len() - 1]));
        assert forall|i: int| 0 <= i < less.len() implies text::white_space(#[trigger] less[i]) by {
            assert(less[i] == after[i]);
        }
        lemma_end_is_trimmed(rest, less);
    }
}

/// A blank, a tab and the ends of lines are white space. No visible ASCII
/// character is.
pub proof fn law_visible_characters_are_no_white_space(c: char)
    ensures
        text::white_space(' '),
        text::white_space('\t'),
        text::white_space('\n'),
        text::white_space('\r'),
        '!' <= c && c <= '~' ==> !text::white_space(c),
{
}

/// Stripping takes every `c` from the one side of a text and nothing else.
pub proof fn law_stripping_leaves_the_rest(core: Seq<char>, c: char, n: nat)
    ensures
        core.len() == 0 || core.last() != c ==> text::stripped_end(
            core + Seq::new(n, |i: int| c),
            c,
        ) == core,
        core.len() == 0 || core.first() != c ==> text::stripped_start(
            Seq::new(n, |i: int| c) + core,
            c,
        ) == core,
    decreases n,
{
    let many = Seq::new(n, |i: int| c);
    if n == 0 {
        assert(core + many =~= core);
        assert(many + core =~= core);
    } else {
        let less = Seq::new((n - 1) as nat, |i: int| c);
        assert((core + many).drop_last() =~= core + less);
        assert((many + core).drop_first() =~= less + core);
        assert((core + many).last() == c);
        assert((many + core).first() == c);
        law_stripping_leaves_the_rest(core, c, (n - 1) as nat);
    }
}

/// A text ends with a part exactly when it is the part with something before it.
pub proof fn law_text_ends_with_its_tail(s: Seq<char>, part: Seq<char>)
    ensures
        text::ends_with_text(s, part) <==> exists|before: Seq<char>| s == #[trigger] (before
            + part),
{
    if text::ends_with_text(s, part) {
        let before = s.take(s.len() - part.len());
        assert(s =~= before + part) by {
            assert forall|i: int| 0 <= i < s.len() implies s[i] == (before + part)[i] by {
                if i >= before.len() {
                    assert(s.subrange(s.len() - part.len(), s.len() as int)[i - before.len()]
                        == part[i - before.len()]);
                }
            }
        }
    }
    if exists|before: Seq<char>| s == #[trigger] (before + part) {
        let before = choose|before: Seq<char>| s == #[trigger] (before + part);
        assert(s.subrange(s.len() - part.len(), s.len() as int) =~= part);
    }
}

/// A text without separators is its only field.
pub proof fn law_text_without_separators_is_one_field(s: Seq<char>, separators: Seq<char>)
    requires
        forall|i: int| 0 <= i < s.len() ==> !separators.contains(#[trigger] s[i]),
    ensures
        text::fields(s, separators) == seq![s],
    decreases s.len(),
{
    if s.len() == 0 {
        assert(s =~= Seq::empty());
    } else {
        let less = s.drop_last();
        assert forall|i: int| 0 <= i < less.len() implies !separators.contains(
            #[trigger] less[i],
        ) by {
            assert(less[i] == s[i]);
        }
        law_text_without_separators_is_one_field(less, separators);
        assert(!separators.contains(s[s.len() - 1]));
        assert(less.push(s.last()) =~= s);
        assert(text::fields(s, separators) =~= seq![s]);
    }
}

/// A separator parts the fields of what stands before it from the fields of what
/// stands behind it.
pub proof fn law_separator_parts_the_fields(
    before: Seq<char>,
    c: char,
    after: Seq<char>,
    separators: Seq<char>,
)
    requires
        separators.contains(c),
    ensures
        text::fields(before + seq![c] + after, separators) == text::fields(before, separators)
            + text::fields(after, separators),
    decreases after.len(),
{
    let s = before + seq![c] + after;
    text::lemma_fields_nonempty(before, separators);
    text::lemma_fields_nonempty(after, separators);
    if after.len() == 0 {
        assert(s.drop_last() =~= before);
        assert(s.last() == c);
        assert(text::fields(s, separators) =~= text::fields(before, separators) + text::fields(
            after,
            separators,
        ));
    } else {
        let less = after.drop_last();
        assert(s.drop_last() =~= before + seq![c] + less);
        assert(s.last() == after.last());
        law_separator_parts_the_fields(before, c, less, separators);
        text::lemma_fields_nonempty(less, separators);
        assert(text::fields(s, separators) =~= text::fields(before, separators) + text::fields(
            after,
            separators,
        ));
    }
}

/// A number up to nine is written with its digit, and one more digit behind a
/// number stands for ten times the number and the digit.
pub proof fn law_decimal_is_digit_by_digit(n: nat, d: nat)
    requires
        d < 10,
    ensures
        text::decimal(d) == seq!["0123456789"@[d as int]],
        n > 0 ==> text::decimal(10 * n + d) == text::decimal(n).push("0123456789"@[d as int]),
{
    reveal_strlit("0123456789");
    assert("0123456789"@[d as int] == text::digit_char(d));
    if n > 0 {
        assert((10 * n + d) / 10 == n);
        assert((10 * n + d) % 10 == d);
    }
}

/// A number is read exactly where it is at most the greatest that is allowed.
/// Zeros and one plus sign in front do not matter.
pub proof fn law_written_number_is_read(n: nat, max: nat, zeros: nat)
    ensures
        ({
            let digits = Seq::new(zeros, |i: int| '0') + text::decimal(n);
            let want = if n <= max {
                Some(n)
            } else {
                None
            };
            &&& text::parsed_unsigned(digits, max) == want
            &&& text::parsed_unsigned(seq!['+'] + digits, max) == want
        }),
{
    let front = Seq::new(zeros, |i: int| '0');
    let digits = front + text::decimal(n);
    text::lemma_decimal_digits(n);
    assert(text::is_digit(digits[0])) by {
        if zeros == 0 {
            assert(digits[0] == text::decimal(n)[0]);
        }
    }
    assert forall|i: int| 0 <= i < digits.len() implies text::is_digit(#[trigger] digits[i]) by {
        if i >= zeros {
            assert(text::is_digit(text::decimal(n)[i - zeros]));
        }
    }
    lemma_zeros_count_nothing(zeros, text::decimal(n));
    assert((seq!['+'] + digits).skip(1) =~= digits);
}

proof fn lemma_zeros_count_nothing(zeros: nat, digits: Seq<char>)
    ensures
        text::decimal_value(Seq::new(zeros, |i: int| '0') + digits) == text::decimal_value(digits),
    decreases zeros + digits.len(),
{
    let front = Seq::new(zeros, |i: int| '0');
    let s = front + digits;
    if digits.len() > 0 {
        assert(s.drop_last() =~= front + digits.drop_last());
        lemma_zeros_count_nothing(zeros, digits.drop_last());
    } else if zeros > 0 {
        let less = Seq::new((zeros - 1) as nat, |i: int| '0');
        assert(s.drop_last() =~= less + digits);
        assert(s.last() == '0');
        lemma_zeros_count_nothing((zeros - 1) as nat, digits);
    } else {
        assert(s =~= digits);
    }
}

/// A text with anything but digits behind a plus sign in front, or without a
/// digit, is no number.
pub proof fn law_other_text_is_no_number(s: Seq<char>, max: nat)
    requires
        s.len() == 0 || s == seq!['+'] || exists|i: int|
            0 <= i < s.len() && !('0' <= #[trigger] s[i] && s[i] <= '9') && (i > 0 || s[i] != '+'),
    ensures
        text::parsed_unsigned(s, max) is None,
{
    let digits = text::without_plus(s);
    if s == seq!['+'] {
        assert(digits.len() == 0);
    } else if s.len() > 0 {
        let i = choose|i: int|
            0 <= i < s.len() && !('0' <= #[trigger] s[i] && s[i] <= '9') && (i > 0 || s[i] != '+');
        if s[0] == '+' {
            assert(digits[i - 1] == s[i]);
        } else {
            assert(digits[i] == s[i]);
        }
    }
}

/// The digits of a text that starts with no zero are the notation of the number
/// that they denote.
pub proof fn law_digits_are_the_notation_of_their_number(s: Seq<char>)
    requires
        s.len() > 0,
        text::all_digits(s),
        s.len() > 1 ==> s[0] != '0',
    ensures
        text::decimal(text::decimal_value(s)) == s,
    decreases s.len(),
{
    let less = s.drop_last();
    let d = text::digit_value(s.last());
    assert(text::is_digit(s[s.len() - 1]));
    assert(text::digit_char(d) == s.last());
    if s.len() == 1 {
        assert(text::decimal_value(less) == 0);
        assert(text::decimal(d) =~= s);
    } else {
        assert(less[0] == s[0]);
        assert forall|i: int| 0 <= i < less.len() implies text::is_digit(#[trigger] less[i]) by {
            assert(less[i] == s[i]);
        }
        law_digits_are_the_notation_of_their_number(less);
        let n = text::decimal_value(less);
        if n == 0 {
            assert(text::decimal(0) =~= seq!['0']);
            assert(less[0] == '0');
        }
        assert((n * 10 + d) / 10 == n);
        assert((n * 10 + d) % 10 == d);
        assert(less.push(s.last()) =~= s);
    }
}

/// Each ASCII capital letter becomes the small letter at the same place of the
/// alphabet, and every other character stays.
pub proof fn law_capital_letters_are_made_small(s: Seq<char>, at: int, place: int)
    requires
        0 <= at < s.len(),
        0 <= place < 26,
    ensures
        text::ascii_lower(s).len() == s.len(),
        s[at] == "ABCDEFGHIJKLMNOPQRSTUVWXYZ"@[place] ==> text::ascii_lower(s)[at]
            == "abcdefghijklmnopqrstuvwxyz"@[place],
        !('A' <= s[at] && s[at] <= 'Z') ==> text::ascii_lower(s)[at] == s[at],
{
    reveal_strlit("ABCDEFGHIJKLMNOPQRSTUVWXYZ");
    reveal_strlit("abcdefghijklmnopqrstuvwxyz");
}

/// Texts with a separator between each two.
pub open spec fn joined(parts: Seq<Seq<char>>, separator: char) -> Seq<char>
    decreases parts.len(),
{
    if parts.len() == 0 {
        Seq::empty()
    } else if parts.len() == 1 {
        parts[0]
    } else {
        joined(parts.drop_last(), separator) + seq![separator] + parts.last()
    }
}

/// The fields of a text, joined again, are the text.
pub proof fn law_joined_fields_are_the_text(s: Seq<char>, separator: char)
    ensures
        joined(text::fields(s, seq![separator]), separator) == s,
    decreases s.len(),
{
    let parts = text::fields(s, seq![separator]);
    if s.len() == 0 {
        assert(s =~= Seq::empty());
    } else {
        let less = s.drop_last();
        let before = text::fields(less, seq![separator]);
        text::lemma_fields_nonempty(less, seq![separator]);
        law_joined_fields_are_the_text(less, separator);
        assert(less.push(s.last()) =~= s);
        if seq![separator].contains(s.last()) {
            assert(parts.drop_last() =~= before);
            assert(joined(parts, separator) =~= s);
        } else {
            assert(parts.drop_last() =~= before.drop_last());
            assert(joined(parts, separator) =~= joined(before, separator).push(s.last()));
        }
    }
}

/// Texts without the separator, joined, are parted into these texts again.
pub proof fn law_joined_texts_are_parted_again(parts: Seq<Seq<char>>, separator: char)
    requires
        parts.len() > 0,
        forall|i: int| 0 <= i < parts.len() ==> !(#[trigger] parts[i]).contains(separator),
    ensures
        text::fields(joined(parts, separator), seq![separator]) == parts,
    decreases parts.len(),
{
    let last = parts.last();
    assert(!parts[parts.len() - 1].contains(separator));
    assert forall|i: int| 0 <= i < last.len() implies !seq![separator].contains(
        #[trigger] last[i],
    ) by {
        if last[i] == separator {
            assert(last.contains(separator));
        }
    }
    law_text_without_separators_is_one_field(last, seq![separator]);
    if parts.len() == 1 {
        assert(parts =~= seq![last]);
    } else {
        let before = parts.drop_last();
        assert forall|i: int| 0 <= i < before.len() implies !(#[trigger] before[i]).contains(
            separator,
        ) by {
            assert(before[i] == parts[i]);
        }
        law_joined_texts_are_parted_again(before, separator);
        assert(seq![separator][0] == separator);
        law_separator_parts_the_fields(
            joined(before, separator),
            separator,
            last,
            seq![separator],
        );
        assert(before + seq![last] =~= parts);
    }
}

} // verus!
