//! What is asked, and how the answers are read.

use crate::config::UpstreamSchemeConfig;
use crate::reconciler::diff;
use crate::{services, text, text_laws};
use vstd::prelude::*;
use vstd::string::StringExecFns;

verus! {

/// A question for a value.
pub open spec fn question_of(label: Seq<char>, default: Option<Seq<char>>) -> Seq<char> {
    match default {
        Some(default) => label + " ["@ + default + "]: "@,
        None => label + ": "@,
    }
}

/// The question for a value, with the default that an empty answer takes.
pub fn question(label: &str, default: Option<&str>) -> (r: String)
    ensures
        r@ == question_of(label@, text::opt_str(default)),
{
    match default {
        Some(default) => {
            let mut out = text::join3(label, " [", default);
            out.append("]: ");
            out
        },
        None => text::join2(label, ": "),
    }
}

/// The value that a line of input gives: the line without white space around
/// it, or the default where nothing is left.
pub open spec fn answer_of(input: Seq<char>, default: Option<Seq<char>>) -> Seq<char> {
    if text::trimmed(input).len() > 0 {
        text::trimmed(input)
    } else {
        match default {
            Some(default) => default,
            None => Seq::empty(),
        }
    }
}

/// The value that the line of input gives.
pub fn answer(input: &str, default: Option<&str>) -> (r: String)
    ensures
        r@ == answer_of(input@, text::opt_str(default)),
{
    let value = text::trim(input);
    if !value.as_str().is_empty() {
        return value;
    }
    match default {
        Some(default) => default.to_owned(),
        None => String::new(),
    }
}

/// Whether a value that is required has been given.
pub fn is_given(value: &str) -> (r: bool)
    ensures
        r == !text::blank(value@),
{
    !text::is_blank(value)
}

/// What is said where a required value is missing.
pub fn required(label: &str) -> (r: String)
    ensures
        r@ == label@ + " is required"@,
{
    text::join2(label, " is required")
}

/// A value that may be missing.
pub open spec fn optional_of(value: Seq<char>) -> Option<Seq<char>> {
    if text::trimmed(value).len() > 0 {
        Some(text::trimmed(value))
    } else {
        None
    }
}

/// The value, if there is one beside white space.
pub fn optional(value: &str) -> (r: Option<String>)
    ensures
        text::opt_text(r) == optional_of(value@),
{
    let value = text::trim(value);
    if value.as_str().is_empty() {
        None
    } else {
        Some(value)
    }
}

/// The answer to a question of yes or no, in any letter case.
pub open spec fn bool_of(value: Seq<char>) -> Option<bool> {
    let low = text::ascii_lower(value);
    if low == "y"@ || low == "yes"@ || low == "true"@ || low == "1"@ {
        Some(true)
    } else if low == "n"@ || low == "no"@ || low == "false"@ || low == "0"@ {
        Some(false)
    } else {
        None
    }
}

/// The answer to a question of yes or no.
pub fn parse_bool(value: &str) -> (r: Option<bool>)
    ensures
        r == bool_of(value@),
{
    let lower = text::to_ascii_lower(value);
    let low = lower.as_str();
    if text::text_eq(low, "y") || text::text_eq(low, "yes") || text::text_eq(low, "true")
        || text::text_eq(low, "1") {
        Some(true)
    } else if text::text_eq(low, "n") || text::text_eq(low, "no") || text::text_eq(low, "false")
        || text::text_eq(low, "0") {
        Some(false)
    } else {
        None
    }
}

/// What is said where the answer is neither yes nor no.
pub fn must_be_bool(label: &str) -> (r: String)
    ensures
        r@ == label@ + " must be yes or no"@,
{
    text::join2(label, " must be yes or no")
}

/// The port that a value names: a number from 1 to 65535.
pub open spec fn port_of(value: Seq<char>) -> Option<u16> {
    match text::parsed_unsigned(value, u16::MAX as nat) {
        Some(number) => if number > 0 {
            Some(number as u16)
        } else {
            None
        },
        None => None,
    }
}

/// The port that the value names.
pub fn parse_port(value: &str) -> (r: Option<u16>)
    ensures
        r == port_of(value@),
{
    match text::parse_unsigned(value, u16::MAX as u32) {
        Some(number) => if number > 0 {
            Some(number as u16)
        } else {
            None
        },
        None => None,
    }
}

/// What is said where the value is no port.
pub fn must_be_port(label: &str) -> (r: String)
    ensures
        r@ == label@ + " must be a port between 1 and 65535"@,
{
    text::join2(label, " must be a port between 1 and 65535")
}

/// The protocol that a value names, in any letter case.
pub open spec fn scheme_of(value: Seq<char>) -> Option<UpstreamSchemeConfig> {
    let low = text::ascii_lower(value);
    if low == "http"@ {
        Some(UpstreamSchemeConfig::Http)
    } else if low == "https"@ {
        Some(UpstreamSchemeConfig::Https)
    } else {
        None
    }
}

/// The protocol that the value names.
pub fn parse_scheme(value: &str) -> (r: Option<UpstreamSchemeConfig>)
    ensures
        r == scheme_of(value@),
{
    let low = text::to_ascii_lower(value);
    if text::text_eq(low.as_str(), "http") {
        Some(UpstreamSchemeConfig::Http)
    } else if text::text_eq(low.as_str(), "https") {
        Some(UpstreamSchemeConfig::Https)
    } else {
        None
    }
}

/// What is said where the value is no protocol.
pub fn must_be_scheme(label: &str) -> (r: String)
    ensures
        r@ == label@ + " must be http or https"@,
{
    text::join2(label, " must be http or https")
}

/// The question for a confirmation, with the answer that nothing stands for.
pub fn confirmation(label: &str, default: bool) -> (r: String)
    ensures
        r@ == label@ + " ["@ + (if default {
            "Y/n"@
        } else {
            "y/N"@
        }) + "]: "@,
{
    let mut out = text::join2(label, " [");
    if default {
        out.append("Y/n");
    } else {
        out.append("y/N");
    }
    out.append("]: ");
    out
}

/// Whether a line of input confirms: `y` and `yes` do, in any letter case,
/// nothing stands for the default, and everything else declines.
pub open spec fn confirms(input: Seq<char>, default: bool) -> bool {
    let low = text::ascii_lower(text::trimmed(input));
    if low.len() == 0 {
        default
    } else {
        low == "y"@ || low == "yes"@
    }
}

/// Whether the line of input confirms.
pub fn confirmed(input: &str, default: bool) -> (r: bool)
    ensures
        r == confirms(input@, default),
{
    let value = text::trim(input);
    let low = text::to_ascii_lower(value.as_str());
    if low.as_str().is_empty() {
        default
    } else {
        text::text_eq(low.as_str(), "y") || text::text_eq(low.as_str(), "yes")
    }
}

/// A line with nothing but white space takes the default, whatever it is.
pub proof fn law_blank_line_takes_the_default(input: Seq<char>, default: Seq<char>)
    requires
        text::blank(input),
    ensures
        answer_of(input, Some(default)) == default,
{
    text::law_blank_is_trimmed_empty(input);
}

/// The defaults that are shown for a protocol, a port and a yes or no are read
/// back as they are.
pub proof fn law_shown_defaults_read_back(scheme: UpstreamSchemeConfig, port: u16, value: bool)
    ensures
        scheme_of(services::scheme_name_of(scheme)) == Some(scheme),
        port > 0 ==> port_of(text::decimal(port as nat)) == Some(port),
        bool_of(services::yes_no_of(value)) == Some(value),
{
    text::law_decimal_round_trip(port as nat, u16::MAX as nat);
    reveal_strlit("http");
    reveal_strlit("https");
    reveal_strlit("y");
    reveal_strlit("yes");
    reveal_strlit("true");
    reveal_strlit("1");
    reveal_strlit("n");
    reveal_strlit("no");
    reveal_strlit("false");
    reveal_strlit("0");
    assert(text::ascii_lower("http"@) =~= "http"@);
    assert(text::ascii_lower("https"@) =~= "https"@);
    assert(text::ascii_lower("yes"@) =~= "yes"@);
    assert(text::ascii_lower("no"@) =~= "no"@);
    assert("http"@.len() == 4 && "https"@.len() == 5);
    assert("no"@.len() == 2 && "y"@.len() == 1 && "yes"@.len() == 3 && "true"@.len() == 4
        && "1"@.len() == 1);
}

/// What is typed is the answer, whatever white space stands around it and
/// whatever the default is. Where nothing is typed and there is no default, the
/// answer is empty.
pub proof fn law_typed_value_is_the_answer(
    before: Seq<char>,
    value: Seq<char>,
    after: Seq<char>,
    default: Option<Seq<char>>,
)
    requires
        text::blank(before),
        text::blank(after),
        value.len() > 0,
        !text::white_space(value.first()),
        !text::white_space(value.last()),
    ensures
        answer_of(before + value + after, default) == value,
        optional_of(before + value + after) == Some(value),
        answer_of(before, None).len() == 0,
        optional_of(before) is None,
{
    text_laws::law_trimming_leaves_what_stands_between(before, value, after);
    text::law_blank_is_trimmed_empty(before);
}

proof fn lemma_lower_is(value: Seq<char>, word: Seq<char>)
    requires
        text::ascii_lower(word) == word,
    ensures
        text::ascii_lower(value) == word <==> diff::same_letters(value, word),
{
    let low = text::ascii_lower(value);
    assert(low.len() == value.len());
    assert forall|i: int| 0 <= i < word.len() implies !('A' <= #[trigger] word[i] && word[i]
        <= 'Z') by {
        assert(text::ascii_lower(word)[i] == text::lower_char(word[i]));
    }
    if low == word {
        assert forall|i: int| 0 <= i < value.len() implies ({
            let (x, y) = (#[trigger] value[i] as int, word[i] as int);
            ||| x == y
            ||| ('A' as int <= x <= 'Z' as int && y == x + 32)
            ||| ('A' as int <= y <= 'Z' as int && x == y + 32)
        }) by {
            assert(low[i] == text::lower_char(value[i]));
        }
    }
    if diff::same_letters(value, word) {
        assert forall|i: int| 0 <= i < low.len() implies low[i] == word[i] by {
            assert(low[i] == text::lower_char(value[i]));
            assert(!('A' <= word[i] && word[i] <= 'Z'));
        }
        assert(low =~= word);
    }
}

/// An answer is yes exactly when it is `y`, `yes`, `true` or `1`, and no exactly
/// when it is `n`, `no`, `false` or `0`, in any letter case.
pub proof fn law_yes_and_no_in_any_letter_case(value: Seq<char>)
    ensures
        bool_of(value) == Some(true) <==> diff::same_letters(value, "y"@) || diff::same_letters(
            value,
            "yes"@,
        ) || diff::same_letters(value, "true"@) || diff::same_letters(value, "1"@),
        bool_of(value) == Some(false) <==> diff::same_letters(value, "n"@) || diff::same_letters(
            value,
            "no"@,
        ) || diff::same_letters(value, "false"@) || diff::same_letters(value, "0"@),
{
    lemma_words();
    lemma_lower_is(value, "y"@);
    lemma_lower_is(value, "yes"@);
    lemma_lower_is(value, "true"@);
    lemma_lower_is(value, "1"@);
    lemma_lower_is(value, "n"@);
    lemma_lower_is(value, "no"@);
    lemma_lower_is(value, "false"@);
    lemma_lower_is(value, "0"@);
}

proof fn lemma_words()
    ensures
        text::ascii_lower("y"@) == "y"@,
        text::ascii_lower("yes"@) == "yes"@,
        text::ascii_lower("true"@) == "true"@,
        text::ascii_lower("1"@) == "1"@,
        text::ascii_lower("n"@) == "n"@,
        text::ascii_lower("no"@) == "no"@,
        text::ascii_lower("false"@) == "false"@,
        text::ascii_lower("0"@) == "0"@,
        text::ascii_lower("http"@) == "http"@,
        text::ascii_lower("https"@) == "https"@,
        "y"@[0] == 'y' && "y"@.len() == 1,
        "yes"@.len() == 3,
        "true"@.len() == 4 && "true"@[0] == 't',
        "1"@[0] == '1' && "1"@.len() == 1,
        "n"@[0] == 'n' && "n"@.len() == 1,
        "no"@.len() == 2,
        "false"@.len() == 5,
        "0"@[0] == '0' && "0"@.len() == 1,
        "http"@.len() == 4 && "http"@[0] == 'h',
        "https"@.len() == 5,
{
    reveal_strlit("http");
    reveal_strlit("https");
    reveal_strlit("y");
    reveal_strlit("yes");
    reveal_strlit("true");
    reveal_strlit("1");
    reveal_strlit("n");
    reveal_strlit("no");
    reveal_strlit("false");
    reveal_strlit("0");
    assert(text::ascii_lower("y"@) =~= "y"@);
    assert(text::ascii_lower("yes"@) =~= "yes"@);
    assert(text::ascii_lower("true"@) =~= "true"@);
    assert(text::ascii_lower("1"@) =~= "1"@);
    assert(text::ascii_lower("n"@) =~= "n"@);
    assert(text::ascii_lower("no"@) =~= "no"@);
    assert(text::ascii_lower("false"@) =~= "false"@);
    assert(text::ascii_lower("0"@) =~= "0"@);
    assert(text::ascii_lower("http"@) =~= "http"@);
    assert(text::ascii_lower("https"@) =~= "https"@);
}

/// A protocol is `http` or `https`, in any letter case, and nothing else.
pub proof fn law_protocols_in_any_letter_case(value: Seq<char>)
    ensures
        scheme_of(value) == Some(UpstreamSchemeConfig::Http) <==> diff::same_letters(
            value,
            "http"@,
        ),
        scheme_of(value) == Some(UpstreamSchemeConfig::Https) <==> diff::same_letters(
            value,
            "https"@,
        ),
{
    lemma_words();
    lemma_lower_is(value, "http"@);
    lemma_lower_is(value, "https"@);
}

/// A port is a number from 1 to 65535, and nothing else.
pub proof fn law_port_is_a_number_in_range(n: nat, word: Seq<char>)
    requires
        text::parsed_unsigned(word, 65535) is None,
    ensures
        port_of(text::decimal(n)) is Some <==> 1 <= n <= 65535,
        1 <= n <= 65535 ==> port_of(text::decimal(n))->0 == n,
        port_of(word) is None,
{
    text_laws::law_written_number_is_read(n, u16::MAX as nat, 0);
    assert(Seq::new(0, |i: int| '0') + text::decimal(n) =~= text::decimal(n));
}

/// Only `y` and `yes` confirm, in any letter case and with any white space around
/// them. Nothing but white space stands for the default.
pub proof fn law_only_yes_confirms(
    before: Seq<char>,
    value: Seq<char>,
    after: Seq<char>,
    default: bool,
)
    requires
        text::blank(before),
        text::blank(after),
        value.len() > 0,
        !text::white_space(value.first()),
        !text::white_space(value.last()),
    ensures
        confirms(before + value + after, default) <==> diff::same_letters(value, "y"@)
            || diff::same_letters(value, "yes"@),
        confirms(before, default) == default,
{
    text_laws::law_trimming_leaves_what_stands_between(before, value, after);
    text::law_blank_is_trimmed_empty(before);
    lemma_words();
    lemma_lower_is(value, "y"@);
    lemma_lower_is(value, "yes"@);
}

/// A question shows its label, and the default in brackets where there is one.
pub proof fn law_question_shows_the_default(label: Seq<char>, default: Seq<char>)
    ensures
        question_of(label, Some(default)) == label + seq![' ', '['] + default + seq![
            ']',
            ':',
            ' ',
        ],
        question_of(label, None) == label + seq![':', ' '],
{
    reveal_strlit(" [");
    reveal_strlit("]: ");
    reveal_strlit(": ");
    assert(" ["@ =~= seq![' ', '[']);
    assert("]: "@ =~= seq![']', ':', ' ']);
    assert(": "@ =~= seq![':', ' ']);
}

} // verus!
