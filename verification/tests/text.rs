use avel_pilot::address::{dns_record_type, ipv4, ipv6};
use avel_pilot::config::{
    default_upstream_scheme, expand_env_vars, ConfigError, UpstreamSchemeConfig,
};
use avel_pilot::dns_provider::DnsRecordType;
use avel_pilot::order::{compare_text, KeyOrder};
use avel_pilot::sorted_map::SortedMap;
use avel_pilot::text;

#[test]
fn white_space_is_that_of_unicode() {
    for code in 0..=0x10ffff_u32 {
        if let Some(c) = char::from_u32(code) {
            assert_eq!(text::is_white_space(c), c.is_whitespace(), "{code:x}");
        }
    }
}

#[test]
fn texts_are_trimmed_on_both_sides() {
    for s in ["", " ", "a", " a b ", "\t\u{a0}x\r\n", "\u{3000}é\u{2028}", "x "] {
        assert_eq!(text::trim(s), s.trim());
        assert_eq!(text::trim(&text::trim(s)), s.trim());
        assert_eq!(text::is_blank(s), s.trim().is_empty());
        assert_eq!(text::is_blank(s), text::trim(s).is_empty());
    }
}

#[test]
fn characters_are_stripped_from_one_side() {
    for s in ["", "/", "///", "a/", "/a/", "vv1.2v", "http://h//"] {
        assert_eq!(text::strip_end(s, '/'), s.trim_end_matches('/'));
        assert_eq!(text::strip_start(s, 'v'), s.trim_start_matches('v'));
    }
}

#[test]
fn parts_of_texts_are_found() {
    for s in ["", "a", "ab", "aab", "abcabc", "äöü"] {
        for part in ["", "a", "ab", "abc", "bc", "ö", "x"] {
            assert_eq!(text::contains(s, part), s.contains(part));
            assert_eq!(text::ends_with(s, part), s.ends_with(part));
        }
    }
    let chars = text::chars_of("abcabc");
    assert_eq!(text::find_from(&chars, &['b', 'c'], 0), Some(1));
    assert_eq!(text::find_from(&chars, &['b', 'c'], 2), Some(4));
    assert_eq!(text::find_from(&chars, &['b', 'c'], 5), None);
    assert_eq!(text::find_from(&chars, &[], 6), Some(6));
}

#[test]
fn texts_are_split_at_every_separator() {
    for s in ["", ".", "1.2.3", "1-2.3-", "..a", "äb.ö"] {
        let want: Vec<String> = s.split(['.', '-']).map(|part| part.to_owned()).collect();
        assert_eq!(text::split_fields(s, &['.', '-']), want);
    }
}

#[test]
fn numbers_are_written_and_read() {
    for n in [0_u32, 1, 9, 10, 42, 1000, 65535, 65536, 4294967295] {
        let written = text::to_decimal(n as u128);
        assert_eq!(written, format!("{n}"));
        assert_eq!(text::parse_unsigned(&written, u32::MAX), Some(n));
    }
    assert_eq!(text::to_decimal(u128::MAX), format!("{}", u128::MAX));
    for s in ["", "+", "-1", "+7", "007", "1 ", "1.0", "٣", "4294967296", "99999999999", "++1"] {
        assert_eq!(text::parse_unsigned(s, u32::MAX), s.parse::<u32>().ok(), "{s}");
        assert_eq!(text::parse_unsigned(s, 65535), s.parse::<u16>().ok().map(|n| n as u32));
    }
    assert_eq!(text::parse_unsigned("65536", 65535), None);
}

#[test]
fn ascii_letters_become_small() {
    for s in ["", "YES", "Http", "ÄÖ", "a1Z"] {
        assert_eq!(text::to_ascii_lower(s), s.to_ascii_lowercase());
    }
}

#[test]
fn texts_are_ordered_by_their_characters() {
    let mut words = vec!["b", "a", "", "ab", "Z", "ä", "\u{10000}", "\u{ffff}"];
    words.sort();
    for (i, a) in words.iter().enumerate() {
        for (j, b) in words.iter().enumerate() {
            let want = if i < j {
                KeyOrder::Before
            } else if i == j {
                KeyOrder::Same
            } else {
                KeyOrder::After
            };
            assert_eq!(compare_text(a, b), want);
        }
    }
}

#[test]
fn a_sorted_map_keeps_its_keys_in_order() {
    let mut map: SortedMap<String, u32> = SortedMap::new();
    for (key, value) in [("m", 1), ("a", 2), ("z", 3), ("m", 4)] {
        map.insert(key.to_owned(), value);
    }
    assert_eq!(map.len(), 3);
    assert_eq!(map.entry_at(0), (&"a".to_owned(), &2));
    assert_eq!(map.entry_at(1), (&"m".to_owned(), &4));
    assert_eq!(map.entry_at(2), (&"z".to_owned(), &3));
    assert_eq!(map.get(&"z".to_owned()), Some(&3));
    map.remove(&"m".to_owned());
    assert!(!map.contains_key(&"m".to_owned()));
    assert_eq!(map.len(), 2);
}

#[test]
fn ipv4_addresses_are_recognised() {
    for s in ["0.0.0.0", "10.0.5.104", "255.255.255.255", "1.2.3.4"] {
        assert!(ipv4(s), "{s}");
        assert_eq!(dns_record_type(s), DnsRecordType::A);
    }
    for s in [
        "", "1.2.3", "1.2.3.4.5", "256.1.1.1", "01.2.3.4", "1.2.3.04", "1.2.3.4 ", " 1.2.3.4",
        "1..2.3", "a.b.c.d", "1.2.3.-4", "+1.2.3.4", "1.2.3.4.", "0x1.2.3.4", "1.2.3.1000",
    ] {
        assert!(!ipv4(s), "{s}");
    }
}

#[test]
fn ipv6_addresses_are_recognised() {
    for s in [
        "::", "::1", "1::", "2001:db8::1", "1:2:3:4:5:6:7:8", "FE80::ABCD", "1:2:3:4:5:6:7::",
        "::2:3:4:5:6:7:8", "::ffff:1.2.3.4", "1:2:3:4:5:6:1.2.3.4", "64:ff9b::192.0.2.33",
        "0001::", "::1.2.3.4", "1:2:3:4:5::1.2.3.4", "1::3:4:5:6:7:8",
    ] {
        assert!(ipv6(s), "{s}");
        assert_eq!(dns_record_type(s), DnsRecordType::Aaaa);
    }
    for s in [
        "", ":", ":::", "1", "1:2:3:4:5:6:7", "1:2:3:4:5:6:7:8:9", "1::2::3", "12345::", "g::",
        "::1%eth0", "[::1]", "1:2:3:4:5:6:7:1.2.3.4", "1.2.3.4::", "::1.2.3", "::256.1.1.1",
        ":1", "1:", "1:2:3:4:5:6:7:8::", "::1.2.3.4:5", " ::1",
        "1:2:3:4:5:6::1.2.3.4", "1::2:3:4:5:6:7:8", "1:2:3:4:5:6:7::8", "00001::", "::1.2.3.4.5",
    ] {
        assert!(!ipv6(s), "{s}");
    }
    for s in ["edge.avel.space", "localhost", ""] {
        assert_eq!(dns_record_type(s), DnsRecordType::Cname);
    }
}

#[test]
fn references_to_variables_are_replaced() {
    let variables = vec![
        ("TOKEN".to_owned(), "abc".to_owned()),
        ("NEST".to_owned(), "${TOKEN}".to_owned()),
        ("TOKEN".to_owned(), "second".to_owned()),
    ];
    assert_eq!(expand_env_vars("plain", &variables), Ok("plain".to_owned()));
    assert_eq!(expand_env_vars("a: ${TOKEN}!", &variables), Ok("a: abc!".to_owned()));
    assert_eq!(expand_env_vars("${TOKEN}${TOKEN}", &variables), Ok("abcabc".to_owned()));
    assert_eq!(expand_env_vars("${NEST}", &variables), Ok("${TOKEN}".to_owned()));
    assert_eq!(expand_env_vars("$TOKEN } $ {", &variables), Ok("$TOKEN } $ {".to_owned()));
    assert_eq!(expand_env_vars("$${TOKEN}ä", &variables), Ok("$abcä".to_owned()));
}

#[test]
fn the_first_bad_reference_is_reported() {
    let variables = vec![("A".to_owned(), "1".to_owned())];
    assert_eq!(
        expand_env_vars("${A} ${B} ${", &variables),
        Err(ConfigError::MissingEnvVar("B".to_owned()))
    );
    assert_eq!(expand_env_vars("${A} ${B", &variables), Err(ConfigError::UnterminatedEnvVar));
    assert_eq!(
        expand_env_vars("${}", &variables),
        Err(ConfigError::MissingEnvVar(String::new()))
    );
    assert_eq!(
        expand_env_vars("${A${A}", &variables),
        Err(ConfigError::MissingEnvVar("A${A".to_owned()))
    );
}

#[test]
fn configuration_errors_have_their_messages() {
    assert_eq!(
        ConfigError::Read("gone".to_owned()).message(),
        "failed to read config file: gone"
    );
    assert_eq!(ConfigError::Parse("bad".to_owned()).message(), "failed to parse yaml: bad");
    assert_eq!(
        ConfigError::MissingEnvVar("X".to_owned()).message(),
        "environment variable not found: X"
    );
    assert_eq!(
        ConfigError::UnterminatedEnvVar.message(),
        "unterminated environment variable reference"
    );
    assert_eq!(default_upstream_scheme(), UpstreamSchemeConfig::Http);
}
