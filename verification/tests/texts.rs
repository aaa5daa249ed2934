use og_param::bytes::{decode_text, Utf8Failure};
use og_param::cli::command::{parse_selector, parse_slot};
use og_param::model::{label_eq, ParameterOid, ParameterSelector};
use og_param::table::draw;
use og_param::text::{
    decimal_text, join, parse_signed, parse_unsigned, same, same_fold, signed_decimal_text,
    strip_prefix, trim,
};

fn strings(list: &[&str]) -> Vec<String> {
    list.iter().map(|item| item.to_string()).collect()
}

#[test]
fn trimming_follows_unicode_white_space() {
    for text in ["", "  a b ", "\t\u{a0}x\u{3000}\n", "plain", "   ", "\u{200b}x", "\u{85}y\u{1680}"] {
        assert_eq!(trim(text), text.trim(), "{text:?}");
    }
}

#[test]
fn integers_are_read_as_the_standard_library_reads_them() {
    for text in [
        "0", "7", "+7", "-7", "255", "256", "65535", "65536", "32767", "32768", "-32768", "-32769",
        "2147483647", "2147483648", "-2147483648", "-2147483649", "", "+", "-", "1 ", " 1", "00012",
        "1_0", "0x10", "99999999999999999999999", "-0", "+-1", "\u{664}",
    ] {
        assert_eq!(parse_unsigned(text, 10, 0xFFFF), text.parse::<u16>().ok().map(u64::from), "{text}");
        assert_eq!(parse_signed(text, 0x7FFF), text.parse::<i16>().ok().map(i64::from), "{text}");
        assert_eq!(
            parse_signed(text, 0x7FFF_FFFF),
            text.parse::<i32>().ok().map(i64::from),
            "{text}"
        );
    }
    for text in ["", "0", "fF", "+1f", "-1", "FFFF", "10000", "FFFFFFFF", "100000000", "g"] {
        assert_eq!(
            parse_unsigned(text, 16, 0xFFFF_FFFF),
            u32::from_str_radix(text, 16).ok().map(u64::from),
            "{text}"
        );
    }
}

#[test]
fn integers_are_written_in_decimal() {
    for n in [0u64, 9, 10, 12345, u64::MAX] {
        assert_eq!(decimal_text(n), n.to_string());
    }
    for n in [0i32, -1, 42, i32::MIN, i32::MAX] {
        assert_eq!(signed_decimal_text(n), n.to_string());
    }
}

#[test]
fn labels_differ_only_in_more_than_ascii_case() {
    assert!(label_eq("SDI In 1", "sdi IN 1"));
    assert!(!label_eq("\u{c4}", "\u{e4}"));
    assert!(!label_eq("a", "ab"));
    assert!(same_fold("", ""));
    assert!(same("a\u{e9}", "a\u{e9}"));
    assert!(!same("a", "A"));
}

#[test]
fn prefixes_are_stripped() {
    assert_eq!(strip_prefix("name:x", "name:"), Some("x".to_string()));
    assert_eq!(strip_prefix("nam", "name:"), None);
    assert_eq!(join(&strings(&["a", "b", "c"]), ", "), "a, b, c");
    assert_eq!(join(&strings(&[]), ", "), "");
}

#[test]
fn utf8_failures_say_where_the_bytes_break() {
    let cases: [&[u8]; 6] = [
        b"plain",
        b"ab\xFFcd",
        b"\xC3",
        b"x\xE2\x82",
        b"\xF0\x28\x8C\xBC",
        "caf\u{e9} \u{1f600}".as_bytes(),
    ];
    for bytes in cases {
        let expected = std::str::from_utf8(bytes);
        match decode_text(bytes) {
            Ok(text) => assert_eq!(text, expected.unwrap()),
            Err(failure) => {
                let error = expected.unwrap_err();
                assert_eq!(failure.valid_up_to, error.valid_up_to());
                assert_eq!(failure.error_len, error.error_len());
                assert_eq!(failure.to_string(), error.to_string());
            }
        }
    }
    let failure = Utf8Failure { valid_up_to: 2, error_len: None };
    assert_eq!(failure.to_string(), "incomplete utf-8 byte sequence from index 2");
}

#[test]
fn oids_are_read_from_numbers_and_names() {
    let numeric = |text: &str| ParameterOid::from_str(text).unwrap().as_numeric();
    assert_eq!(numeric("0x0105"), Some(0x0105));
    assert_eq!(numeric("0XfF03"), Some(0xFF03));
    assert_eq!(numeric(" 261 "), Some(261));
    assert_eq!(numeric("65535"), Some(0xFFFF));
    for text in ["gain", "_x", "a.b-c_d", "card.1x", "a."] {
        assert_eq!(ParameterOid::from_str(text).unwrap(), ParameterOid::String(text.to_string()));
    }
    for text in ["", "0x", "0x10000", "65536", "1abc", "a b", "a.1", "x.y.22", ".a", "-a", "\u{e9}"] {
        let error = ParameterOid::from_str(text).unwrap_err();
        assert_eq!(error.to_string(), format!("invalid OID: {}", text.trim()));
    }
    let longest = "a".repeat(254);
    assert!(ParameterOid::from_str(&longest).is_ok());
    assert!(ParameterOid::from_str(&"a".repeat(255)).is_err());
}

#[test]
fn selectors_are_read_and_written() {
    assert_eq!(
        parse_selector("oid:0x1201").unwrap(),
        ParameterSelector::Oid(ParameterOid::Numeric(0x1201))
    );
    assert_eq!(
        parse_selector("name:Product").unwrap(),
        ParameterSelector::DisplayName("Product".to_string())
    );
    assert_eq!(parse_selector("0x0105").unwrap(), ParameterSelector::Auto("0x0105".to_string()));
    assert_eq!(
        parse_selector("symbol:x").unwrap_err(),
        "symbol selectors are not supported; use an OID or display name"
    );
    for text in ["", "name:", "oid:", "oid:a b"] {
        assert_eq!(
            parse_selector(text).unwrap_err(),
            format!("invalid parameter selector: {text}")
        );
    }
    for text in ["oid:gain", "oid:0x00FF", "name:a name", "plain", "0x12"] {
        let selector = ParameterSelector::from_str(text).unwrap();
        assert_eq!(selector.to_string(), text);
        assert_eq!(ParameterSelector::from_str(&selector.to_string()).unwrap(), selector);
    }
}

#[test]
fn slots_are_one_to_twenty() {
    assert_eq!(parse_slot("1").unwrap().get(), 1);
    assert_eq!(parse_slot("20").unwrap().address(), 0x24);
    assert_eq!(parse_slot("0").unwrap_err(), "slot must be between 1 and 20, received 0");
    assert_eq!(parse_slot("21").unwrap_err(), "slot must be between 1 and 20, received 21");
    assert_eq!(parse_slot("256").unwrap_err(), "invalid slot: 256");
    assert_eq!(parse_slot("x").unwrap_err(), "invalid slot: x");
}

#[test]
fn tables_show_line_breaks_and_keep_their_lines() {
    let rows = vec![strings(&["a\nb", "1"]), strings(&["c", "22\r"])];
    let lines = draw(&strings(&["KEY", "N"]), &rows);
    assert_eq!(
        lines,
        [
            "+------+------+",
            "| KEY  | N    |",
            "+------+------+",
            "| a\\nb | 1    |",
            "| c    | 22\\r |",
            "+------+------+",
        ]
    );
    let table = lines.join("\n");
    assert_eq!(table.lines().collect::<Vec<_>>(), lines);
}
