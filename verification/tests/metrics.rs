use editor_shell::glyph::GlyphTable;
use editor_shell::metrics::{chars_of, key_of, parse_width, MetricsError};

fn error_of(outcome: Result<GlyphTable, MetricsError>) -> Option<MetricsError> {
    match outcome {
        Ok(_) => None,
        Err(error) => Some(error),
    }
}

#[test]
fn width_of_whole_pixels() {
    assert_eq!(parse_width("0"), Some(0));
    assert_eq!(parse_width("7"), Some(7000));
    assert_eq!(parse_width("12"), Some(12000));
    assert_eq!(parse_width("007"), Some(7000));
}

#[test]
fn width_with_a_fraction() {
    assert_eq!(parse_width("6.67"), Some(6670));
    assert_eq!(parse_width("3.3"), Some(3300));
    assert_eq!(parse_width("0.001"), Some(1));
    assert_eq!(parse_width("7.0"), Some(7000));
    assert_eq!(parse_width("10.125"), Some(10125));
}

#[test]
fn width_is_rounded_to_the_nearest_unit() {
    assert_eq!(parse_width("6.673828125"), Some(6674));
    assert_eq!(parse_width("6.6734"), Some(6673));
    assert_eq!(parse_width("6.6735"), Some(6674));
    assert_eq!(parse_width("6.67349999"), Some(6673));
    assert_eq!(parse_width("0.0004"), Some(0));
    assert_eq!(parse_width("0.0005"), Some(1));
    assert_eq!(parse_width("0.9995"), Some(1000));
    assert_eq!(parse_width("1.9999"), Some(2000));
    assert_eq!(parse_width("0.00000000000000000000000000000000000001"), Some(0));
}

#[test]
fn width_must_be_a_plain_decimal() {
    for text in [
        "", ".", ".5", "5.", "-1", "+1", "1e3", "1E3", "1.5e2", "1.2.3", "1..2", " 1", "1 ", "1,5",
        "abc", "\"7\"", "null", "true", "[1]", "{}", "0x10", "1_000", "\u{661}", "1.\u{662}",
    ] {
        assert_eq!(parse_width(text), None, "{:?}", text);
    }
}

#[test]
fn width_must_fit() {
    assert_eq!(parse_width("4294967.295"), Some(u32::MAX));
    assert_eq!(parse_width("4294967.2954"), Some(u32::MAX));
    assert_eq!(parse_width("4294967.2955"), None);
    assert_eq!(parse_width("4294967.296"), None);
    assert_eq!(parse_width("4294967"), Some(4294967000));
    assert_eq!(parse_width("4294968"), None);
    assert_eq!(parse_width("4294968.0"), None);
    assert_eq!(parse_width("99999999999999999999999999999999999999999999"), None);
    assert_eq!(parse_width("18446744073709551616"), None);
    assert_eq!(parse_width("00000000000000000000000000000000000000000001.5"), Some(1500));
}

#[test]
fn key_is_exactly_one_character() {
    assert_eq!(key_of("a"), Some('a'));
    assert_eq!(key_of(" "), Some(' '));
    assert_eq!(key_of("\u{e9}"), Some('\u{e9}'));
    assert_eq!(key_of("\u{1F600}"), Some('\u{1F600}'));
    assert_eq!(key_of(""), None);
    assert_eq!(key_of("ab"), None);
    assert_eq!(key_of("e\u{301}"), None);
}

#[test]
fn chars_of_splits_into_characters() {
    assert_eq!(chars_of(""), Vec::<char>::new());
    assert_eq!(chars_of("a.b"), vec!['a', '.', 'b']);
    assert_eq!(chars_of("\u{e9}\u{4e2d}"), vec!['\u{e9}', '\u{4e2d}']);
}

fn member(key: &str, value: &str) -> (String, String) {
    (key.to_string(), value.to_string())
}

#[test]
fn table_from_members() {
    let table =
        GlyphTable::from_members(&vec![member("a", "6.67"), member("i", "2.66"), member(" ", "3")])
            .unwrap();
    assert_eq!(table.width_of('a'), 6670);
    assert_eq!(table.width_of('i'), 2660);
    assert_eq!(table.width_of(' '), 3000);
    assert_eq!(table.width_of('b'), 7000);
    assert_eq!(table.measure("ai b"), 6670 + 2660 + 3000 + 7000);
}

#[test]
fn table_from_no_members_is_empty() {
    let table = GlyphTable::from_members(&vec![]).unwrap();
    assert_eq!(table.width_of('a'), 7000);
}

#[test]
fn later_member_counts() {
    let table = GlyphTable::from_members(&vec![member("a", "1"), member("a", "2")]).unwrap();
    assert_eq!(table.width_of('a'), 2000);
}

#[test]
fn first_member_out_of_order_decides_the_error() {
    assert_eq!(
        error_of(GlyphTable::from_members(&vec![member("ab", "1")])),
        Some(MetricsError::BadKey)
    );
    assert_eq!(
        error_of(GlyphTable::from_members(&vec![member("a", "-1")])),
        Some(MetricsError::BadWidth)
    );
    assert_eq!(
        error_of(GlyphTable::from_members(&vec![member("", "x")])),
        Some(MetricsError::BadKey)
    );
    assert_eq!(
        error_of(GlyphTable::from_members(&vec![
            member("a", "1"),
            member("b", "x"),
            member("cc", "1")
        ])),
        Some(MetricsError::BadWidth)
    );
    assert_eq!(
        error_of(GlyphTable::from_members(&vec![
            member("a", "1"),
            member("cc", "1"),
            member("b", "x")
        ])),
        Some(MetricsError::BadKey)
    );
}

#[test]
fn table_from_json() {
    let text = "{\n  \"a\": 6.673828125,\n  \"i\" : 2.66,\n  \" \": 3,\n  \"W\": 11.0 }";
    let table = GlyphTable::from_json(text).unwrap();
    assert_eq!(table.width_of('a'), 6674);
    assert_eq!(table.width_of('i'), 2660);
    assert_eq!(table.width_of(' '), 3000);
    assert_eq!(table.width_of('W'), 11000);
    assert_eq!(table.width_of('x'), 7000);
    assert_eq!(table.measure("Wi a"), 11000 + 2660 + 3000 + 6674);
}

#[test]
fn json_keys_are_read_as_json_strings() {
    let table = GlyphTable::from_json("{\"\\u0041\": 1.5, \"\\\"\": 2, \"\\\\\": 2.5}").unwrap();
    assert_eq!(table.width_of('A'), 1500);
    assert_eq!(table.width_of('"'), 2000);
    assert_eq!(table.width_of('\\'), 2500);
}

#[test]
fn json_of_an_empty_object_is_an_empty_table() {
    let table = GlyphTable::from_json(" { } ").unwrap();
    assert_eq!(table.width_of('a'), 7000);
}

#[test]
fn json_with_a_repeated_key_keeps_the_last() {
    let table = GlyphTable::from_json("{\"a\": 1, \"a\": 2}").unwrap();
    assert_eq!(table.width_of('a'), 2000);
}

#[test]
fn json_that_is_no_object_is_a_syntax_error() {
    for text in ["", "   ", "{", "{\"a\": 1", "[1, 2]", "7", "\"a\"", "null", "{\"a\": 1} x",
        "{a: 1}", "{\"a\": 01}", "{\"a\": 1,}", "{\"a\" 1}", "not json"]
    {
        assert_eq!(error_of(GlyphTable::from_json(text)), Some(MetricsError::Syntax), "{:?}", text);
    }
}

#[test]
fn json_with_a_bad_key_or_width() {
    assert_eq!(error_of(GlyphTable::from_json("{\"ab\": 1}")), Some(MetricsError::BadKey));
    assert_eq!(error_of(GlyphTable::from_json("{\"\": 1}")), Some(MetricsError::BadKey));
    assert_eq!(error_of(GlyphTable::from_json("{\"a\": -1}")), Some(MetricsError::BadWidth));
    assert_eq!(error_of(GlyphTable::from_json("{\"a\": \"7\"}")), Some(MetricsError::BadWidth));
    assert_eq!(error_of(GlyphTable::from_json("{\"a\": null}")), Some(MetricsError::BadWidth));
    assert_eq!(error_of(GlyphTable::from_json("{\"a\": [7]}")), Some(MetricsError::BadWidth));
    assert_eq!(error_of(GlyphTable::from_json("{\"a\": 1e2}")), Some(MetricsError::BadWidth));
    assert_eq!(
        error_of(GlyphTable::from_json("{\"a\": 4294968}")),
        Some(MetricsError::BadWidth)
    );
}
