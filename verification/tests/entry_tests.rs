use log_relay::entry::{flatten_xrange, string_or_none, Entry, FieldValue};

fn data(text: &str) -> FieldValue {
    FieldValue::Data(text.as_bytes().to_vec())
}

fn entry(id: &str, fields: Vec<FieldValue>) -> Entry {
    Entry { id: id.to_string(), fields }
}

fn strings(lines: &[&str]) -> Vec<String> {
    lines.iter().map(|line| line.to_string()).collect()
}

#[test]
fn string_or_none_decodes_utf8_payload() {
    assert_eq!(string_or_none(data("hello")), Some("hello".to_string()));
}

#[test]
fn string_or_none_decodes_multibyte_payload() {
    let bytes = vec![0x68, 0xc3, 0xa9, 0x20, 0xe2, 0x82, 0xac, 0x20, 0xf0, 0x9f, 0x99, 0x82];
    let text = string_or_none(FieldValue::Data(bytes)).unwrap();
    assert_eq!(text, "h\u{e9} \u{20ac} \u{1f642}");
    assert_eq!(text.chars().count(), 6);
}

#[test]
fn string_or_none_keeps_empty_payload() {
    assert_eq!(string_or_none(FieldValue::Data(Vec::new())), Some(String::new()));
}

#[test]
fn string_or_none_drops_invalid_utf8() {
    assert_eq!(string_or_none(FieldValue::Data(vec![0xff, 0xfe, 0x41])), None);
}

#[test]
fn string_or_none_drops_truncated_sequence() {
    assert_eq!(string_or_none(FieldValue::Data(vec![0x61, 0xe2, 0x82])), None);
}

#[test]
fn string_or_none_drops_surrogate_and_overlong() {
    assert_eq!(string_or_none(FieldValue::Data(vec![0xed, 0xa0, 0x80])), None);
    assert_eq!(string_or_none(FieldValue::Data(vec![0xc0, 0xaf])), None);
}

#[test]
fn string_or_none_drops_values_that_are_not_payloads() {
    assert_eq!(string_or_none(FieldValue::Other), None);
}

#[test]
fn flatten_xrange_of_nothing_is_empty() {
    assert_eq!(flatten_xrange(Vec::new(), &None), Vec::<String>::new());
    assert_eq!(flatten_xrange(vec![entry("1-0", Vec::new())], &None), Vec::<String>::new());
}

#[test]
fn flatten_xrange_keeps_entry_and_field_order() {
    let range = vec![
        entry("1-0", vec![data("a"), data("b")]),
        entry("2-0", vec![data("c")]),
        entry("2-1", vec![data("d"), data("e"), data("f")]),
    ];
    assert_eq!(flatten_xrange(range, &None), strings(&["a", "b", "c", "d", "e", "f"]));
}

#[test]
fn flatten_xrange_is_the_same_over_any_split() {
    let all = vec![
        entry("1-0", vec![data("a"), FieldValue::Other]),
        entry("2-0", vec![data("b"), data("c")]),
        entry("3-0", vec![FieldValue::Data(vec![0x80]), data("d")]),
    ];
    let whole = flatten_xrange(all.clone(), &None);
    for cut in 0..=all.len() {
        let mut joined = flatten_xrange(all[..cut].to_vec(), &None);
        joined.extend(flatten_xrange(all[cut..].to_vec(), &None));
        assert_eq!(joined, whole);
    }
    assert_eq!(whole, strings(&["a", "b", "c", "d"]));
}

#[test]
fn flatten_xrange_drops_undecodable_fields_only() {
    let range = vec![
        entry("1-0", vec![data("before"), FieldValue::Data(vec![0xc3, 0x28]), data("after")]),
        entry("2-0", vec![FieldValue::Other, data("next")]),
    ];
    assert_eq!(flatten_xrange(range, &None), strings(&["before", "after", "next"]));
}

#[test]
fn entry_with_sole_invalid_payload_contributes_no_line() {
    let range = vec![
        entry("1-0", vec![data("x")]),
        entry("2-0", vec![FieldValue::Data(vec![0xff])]),
        entry("3-0", vec![data("y")]),
    ];
    assert_eq!(flatten_xrange(range.clone(), &None), strings(&["x", "y"]));
    assert_eq!(flatten_xrange(range, &Some("y".to_string())), strings(&["y"]));
    let alone = vec![entry("2-0", vec![FieldValue::Data(vec![0xff])])];
    assert_eq!(flatten_xrange(alone, &None), Vec::<String>::new());
}

#[test]
fn flatten_xrange_keeps_lines_that_contain_the_term() {
    let range = vec![
        entry("1-0", vec![data("error: disk full"), data("all good")]),
        entry("2-0", vec![data("an error again"), data("ERROR shouted")]),
    ];
    assert_eq!(
        flatten_xrange(range, &Some("error".to_string())),
        strings(&["error: disk full", "an error again"])
    );
}

#[test]
fn flatten_xrange_term_is_case_sensitive() {
    let range = vec![entry("1-0", vec![data("Warn"), data("warn"), data("WARN")])];
    assert_eq!(flatten_xrange(range, &Some("warn".to_string())), strings(&["warn"]));
}

#[test]
fn flatten_xrange_term_at_the_edges_of_a_line() {
    let range = vec![entry("1-0", vec![data("abc"), data("xab"), data("ab"), data("a"), data("ba")])];
    assert_eq!(flatten_xrange(range, &Some("ab".to_string())), strings(&["abc", "xab", "ab"]));
}

#[test]
fn flatten_xrange_term_must_be_contiguous() {
    let range = vec![entry("1-0", vec![data("a-b"), data("ab")])];
    assert_eq!(flatten_xrange(range, &Some("ab".to_string())), strings(&["ab"]));
}

#[test]
fn flatten_xrange_empty_term_keeps_every_decoded_line() {
    let range = vec![entry("1-0", vec![data("a"), data(""), FieldValue::Other, data("b")])];
    assert_eq!(flatten_xrange(range, &Some(String::new())), strings(&["a", "", "b"]));
}

#[test]
fn flatten_xrange_term_longer_than_line_drops_it() {
    let range = vec![entry("1-0", vec![data("ab")])];
    assert_eq!(flatten_xrange(range, &Some("abc".to_string())), Vec::<String>::new());
}

#[test]
fn flatten_xrange_term_with_multibyte_text() {
    let range = vec![entry("1-0", vec![data("caf\u{e9} ouvert"), data("cafe ouvert")])];
    assert_eq!(
        flatten_xrange(range, &Some("f\u{e9}".to_string())),
        strings(&["caf\u{e9} ouvert"])
    );
}

#[test]
fn flatten_xrange_without_term_returns_every_decoded_line() {
    let range = vec![entry("1-0", vec![data("x"), data("y")]), entry("2-0", vec![data("x")])];
    assert_eq!(flatten_xrange(range, &None), strings(&["x", "y", "x"]));
}
