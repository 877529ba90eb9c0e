use langextract_rust::coercion::{coerce_value, ValueKind};
use langextract_rust::data::AlignmentStatus;
use langextract_rust::json::{parse_document, JsonValue};
use langextract_rust::repair::{
    balance_chars, drop_trailing_commas_chars, strip_fence_chars, trim_chars,
};
use langextract_rust::resolver::{
    map_document, parse_with_repairs, IssueKind, Resolver, ValidationConfig, ValidationIssue,
};
use langextract_rust::text::{from_chars, to_chars};

fn fields(names: &[&str]) -> Vec<String> {
    names.iter().map(|n| n.to_string()).collect()
}

fn kinds(issues: &Vec<ValidationIssue>) -> Vec<IssueKind> {
    issues.iter().map(|i| i.kind).collect()
}

fn pair(k: &str, v: &str) -> (String, String) {
    (k.to_string(), v.to_string())
}

fn stripped(raw: &str) -> String {
    from_chars(&strip_fence_chars(&to_chars(raw)))
}

fn without_commas(raw: &str) -> String {
    from_chars(&drop_trailing_commas_chars(&to_chars(raw)))
}

fn balanced(raw: &str) -> String {
    from_chars(&balance_chars(&to_chars(raw)))
}

fn generated(count: usize) -> String {
    let mut items = Vec::new();
    for i in 0..count {
        items.push(format!(
            "{{\"name\": \"Entity {}\", \"value\": \"{}\", \"category\": \"type_{}\"}}",
            i,
            i * 17 + 3,
            i % 5
        ));
    }
    format!("[{}]", items.join(","))
}

#[test]
fn json_text_is_parsed_into_a_tree() {
    match parse_document("[1, \"two\", true, null, {\"b\": -2.5, \"a\": []}]").unwrap() {
        JsonValue::Array(items) => {
            assert_eq!(items.len(), 5);
            assert!(matches!(&items[0], JsonValue::Number(n) if n == "1"));
            assert!(matches!(&items[1], JsonValue::Text(s) if s == "two"));
            assert!(matches!(&items[2], JsonValue::Bool(true)));
            assert!(matches!(&items[3], JsonValue::Null));
            match &items[4] {
                JsonValue::Object(entries) => {
                    assert_eq!(entries.len(), 2);
                    assert_eq!(entries[0].0, "b");
                    assert!(matches!(&entries[0].1, JsonValue::Number(n) if n == "-2.5"));
                    assert_eq!(entries[1].0, "a");
                    assert!(matches!(&entries[1].1, JsonValue::Array(inner) if inner.is_empty()));
                }
                _ => panic!("object expected"),
            }
        }
        _ => panic!("array expected"),
    }
    assert!(parse_document("[1, 2").is_err());
    assert!(parse_document("").is_err());
    assert_eq!(parse_document("{,}").unwrap_err(), "key must be a string at line 1 column 2");
}

#[test]
fn scalar_texts() {
    assert_eq!(JsonValue::Bool(true).scalar_string(), "true");
    assert_eq!(JsonValue::Bool(false).scalar_string(), "false");
    assert_eq!(JsonValue::Number("12".to_string()).scalar_string(), "12");
    assert_eq!(JsonValue::Text("x y".to_string()).scalar_string(), "x y");
    assert!(JsonValue::Text(String::new()).has_scalar());
    assert!(!JsonValue::Null.has_scalar());
    assert!(!JsonValue::Array(vec![]).has_scalar());
    assert!(!JsonValue::Object(vec![]).has_scalar());
}

#[test]
fn well_formed_arrays_give_one_extraction_per_object() {
    let resolver = Resolver::new();
    let expected = fields(&["name_0", "name_1", "name_2"]);
    for count in [0usize, 1, 5, 20] {
        let (records, result) = resolver.validate_and_parse(&generated(count), &expected).unwrap();
        assert_eq!(records.len(), count);
        for (i, record) in records.iter().enumerate() {
            assert_eq!(record.extraction_class, "name");
            assert_eq!(record.extraction_text, format!("Entity {}", i));
            assert_eq!(
                record.attributes,
                vec![pair("value", &format!("{}", i * 17 + 3)), pair("category", &format!("type_{}", i % 5))]
            );
            assert_eq!(record.char_interval, None);
            assert_eq!(record.alignment_status, AlignmentStatus::Unaligned);
        }
        assert!(result.errors.is_empty());
        assert_eq!(result.warnings.len(), 3 * count);
        assert!(result.warnings.iter().all(|w| w.kind == IssueKind::MissingField));
        assert_eq!(result.raw_output_file, None);
    }
}

#[test]
fn recognized_fields_each_give_an_extraction() {
    let resolver = Resolver::new();
    let expected = fields(&["name", "value", "category"]);
    let (records, result) = resolver.validate_and_parse(&generated(4), &expected).unwrap();
    assert_eq!(records.len(), 12);
    assert_eq!(records[0].extraction_class, "name");
    assert_eq!(records[0].extraction_text, "Entity 0");
    assert_eq!(records[1].extraction_class, "value");
    assert_eq!(records[1].extraction_text, "3");
    assert_eq!(records[2].extraction_class, "category");
    assert_eq!(records[2].extraction_text, "type_0");
    assert_eq!(records[11].extraction_text, "type_3");
    assert!(records.iter().all(|r| r.attributes.is_empty()));
    assert!(result.warnings.is_empty());
    assert!(result.errors.is_empty());
}

#[test]
fn trailing_comma_is_repaired() {
    let resolver = Resolver::new();
    let (records, result) = resolver
        .validate_and_parse("[{\"name\": \"Entity 0\", \"value\": \"3\",}]", &fields(&["name"]))
        .unwrap();
    assert_eq!(records.len(), 1);
    assert_eq!(records[0].extraction_class, "name");
    assert_eq!(records[0].extraction_text, "Entity 0");
    assert_eq!(records[0].attributes, vec![pair("value", "3")]);
    assert_eq!(kinds(&result.warnings), vec![IssueKind::TrailingCommaRemoved]);
    assert_eq!(result.warnings[0].row, None);
    assert_eq!(result.warnings[0].field, None);
    assert!(result.errors.is_empty());
}

#[test]
fn trailing_comma_without_expected_fields() {
    let (records, result) = Resolver::new()
        .validate_and_parse("[{\"name\": \"Entity 0\", \"value\": \"3\",}]", &vec![])
        .unwrap();
    assert_eq!(records.len(), 1);
    assert_eq!(records[0].extraction_text, "Entity 0");
    assert_eq!(kinds(&result.warnings), vec![IssueKind::TrailingCommaRemoved]);
}

#[test]
fn open_brackets_are_closed() {
    let (records, result) =
        Resolver::new().validate_and_parse("[{\"name\": \"A\"}, {\"name\": \"B\"", &fields(&["name"])).unwrap();
    assert_eq!(records.len(), 2);
    assert_eq!(records[1].extraction_text, "B");
    assert_eq!(kinds(&result.warnings), vec![IssueKind::BracketsClosed]);

    let (records, result) =
        Resolver::new().validate_and_parse("[{\"name\": \"A\",}, {\"name\": \"B", &fields(&["name"])).unwrap();
    assert_eq!(records.len(), 2);
    assert_eq!(records[1].extraction_text, "B");
    assert_eq!(kinds(&result.warnings), vec![IssueKind::TrailingCommaRemoved, IssueKind::BracketsClosed]);
}

#[test]
fn fenced_responses_are_unwrapped() {
    let resolver = Resolver::new();
    let expected = fields(&["name"]);
    for raw in [
        "```json\n[{\"name\": \"A\"}]\n```",
        "```\n[{\"name\": \"A\"}]\n```",
        "  ```JSON\n[{\"name\": \"A\"}]\n```  \n",
        "```json\n[{\"name\": \"A\"}]",
        "```[{\"name\": \"A\"}]```",
        "\n[{\"name\": \"A\"}]\n",
    ] {
        let (records, result) = resolver.validate_and_parse(raw, &expected).unwrap();
        assert_eq!(records.len(), 1);
        assert_eq!(records[0].extraction_text, "A");
        assert!(result.warnings.is_empty());
    }
}

#[test]
fn fence_stripping() {
    assert_eq!(stripped("```json\n[1]\n```"), "[1]");
    assert_eq!(stripped("  [1]  "), "[1]");
    assert_eq!(stripped("```\n\n  [1]\n\n```\n"), "[1]");
    assert_eq!(stripped("```[1]```"), "[1]");
    assert_eq!(stripped("```json"), "json");
    assert_eq!(stripped("```json\n"), "json");
    assert_eq!(stripped("```json\n\n```"), "");
    assert_eq!(stripped("``` "), "");
    assert_eq!(stripped("``"), "``");
    assert_eq!(stripped(""), "");
    assert_eq!(stripped("   \n\t"), "");
    assert_eq!(stripped("```python\nprint(1)\n``` extra"), "print(1)\n``` extra");
    assert_eq!(from_chars(&trim_chars(&to_chars("\t a b \r\n"))), "a b");
}

#[test]
fn trailing_commas_are_dropped_outside_strings() {
    assert_eq!(without_commas("[1, 2, ]"), "[1, 2 ]");
    assert_eq!(without_commas("{\"a\": 1,}"), "{\"a\": 1}");
    assert_eq!(without_commas("{\"a\": [1,\n],\n}"), "{\"a\": [1\n]\n}");
    assert_eq!(without_commas("[\",]\", 1]"), "[\",]\", 1]");
    assert_eq!(without_commas("[\"a\\\",]\", 1,]"), "[\"a\\\",]\", 1]");
    assert_eq!(without_commas("[1, 2]"), "[1, 2]");
    assert_eq!(without_commas(","), ",");
    assert_eq!(without_commas(""), "");
}

#[test]
fn open_strings_and_brackets_are_closed() {
    assert_eq!(balanced("[{\"a\": [1"), "[{\"a\": [1]}]");
    assert_eq!(balanced("{\"a\": \"b"), "{\"a\": \"b\"}");
    assert_eq!(balanced("[1, 2]"), "[1, 2]");
    assert_eq!(balanced("[\"[{\"]"), "[\"[{\"]");
    assert_eq!(balanced("[1}"), "[1}]");
    assert_eq!(balanced("]"), "]");
    assert_eq!(balanced(""), "");
    assert_eq!(balanced("\"a\\\""), "\"a\\\"\"");
}

#[test]
fn a_single_object_is_a_list_of_one() {
    let (records, result) = Resolver::new()
        .validate_and_parse("{\"person\": \"Ada\", \"year\": 1843}", &fields(&["person", "year", "place"]))
        .unwrap();
    assert_eq!(records.len(), 2);
    assert_eq!(records[0].extraction_class, "person");
    assert_eq!(records[0].extraction_text, "Ada");
    assert_eq!(records[1].extraction_class, "year");
    assert_eq!(records[1].extraction_text, "1843");
    assert_eq!(kinds(&result.warnings), vec![IssueKind::LoneObjectWrapped, IssueKind::MissingField]);
    assert_eq!(result.warnings[1].field, Some("place".to_string()));
    assert_eq!(result.warnings[1].row, Some(0));
}

#[test]
fn unresolvable_responses_fail() {
    let resolver = Resolver::new();
    let expected = fields(&["name"]);
    assert!(resolver.validate_and_parse("I could not find anything.", &expected).is_err());
    assert!(resolver.validate_and_parse("", &expected).is_err());
    assert!(resolver.validate_and_parse("42", &expected).is_err());
    assert!(resolver.validate_and_parse("\"text\"", &expected).is_err());
    assert!(resolver.validate_and_parse("null", &expected).is_err());
    assert!(resolver.validate_and_parse("[1}", &expected).is_err());
    let error = resolver.validate_and_parse("[{\"a\" 1}]", &expected).unwrap_err();
    let parser = serde_json::from_str::<serde_json::Value>("[{\"a\" 1}]").unwrap_err().to_string();
    assert_eq!(error.message, parser);
    let error = resolver.validate_and_parse("```json\n[1 2,\n```", &expected).unwrap_err();
    let parser = serde_json::from_str::<serde_json::Value>("[1 2]").unwrap_err().to_string();
    assert_eq!(error.message, parser);
    let error = resolver.validate_and_parse("42", &expected).unwrap_err();
    assert_eq!(error.message, "the response is not a list or an object");
    let error = resolver.validate_and_parse("", &expected).unwrap_err();
    assert_eq!(error.message, "EOF while parsing a value at line 1 column 0");
}

#[test]
fn rows_and_values_that_cannot_be_used_are_reported() {
    let raw = "[{\"name\": \"A\", \"tags\": [\"x\"], \"meta\": {\"k\": 1}, \"gone\": null}, 7, \"s\", {\"other\": true}]";
    let (records, result) = Resolver::new().validate_and_parse(raw, &fields(&["name"])).unwrap();
    assert_eq!(records.len(), 2);
    assert_eq!(records[0].extraction_class, "name");
    assert!(records[0].attributes.is_empty());
    assert_eq!(records[1].extraction_class, "other");
    assert_eq!(records[1].extraction_text, "true");
    assert_eq!(kinds(&result.errors), vec![IssueKind::NotAnObject, IssueKind::NotAnObject]);
    assert_eq!(result.errors[0].row, Some(1));
    assert_eq!(result.errors[1].row, Some(2));
    assert_eq!(
        kinds(&result.warnings),
        vec![
            IssueKind::UnusableValue,
            IssueKind::UnusableValue,
            IssueKind::UnusableValue,
            IssueKind::MissingField
        ]
    );
    assert_eq!(result.warnings[0].field, Some("tags".to_string()));
    assert_eq!(result.warnings[2].field, Some("gone".to_string()));
    assert_eq!(result.warnings[3].row, Some(3));
    assert_eq!(result.warnings[3].field, Some("name".to_string()));
}

#[test]
fn rows_without_usable_fields_give_nothing() {
    let (records, result) =
        Resolver::new().validate_and_parse("[{}, {\"a\": null}, {\"b\": []}]", &vec![]).unwrap();
    assert!(records.is_empty());
    assert_eq!(kinds(&result.warnings), vec![IssueKind::UnusableValue, IssueKind::UnusableValue]);
    assert!(result.errors.is_empty());
}

#[test]
fn attribute_values_are_normalised_and_texts_are_not() {
    let raw = "[{\"name\": \"Widget A\", \"count\": \"42\", \"active\": \"yes\", \"price\": \"$19.99\", \"ratio\": 3.14, \"ok\": true}]";
    let (records, _) =
        Resolver::new().validate_and_parse(raw, &fields(&["name", "count", "active"])).unwrap();
    assert_eq!(records.len(), 3);
    assert_eq!(records[0].extraction_text, "Widget A");
    assert_eq!(records[1].extraction_text, "42");
    assert_eq!(records[2].extraction_class, "active");
    assert_eq!(records[2].extraction_text, "yes");
    let attributes = vec![pair("price", "19.99"), pair("ratio", "3.14"), pair("ok", "true")];
    for record in &records {
        assert_eq!(record.attributes, attributes);
    }
}

#[test]
fn documents_are_mapped_without_parsing() {
    let document = JsonValue::Array(vec![
        JsonValue::Object(vec![
            ("city".to_string(), JsonValue::Text("Oslo".to_string())),
            ("people".to_string(), JsonValue::Text("1,000,000".to_string())),
        ]),
        JsonValue::Null,
    ]);
    let (records, result) = map_document(&document, &fields(&["city", "country"])).unwrap();
    assert_eq!(records.len(), 1);
    assert_eq!(records[0].extraction_text, "Oslo");
    assert_eq!(records[0].attributes, vec![pair("people", "1000000")]);
    assert_eq!(kinds(&result.warnings), vec![IssueKind::MissingField]);
    assert_eq!(kinds(&result.errors), vec![IssueKind::NotAnObject]);
    assert!(map_document(&JsonValue::Text("x".to_string()), &vec![]).is_none());
    assert!(map_document(&JsonValue::Null, &vec![]).is_none());
    let (records, result) = map_document(&JsonValue::Array(vec![]), &fields(&["a"])).unwrap();
    assert!(records.is_empty() && result.warnings.is_empty() && result.errors.is_empty());
}

#[test]
fn repairs_are_tried_in_order() {
    let (document, issues) = parse_with_repairs(&to_chars("[1, 2]")).unwrap();
    assert!(matches!(document, JsonValue::Array(ref items) if items.len() == 2));
    assert!(issues.is_empty());
    let (_, issues) = parse_with_repairs(&to_chars("[1, 2,]")).unwrap();
    assert_eq!(kinds(&issues), vec![IssueKind::TrailingCommaRemoved]);
    let (_, issues) = parse_with_repairs(&to_chars("[1, 2")).unwrap();
    assert_eq!(kinds(&issues), vec![IssueKind::BracketsClosed]);
    assert!(parse_with_repairs(&to_chars("[1 2]")).is_err());
}

#[test]
fn issue_messages() {
    let issue = ValidationIssue { kind: IssueKind::MissingField, row: Some(2), field: Some("name".to_string()) };
    assert_eq!(issue.message(), "expected field is missing: name");
    let issue = ValidationIssue { kind: IssueKind::TrailingCommaRemoved, row: None, field: None };
    assert_eq!(issue.message(), "removed trailing commas");
    let issue = ValidationIssue { kind: IssueKind::BracketsClosed, row: None, field: None };
    assert_eq!(issue.message(), "closed open brackets");
    let issue = ValidationIssue { kind: IssueKind::LoneObjectWrapped, row: None, field: None };
    assert_eq!(issue.message(), "treated a single object as a list of one");
    let issue = ValidationIssue { kind: IssueKind::UnusableValue, row: Some(0), field: Some("a".to_string()) };
    assert_eq!(issue.message(), "field value is not a string, number or boolean: a");
    let issue = ValidationIssue { kind: IssueKind::NotAnObject, row: Some(1), field: None };
    assert_eq!(issue.message(), "list element is not an object");
}

#[test]
fn currency_amount_becomes_a_plain_number() {
    let value = coerce_value("$19.99");
    assert_eq!(value.kind, ValueKind::Number);
    assert_eq!(value.text, "19.99");
}

#[test]
fn yes_becomes_true() {
    let value = coerce_value("yes");
    assert_eq!(value.kind, ValueKind::Boolean);
    assert_eq!(value.text, "true");
}

#[test]
fn boolean_words_in_any_case() {
    for raw in ["true", "TRUE", "Yes", " yEs\n", "True"] {
        let value = coerce_value(raw);
        assert_eq!((value.kind, value.text.as_str()), (ValueKind::Boolean, "true"));
    }
    for raw in ["false", "No", "NO", " no ", "False"] {
        let value = coerce_value(raw);
        assert_eq!((value.kind, value.text.as_str()), (ValueKind::Boolean, "false"));
    }
    for raw in ["y", "n", "yess", "truth", "0ff", "not"] {
        assert_eq!(coerce_value(raw).kind, ValueKind::Text);
    }
}

#[test]
fn numbers_lose_symbols_and_grouping() {
    let number = |raw: &str| {
        let value = coerce_value(raw);
        assert_eq!(value.kind, ValueKind::Number, "{}", raw);
        value.text
    };
    assert_eq!(number("42"), "42");
    assert_eq!(number(" 42 "), "42");
    assert_eq!(number("1,234,567"), "1234567");
    assert_eq!(number("1,234.50"), "1234.50");
    assert_eq!(number("-7"), "-7");
    assert_eq!(number("-$1,000"), "-1000");
    assert_eq!(number("\u{20ac}5"), "5");
    assert_eq!(number("\u{a3}0.5"), "0.5");
    assert_eq!(number("\u{a5}100"), "100");
    assert_eq!(number("3.14"), "3.14");
    assert_eq!(number("007"), "007");
}

#[test]
fn other_values_stay_as_they_are() {
    for raw in [
        "", " ", "abc", "12a", "1.", ".5", "1.2.3", "$", "-", "$-5", "1,", ",1", "1 000", "1.2,3", "+5",
        "$$5", "5$", "Entity 0", "type_1", "  padded  ", "1e5", "--1",
    ] {
        let value = coerce_value(raw);
        assert_eq!(value.kind, ValueKind::Text, "{:?}", raw);
        assert_eq!(value.text, raw);
    }
}

#[test]
fn normalising_twice_changes_nothing_more() {
    for raw in ["$19.99", "yes", "No", "1,234", " 42 ", "abc", "-\u{20ac}1,0.5", "TRUE"] {
        let once = coerce_value(raw);
        let twice = coerce_value(&once.text);
        assert_eq!(once.kind, twice.kind);
        assert_eq!(once.text, twice.text);
    }
}

#[test]
fn resolver_settings() {
    assert!(!Resolver::new().keeps_raw_outputs());
    let resolver = Resolver::with_validation_config(ValidationConfig { save_raw_outputs: true });
    assert!(resolver.keeps_raw_outputs());
    assert!(!ValidationConfig::default().save_raw_outputs);
    let (_, result) = resolver.validate_and_parse("[]", &vec![]).unwrap();
    assert_eq!(result.raw_output_file, None);
    let kept = result.with_raw_output_file("raw/0001.txt".to_string());
    assert_eq!(kept.raw_output_file, Some("raw/0001.txt".to_string()));
}
