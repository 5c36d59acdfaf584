use lsp_skill::json::{json_string, json_u64_value, object_from_entries, JsonNumber, JsonValue};
use lsp_skill::toon::{flatten_lsp, format_response, quote_string_if_needed, to_toon};

fn s(x: &str) -> JsonValue {
    json_string(x)
}

fn n(x: u64) -> JsonValue {
    json_u64_value(x)
}

fn obj(entries: Vec<(&str, JsonValue)>) -> JsonValue {
    object_from_entries(entries.into_iter().map(|(k, v)| (k.to_string(), v)).collect())
}

fn arr(items: Vec<JsonValue>) -> JsonValue {
    JsonValue::Array(items)
}

fn pos(line: u64, character: u64) -> JsonValue {
    obj(vec![("line", n(line)), ("character", n(character))])
}

fn range(sl: u64, sc: u64, el: u64, ec: u64) -> JsonValue {
    obj(vec![("start", pos(sl, sc)), ("end", pos(el, ec))])
}

#[test]
fn flattens_range_in_diagnostic() {
    let value = obj(vec![("range", range(10, 4, 10, 20)), ("message", s("x"))]);
    assert_eq!(
        flatten_lsp(&value),
        obj(vec![
            ("range_sl", n(10)),
            ("range_sc", n(4)),
            ("range_el", n(10)),
            ("range_ec", n(20)),
            ("message", s("x")),
        ])
    );
}

#[test]
fn flattens_selection_range_snake_case() {
    let value = obj(vec![("selectionRange", range(1, 2, 3, 4))]);
    assert_eq!(
        flatten_lsp(&value),
        obj(vec![
            ("selection_range_sl", n(1)),
            ("selection_range_sc", n(2)),
            ("selection_range_el", n(3)),
            ("selection_range_ec", n(4)),
        ])
    );
}

#[test]
fn flattens_location_to_five_fields() {
    let value = obj(vec![(
        "location",
        obj(vec![("uri", s("file:///a.bsl")), ("range", range(1, 0, 1, 5))]),
    )]);
    assert_eq!(
        flatten_lsp(&value),
        obj(vec![
            ("location_uri", s("file:///a.bsl")),
            ("location_sl", n(1)),
            ("location_sc", n(0)),
            ("location_el", n(1)),
            ("location_ec", n(5)),
        ])
    );
}

#[test]
fn flattens_location_link_origin_optional() {
    let value = arr(vec![
        obj(vec![
            ("originSelectionRange", range(0, 0, 0, 4)),
            ("targetUri", s("file:///x.bsl")),
            ("targetRange", range(10, 0, 20, 0)),
            ("targetSelectionRange", range(10, 0, 10, 8)),
        ]),
        obj(vec![
            ("targetUri", s("file:///y.bsl")),
            ("targetRange", range(5, 0, 15, 0)),
            ("targetSelectionRange", range(5, 0, 5, 6)),
        ]),
    ]);
    assert_eq!(
        flatten_lsp(&value),
        arr(vec![
            obj(vec![
                ("origin_selection_range_sl", n(0)),
                ("origin_selection_range_sc", n(0)),
                ("origin_selection_range_el", n(0)),
                ("origin_selection_range_ec", n(4)),
                ("target_uri", s("file:///x.bsl")),
                ("target_range_sl", n(10)),
                ("target_range_sc", n(0)),
                ("target_range_el", n(20)),
                ("target_range_ec", n(0)),
                ("target_selection_range_sl", n(10)),
                ("target_selection_range_sc", n(0)),
                ("target_selection_range_el", n(10)),
                ("target_selection_range_ec", n(8)),
            ]),
            obj(vec![
                ("origin_selection_range_sl", JsonValue::Null),
                ("origin_selection_range_sc", JsonValue::Null),
                ("origin_selection_range_el", JsonValue::Null),
                ("origin_selection_range_ec", JsonValue::Null),
                ("target_uri", s("file:///y.bsl")),
                ("target_range_sl", n(5)),
                ("target_range_sc", n(0)),
                ("target_range_el", n(15)),
                ("target_range_ec", n(0)),
                ("target_selection_range_sl", n(5)),
                ("target_selection_range_sc", n(0)),
                ("target_selection_range_el", n(5)),
                ("target_selection_range_ec", n(6)),
            ]),
        ])
    );
}

#[test]
fn inlines_from_with_prefix() {
    let value = obj(vec![(
        "from",
        obj(vec![
            ("name", s("Main")),
            ("uri", s("file:///Module.bsl")),
            ("range", range(0, 0, 30, 0)),
        ]),
    )]);
    assert_eq!(
        flatten_lsp(&value),
        obj(vec![
            ("from_name", s("Main")),
            ("from_uri", s("file:///Module.bsl")),
            ("from_range_sl", n(0)),
            ("from_range_sc", n(0)),
            ("from_range_el", n(30)),
            ("from_range_ec", n(0)),
        ])
    );
}

#[test]
fn from_ranges_stays_as_array_with_flattened_elements() {
    let value = obj(vec![("fromRanges", arr(vec![range(5, 8, 5, 20)]))]);
    assert_eq!(
        flatten_lsp(&value),
        obj(vec![(
            "from_ranges",
            arr(vec![obj(vec![("sl", n(5)), ("sc", n(8)), ("el", n(5)), ("ec", n(20))])]),
        )])
    );
}

#[test]
fn normalizes_missing_keys_with_null() {
    let value = arr(vec![
        obj(vec![
            ("containerName", s("One")),
            ("location", obj(vec![("uri", s("file:///a.bsl")), ("range", range(1, 0, 2, 0))])),
        ]),
        obj(vec![(
            "location",
            obj(vec![("uri", s("file:///b.bsl")), ("range", range(3, 0, 4, 0))]),
        )]),
    ]);
    assert_eq!(
        flatten_lsp(&value),
        arr(vec![
            obj(vec![
                ("container_name", s("One")),
                ("location_uri", s("file:///a.bsl")),
                ("location_sl", n(1)),
                ("location_sc", n(0)),
                ("location_el", n(2)),
                ("location_ec", n(0)),
            ]),
            obj(vec![
                ("container_name", JsonValue::Null),
                ("location_uri", s("file:///b.bsl")),
                ("location_sl", n(3)),
                ("location_sc", n(0)),
                ("location_el", n(4)),
                ("location_ec", n(0)),
            ]),
        ])
    );
}

#[test]
fn emits_primitives() {
    assert_eq!(to_toon(&s("hello")), "hello");
    assert_eq!(to_toon(&n(42)), "42");
    assert_eq!(to_toon(&JsonValue::Null), "null");
}

#[test]
fn emits_nested_object() {
    assert_eq!(to_toon(&obj(vec![("a", obj(vec![("b", n(1))]))])), "a:\n  b: 1");
}

#[test]
fn emits_tabular_array() {
    let value = obj(vec![(
        "items",
        arr(vec![obj(vec![("b", s("x")), ("a", n(1))]), obj(vec![("a", n(2)), ("b", s("y"))])]),
    )]);
    assert_eq!(to_toon(&value), "items[2]{a,b}:\n  1,x\n  2,y");
}

#[test]
fn falls_back_to_nested_when_heterogeneous() {
    let value = obj(vec![(
        "items",
        arr(vec![obj(vec![("a", n(1))]), obj(vec![("a", arr(vec![n(1), n(2)]))])]),
    )]);
    assert_eq!(to_toon(&value), "items:\n  - a: 1\n  - a: [1,2]");
}

#[test]
fn emits_empty_array_as_name_zero() {
    assert_eq!(format_response("references", &arr(vec![]), true), "references[0]:");
}

#[test]
fn emits_inline_primitive_array() {
    assert_eq!(to_toon(&obj(vec![("items", arr(vec![n(1), n(2), n(3)]))])), "items: [1,2,3]");
}

#[test]
fn emits_multiline_primitive_array_when_long() {
    let items = (1..=9).map(n).collect();
    assert_eq!(
        to_toon(&obj(vec![("items", arr(items))])),
        "items:\n  - 1\n  - 2\n  - 3\n  - 4\n  - 5\n  - 6\n  - 7\n  - 8\n  - 9"
    );
}

#[test]
fn quotes_strings_with_delimiters() {
    assert_eq!(quote_string_if_needed("file:///a.bsl"), "\"file:///a.bsl\"");
}

#[test]
fn quotes_strings_with_newlines() {
    assert_eq!(quote_string_if_needed("a\nb"), "\"a\\nb\"");
}

#[test]
fn preserves_cyrillic_unquoted() {
    assert_eq!(quote_string_if_needed("Привет"), "Привет");
}

#[test]
fn quotes_numeric_looking_strings() {
    assert_eq!(quote_string_if_needed("0123"), "\"0123\"");
}

#[test]
fn handles_null_top_level() {
    assert_eq!(format_response("definition", &JsonValue::Null, true), "null");
}

#[test]
fn handles_empty_object() {
    assert_eq!(to_toon(&obj(vec![])), "");
}

#[test]
fn drops_code_description_and_empty_tags() {
    let value = obj(vec![
        ("code", s("ParseError")),
        ("codeDescription", obj(vec![("href", s("https://example/ParseError"))])),
        ("message", s("boom")),
        ("range", range(1, 0, 1, 5)),
        ("severity", n(1)),
        ("source", s("bsl-language-server")),
        ("tags", arr(vec![])),
    ]);
    assert_eq!(
        flatten_lsp(&value),
        obj(vec![
            ("code", s("ParseError")),
            ("message", s("boom")),
            ("range_sl", n(1)),
            ("range_sc", n(0)),
            ("range_el", n(1)),
            ("range_ec", n(5)),
            ("severity", n(1)),
            ("source", s("bsl-language-server")),
        ])
    );
}

#[test]
fn keeps_empty_diagnostics_array() {
    let value = obj(vec![("uri", s("file:///a.bsl")), ("diagnostics", arr(vec![]))]);
    let rendered = format_response("diagnostics", &value, true);
    assert!(rendered.contains("diagnostics[0]:"), "expected empty diagnostics marker, got:\n{rendered}");
}

#[test]
fn keeps_empty_children_array() {
    let value = obj(vec![("name", s("Module")), ("children", arr(vec![]))]);
    assert_eq!(flatten_lsp(&value), obj(vec![("name", s("Module")), ("children", arr(vec![]))]));
}

#[test]
fn diagnostics_collapse_into_table() {
    let diagnostic = |code: &str, href: &str, message: &str, r: JsonValue, severity: u64| {
        obj(vec![
            ("code", s(code)),
            ("codeDescription", obj(vec![("href", s(href))])),
            ("message", s(message)),
            ("range", r),
            ("severity", n(severity)),
            ("source", s("bsl")),
            ("tags", arr(vec![])),
        ])
    };
    let value = obj(vec![(
        "diagnostics",
        arr(vec![
            diagnostic("A", "x", "m1", range(1, 2, 1, 3), 1),
            diagnostic("B", "y", "m2", range(4, 5, 4, 6), 2),
        ]),
    )]);
    let rendered = format_response("diagnostics", &value, true);
    assert!(rendered.starts_with("diagnostics[2]{"), "expected tabular output, got:\n{rendered}");
}

#[test]
fn golden_null_response() {
    assert_eq!(format_response("definition", &JsonValue::Null, true), "null");
}

#[test]
fn golden_empty_array() {
    assert_eq!(format_response("references", &arr(vec![]), true), "references[0]:");
}

// The rendering of a whole diagnostic table, row by row.
#[test]
fn renders_diagnostics_table_rows() {
    let value = obj(vec![(
        "diagnostics",
        arr(vec![obj(vec![("message", s("a, b")), ("range", range(1, 2, 1, 3)), ("severity", n(1))])]),
    )]);
    assert_eq!(
        format_response("diagnostics", &value, true),
        "diagnostics[1]{message,range_ec,range_el,range_sc,range_sl,severity}:\n  \"a, b\",3,1,2,1,1"
    );
}

// An array response is put under the root name.
#[test]
fn wraps_array_under_root_name() {
    assert_eq!(format_response("symbols", &arr(vec![n(7)]), true), "symbols: [7]");
}

// Keywords and blanks are quoted; quotes and backslashes are escaped.
#[test]
fn quotes_keywords_and_escapes() {
    assert_eq!(quote_string_if_needed("true"), "\"true\"");
    assert_eq!(quote_string_if_needed(""), "\"\"");
    assert_eq!(quote_string_if_needed(" x"), "\" x\"");
    assert_eq!(quote_string_if_needed("say \"hi\"\t\\"), "\"say \\\"hi\\\"\\t\\\\\"");
    assert_eq!(quote_string_if_needed("inf"), "\"inf\"");
    assert_eq!(quote_string_if_needed("1e5"), "\"1e5\"");
    assert_eq!(quote_string_if_needed("1e"), "1e");
}

// Objects in a list: the first field gets the bullet.
#[test]
fn emits_list_of_objects() {
    let value = arr(vec![obj(vec![("a", n(1)), ("b", obj(vec![("c", n(2))]))]), obj(vec![])]);
    assert_eq!(to_toon(&value), "items:\n  - a: 1\n    b:\n      c: 2\n  - {}");
}

// A negative number and a float keep their text.
#[test]
fn emits_negative_and_float_numbers() {
    let value = obj(vec![
        ("f", JsonValue::Number(JsonNumber::Float("1.5".to_string()))),
        ("n", JsonValue::Number(JsonNumber::NegInt(-3))),
    ]);
    assert_eq!(to_toon(&value), "f: 1.5\nn: -3");
}
