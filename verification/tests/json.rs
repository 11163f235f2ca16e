use semdiff::json::{normalize, normalize_json};

#[test]
fn an_object_is_printed_with_sorted_keys_and_two_spaces() {
    assert_eq!(
        normalize_json("{\"b\":2,\"a\":1}"),
        Some("{\n  \"a\": 1,\n  \"b\": 2\n}".to_string())
    );
}

#[test]
fn nested_documents_are_indented_by_depth() {
    assert_eq!(
        normalize_json("{\"list\":[1,{\"k\":null}],\"flag\":true}"),
        Some(
            "{\n  \"flag\": true,\n  \"list\": [\n    1,\n    {\n      \"k\": null\n    }\n  ]\n}"
                .to_string()
        )
    );
}

#[test]
fn scalars_are_documents() {
    assert_eq!(normalize_json(" 12 "), Some("12".to_string()));
    assert_eq!(normalize_json("\"text\""), Some("\"text\"".to_string()));
    assert_eq!(normalize_json("null"), Some("null".to_string()));
    assert_eq!(normalize_json("[]"), Some("[]".to_string()));
    assert_eq!(normalize_json("{}"), Some("{}".to_string()));
}

#[test]
fn what_does_not_parse_has_no_canonical_form() {
    assert_eq!(normalize_json("not json"), None);
    assert_eq!(normalize_json(""), None);
    assert_eq!(normalize_json("{\"a\":1"), None);
    assert_eq!(normalize_json("{\"a\":1} trailing"), None);
    assert_eq!(normalize_json("{'a':1}"), None);
}

#[test]
fn normalizing_falls_back_to_the_text() {
    assert_eq!(normalize("not json"), "not json");
    assert_eq!(normalize(""), "");
    assert_eq!(normalize("[1, 2]"), "[\n  1,\n  2\n]");
}

#[test]
fn a_canonical_form_is_its_own_canonical_form() {
    for text in ["{\"b\":[1,2,{\"c\":\"d\"}],\"a\":1.5}", "[true,false,null]", "\"s\"", "-0", "1e2"] {
        let once = normalize(text);
        assert_eq!(normalize(&once), once);
    }
}
