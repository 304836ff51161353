use policy_canon::config::{canonicalize_config_text, Key};
use policy_canon::jsonval::JsonVal;

#[test]
fn serde() {
    // a plain name parses to itself and formats back unchanged
    let k = Key::parse("hoge").unwrap();
    assert!(matches!(&k, Key::Config(s) if s == "hoge"));
    assert_eq!(k.format(), "hoge");

    // bracketed tags are gathered as a set and rendered in order,
    // whatever order they were written in
    let k = Key::parse("[hoge][piyo]").unwrap();
    assert_eq!(k.format(), "[hoge][piyo]");
    let k = Key::parse("[piyo][hoge]").unwrap();
    assert_eq!(k.format(), "[hoge][piyo]");

    // an opening bracket without its closing one is rejected
    assert_eq!(Key::parse("[hoge").unwrap_err(), "unmatched opening bracket");
}

#[test]
fn config_keys_are_sorted() {
    let input = "{\"b\": \"2\", \"a\": \"1\", \"[piyo][hoge]\": \"3\"}";
    let out = canonicalize_config_text(input).unwrap();
    let expected = "{\n    \"a\": \"1\",\n    \"b\": \"2\",\n    \"[hoge][piyo]\": \"3\"\n}\n";
    assert_eq!(out, expected);
    let again = canonicalize_config_text(&out).unwrap();
    assert_eq!(again, out);
}

#[test]
fn config_repeated_key_keeps_the_last_value() {
    // two spellings of the same tag set are one key; the later value wins
    let input = "{\"[a][b]\": \"x\", \"[b][a]\": \"y\"}";
    let out = canonicalize_config_text(input).unwrap();
    assert_eq!(out, "{\n    \"[a][b]\": \"y\"\n}\n");
}

#[test]
fn config_must_be_an_object() {
    assert_eq!(
        canonicalize_config_text("[1, 2]").unwrap_err(),
        "invalid type: expected a map"
    );
}

#[test]
fn config_values_pass_through_untouched() {
    let input = "{\"k\": {\"z\": 1, \"a\": [true, null]}}";
    let out = canonicalize_config_text(input).unwrap();
    let expected = "{\n    \"k\": {\n        \"z\": 1,\n        \"a\": [\n            true,\n            null\n        ]\n    }\n}\n";
    assert_eq!(out, expected);
}

#[test]
fn json_value_trees_build_and_compare() {
    let v = JsonVal::Obj(vec![("k".to_string(), JsonVal::Bool(true))]);
    assert_eq!(
        v,
        JsonVal::Obj(vec![("k".to_string(), JsonVal::Bool(true))])
    );
}

#[test]
fn deeply_nested_documents_are_rejected_at_the_boundary() {
    let mut doc = String::from("{\"k\": ");
    for _ in 0..150 {
        doc.push('[');
    }
    for _ in 0..150 {
        doc.push(']');
    }
    doc.push('}');
    assert!(canonicalize_config_text(&doc).is_err());
}

#[test]
fn float_values_survive_a_pass_exactly() {
    // a double whose shortest text a naively rounding parser reads one
    // ulp off; the boundary must carry it through unchanged
    let input = "{\"a\": 51.248178375505404, \"b\": -36.573994842753436}";
    let out = canonicalize_config_text(input).unwrap();
    let expected = "{\n    \"a\": 51.248178375505404,\n    \"b\": -36.573994842753436\n}\n";
    assert_eq!(out, expected);
    let again = canonicalize_config_text(&out).unwrap();
    assert_eq!(again, out);
}
