use policy_canon::canon::{canonicalize_policy, canonicalize_policy_text};
use policy_canon::decode::decode_statement;
use policy_canon::jsonval::JsonVal;

fn s(t: &str) -> JsonVal {
    JsonVal::Str(t.to_string())
}

fn obj(entries: Vec<(&str, JsonVal)>) -> JsonVal {
    JsonVal::Obj(
        entries
            .into_iter()
            .map(|(k, v)| (k.to_string(), v))
            .collect(),
    )
}

#[test]
fn statement_unknown_field_names_the_allowed_set() {
    let bad = obj(vec![("Bogus", JsonVal::Num("1".to_string()))]);
    assert_eq!(
        decode_statement(bad).unwrap_err(),
        "unknown field `Bogus`, expected one of `Sid`, `Effect`, `Principal`, `NotPrincipal`, \
         `Action`, `NotAction`, `Resource`, `NotResource`, `Condition`"
    );
}

#[test]
fn statement_missing_effect_is_an_error() {
    let bad = obj(vec![("Sid", s("x"))]);
    assert_eq!(decode_statement(bad).unwrap_err(), "missing field `Effect`");
}

#[test]
fn statement_duplicate_field_is_an_error() {
    let bad = obj(vec![("Sid", s("a")), ("Effect", s("Allow")), ("Sid", s("b"))]);
    assert_eq!(decode_statement(bad).unwrap_err(), "duplicate field `Sid`");
}

#[test]
fn statement_bad_effect_propagates_the_parse_message() {
    let bad = obj(vec![("Effect", s("Hoge"))]);
    assert_eq!(
        decode_statement(bad).unwrap_err(),
        "illegal value `Hoge`, expected `Allow` or `Deny`"
    );
}

#[test]
fn canonicalize_sorts_sets_and_account_shorthand() {
    let doc = obj(vec![(
        "Statement",
        obj(vec![
            ("Effect", s("Allow")),
            (
                "Principal",
                obj(vec![("AWS", s("123456789012"))]),
            ),
            (
                "Action",
                JsonVal::Arr(vec![s("s3:PutObject"), s("s3:GetObject")]),
            ),
        ]),
    )]);
    let out = canonicalize_policy(doc).unwrap();
    let expected = obj(vec![(
        "Statement",
        JsonVal::Arr(vec![obj(vec![
            ("Effect", s("Allow")),
            (
                "Principal",
                obj(vec![("AWS", s("arn:aws:iam::123456789012:root"))]),
            ),
            (
                "Action",
                JsonVal::Arr(vec![s("s3:GetObject"), s("s3:PutObject")]),
            ),
        ])]),
    )]);
    assert_eq!(out, expected);
}

#[test]
fn canonicalize_keeps_condition_order() {
    let doc = obj(vec![(
        "Statement",
        obj(vec![
            ("Effect", s("Deny")),
            (
                "Condition",
                obj(vec![
                    (
                        "StringEquals",
                        obj(vec![("aws:SourceVpc", s("vpc-1"))]),
                    ),
                    (
                        "Bool",
                        obj(vec![("aws:SecureTransport", JsonVal::Arr(vec![s("true"), s("false")]))]),
                    ),
                ]),
            ),
        ]),
    )]);
    let out = canonicalize_policy(doc).unwrap();
    let expected = obj(vec![(
        "Statement",
        JsonVal::Arr(vec![obj(vec![
            ("Effect", s("Deny")),
            (
                "Condition",
                obj(vec![
                    (
                        "StringEquals",
                        obj(vec![("aws:SourceVpc", s("vpc-1"))]),
                    ),
                    (
                        "Bool",
                        obj(vec![("aws:SecureTransport", JsonVal::Arr(vec![s("true"), s("false")]))]),
                    ),
                ]),
            ),
        ])]),
    )]);
    assert_eq!(out, expected);
}

#[test]
fn end_to_end_canonicalization_is_idempotent() {
    let input = "{\"Version\": \"2012-10-17\",\n \"Statement\": [\n  {\"Sid\": \"b\", \"Effect\": \"Allow\", \"Action\": [\"s3:GetObject\"]},\n  {\"Sid\": \"a\", \"Effect\": \"Allow\", \"Action\": \"*\"}\n ]}\n";
    let once = canonicalize_policy_text(input).unwrap();
    let expected = "{\n    \"Version\": \"2012-10-17\",\n    \"Statement\": [\n        {\n            \"Sid\": \"a\",\n            \"Effect\": \"Allow\",\n            \"Action\": \"*\"\n        },\n        {\n            \"Sid\": \"b\",\n            \"Effect\": \"Allow\",\n            \"Action\": \"s3:GetObject\"\n        }\n    ]\n}\n";
    assert_eq!(once, expected);
    let twice = canonicalize_policy_text(&once).unwrap();
    assert_eq!(twice, once);
}

#[test]
fn malformed_json_is_an_error() {
    assert!(canonicalize_policy_text("{not json").is_err());
    assert!(canonicalize_policy_text("[]").is_err());
}

#[test]
fn empty_policy_round_trips() {
    let out = canonicalize_policy_text("{}").unwrap();
    assert_eq!(out, "{}\n");
    let again = canonicalize_policy_text(&out).unwrap();
    assert_eq!(again, out);
}

#[test]
fn statements_order_by_effect_and_peers_keep_their_order() {
    // Deny sorts after Allow
    let doc = obj(vec![(
        "Statement",
        JsonVal::Arr(vec![
            obj(vec![("Effect", s("Deny"))]),
            obj(vec![("Effect", s("Allow"))]),
        ]),
    )]);
    let out = canonicalize_policy(doc).unwrap();
    let expected = obj(vec![(
        "Statement",
        JsonVal::Arr(vec![
            obj(vec![("Effect", s("Allow"))]),
            obj(vec![("Effect", s("Deny"))]),
        ]),
    )]);
    assert_eq!(out, expected);

    // the condition takes no part in the order, so statements that differ
    // only there keep their original order
    let cond = |v: &str| obj(vec![("StringEquals", obj(vec![("k", s(v))]))]);
    let doc = obj(vec![(
        "Statement",
        JsonVal::Arr(vec![
            obj(vec![("Effect", s("Allow")), ("Condition", cond("b"))]),
            obj(vec![("Effect", s("Allow")), ("Condition", cond("a"))]),
        ]),
    )]);
    let out = canonicalize_policy(doc).unwrap();
    let expected = obj(vec![(
        "Statement",
        JsonVal::Arr(vec![
            obj(vec![("Effect", s("Allow")), ("Condition", cond("b"))]),
            obj(vec![("Effect", s("Allow")), ("Condition", cond("a"))]),
        ]),
    )]);
    assert_eq!(out, expected);
}
