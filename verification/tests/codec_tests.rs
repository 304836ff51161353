use policy_canon::invariable;
use policy_canon::jsonval::JsonVal;
use policy_canon::textfield;

fn num(s: &str) -> JsonVal {
    JsonVal::Num(s.to_string())
}

#[test]
fn serde_helper_test() {
    // a one-element collection is emitted as the bare scalar, and the
    // scalar decodes back to the one-element collection
    let one = invariable::wrap(vec![num("1")]);
    assert_eq!(one, num("1"));
    assert_eq!(invariable::unwrap(one), vec![num("1")]);

    // two elements stay a list, both ways
    let two = invariable::wrap(vec![num("1"), num("2")]);
    assert_eq!(two, JsonVal::Arr(vec![num("1"), num("2")]));
    assert_eq!(invariable::unwrap(two), vec![num("1"), num("2")]);

    // the empty collection stays an empty list, both ways
    let none = invariable::wrap(vec![]);
    assert_eq!(none, JsonVal::Arr(vec![]));
    assert_eq!(invariable::unwrap(none), Vec::<JsonVal>::new());
}

#[test]
fn text_field_accepts_only_text() {
    let v = JsonVal::Str("Value".to_string());
    assert_eq!(textfield::deserialize(&v).unwrap(), "Value");
    assert_eq!(textfield::unwrap(v).unwrap(), "Value");
    assert_eq!(
        textfield::deserialize(&num("42")).unwrap_err(),
        "invalid type: expected a string"
    );
    assert_eq!(textfield::serialize("Value"), JsonVal::Str("Value".to_string()));
    assert_eq!(
        textfield::wrap("Value".to_string()),
        JsonVal::Str("Value".to_string())
    );
}

#[test]
fn decoded_sets_are_ordered_and_deduplicated() {
    let field = JsonVal::Arr(vec![
        JsonVal::Str("s3:PutObject".to_string()),
        JsonVal::Str("s3:GetObject".to_string()),
        JsonVal::Str("*".to_string()),
        JsonVal::Str("s3:GetObject".to_string()),
    ]);
    let set = policy_canon::decode::decode_action_set(field).unwrap();
    let back = policy_canon::encode::encode_action_set(&set);
    assert_eq!(
        back,
        JsonVal::Arr(vec![
            JsonVal::Str("*".to_string()),
            JsonVal::Str("s3:GetObject".to_string()),
            JsonVal::Str("s3:PutObject".to_string()),
        ])
    );
}
