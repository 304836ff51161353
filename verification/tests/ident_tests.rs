use policy_canon::arn::Arn;
use policy_canon::idents::{Action, Effect, Resource};

#[test]
fn test_serde_arn() {
    assert_eq!(
        Arn::parse("arn:aws:sns:us-east-1:123456789012:example-sns-topic-name").unwrap(),
        Arn {
            partition: "aws".to_string(),
            service: "sns".to_string(),
            region: "us-east-1".to_string(),
            account: "123456789012".to_string(),
            resource: "example-sns-topic-name".to_string(),
        }
    );
    assert_eq!(
        Arn::parse("123456789012").unwrap(),
        Arn {
            partition: "aws".to_string(),
            service: "iam".to_string(),
            region: "".to_string(),
            account: "123456789012".to_string(),
            resource: "root".to_string(),
        }
    );

    assert_eq!(Arn::parse("hoge").unwrap_err(), "illegal ARN: `hoge`");
    assert_eq!(
        Arn::parse("12345678901A").unwrap_err(),
        "illegal ARN: `12345678901A`"
    );
}

#[test]
fn test_serde_effect() {
    assert_eq!(Effect::parse("Allow").unwrap(), Effect::Allow);
    assert_eq!(Effect::parse("Deny").unwrap(), Effect::Deny);

    assert_eq!(
        Effect::parse("hoge").unwrap_err(),
        "illegal value `hoge`, expected `Allow` or `Deny`",
    );
}

#[test]
fn test_serde_action() {
    assert_eq!(Action::parse("*").unwrap(), Action::Any);
    assert_eq!(
        Action::parse("s3:GetObject").unwrap(),
        Action::Name("s3".to_string(), "GetObject".to_string()),
    );

    assert_eq!(
        Action::parse("hoge").unwrap_err(),
        "illegal action name: `hoge`"
    );
}

#[test]
fn test_serde_resource() {
    assert_eq!(Resource::parse("*").unwrap(), Resource::Any);
    assert_eq!(
        Resource::parse("arn:aws:iam::123456789012:user/johndoe").unwrap(),
        Resource::Res(Arn {
            partition: "aws".to_string(),
            service: "iam".to_string(),
            region: "".to_string(),
            account: "123456789012".to_string(),
            resource: "user/johndoe".to_string(),
        }),
    );

    assert_eq!(
        Resource::parse("12345678901A").unwrap_err(),
        "illegal ARN: `12345678901A`",
    );
}

#[test]
fn arn_formats_canonically() {
    let a = Arn::parse("123456789012").unwrap();
    assert_eq!(a.format(), "arn:aws:iam::123456789012:root");
    let b = Arn::parse("arn:aws:s3:::my-bucket/key:with:colons").unwrap();
    assert_eq!(b.resource, "my-bucket/key:with:colons");
    assert_eq!(b.format(), "arn:aws:s3:::my-bucket/key:with:colons");
}

#[test]
fn arn_missing_parts_are_named() {
    assert_eq!(Arn::parse("arn:aws").unwrap_err(), "missing service part");
    assert_eq!(Arn::parse("arn:aws:iam").unwrap_err(), "missing region part");
    assert_eq!(
        Arn::parse("arn:aws:iam:us-east-1").unwrap_err(),
        "missing account part"
    );
    assert_eq!(
        Arn::parse("arn:aws:iam:us-east-1:123456789012").unwrap_err(),
        "missing resource part"
    );
}

#[test]
fn action_and_resource_format_back() {
    assert_eq!(Action::parse("s3:GetObject").unwrap().format(), "s3:GetObject");
    assert_eq!(Action::parse("*").unwrap().format(), "*");
    assert_eq!(Resource::parse("*").unwrap().format(), "*");
    assert_eq!(Effect::parse("Allow").unwrap().format(), "Allow");
    assert_eq!(Effect::parse("Deny").unwrap().format(), "Deny");
}

#[test]
fn action_empty_parts_are_rejected() {
    assert_eq!(Action::parse(":x").unwrap_err(), "illegal action name: `:x`");
    assert_eq!(Action::parse("x:").unwrap_err(), "illegal action name: `x:`");
    assert_eq!(Action::parse(":").unwrap_err(), "illegal action name: `:`");
}
