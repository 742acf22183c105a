use r2iac::json::JsonValue;
use r2iac::policy::{ensure_type_prefix, Policy};
use r2iac::tfcompat::{bin, pick_runner, Runner};

fn obj(entries: Vec<(&str, JsonValue)>) -> JsonValue {
    JsonValue::Obj(
        entries
            .into_iter()
            .map(|(k, v)| (k.to_string(), v))
            .collect(),
    )
}

fn s(v: &str) -> JsonValue {
    JsonValue::Str(v.to_string())
}

fn doc_with_bucket(bucket_body: JsonValue) -> JsonValue {
    obj(vec![(
        "resource",
        obj(vec![("aws_s3_bucket", obj(vec![("logs", bucket_body)]))]),
    )])
}

#[test]
fn policy_rejects_an_unencrypted_bucket() {
    let tf = doc_with_bucket(obj(vec![("bucket", s("plain"))]));
    let policy = Policy::new(false);
    assert!(policy.check_tf_json(&tf).is_err());
}

#[test]
fn policy_accepts_an_encrypted_bucket() {
    let tf = doc_with_bucket(obj(vec![
        ("bucket", s("safe")),
        ("bucket_encryption", obj(vec![])),
    ]));
    let policy = Policy::new(false);
    assert!(policy.check_tf_json(&tf).is_ok());
    let tf2 = doc_with_bucket(obj(vec![
        ("bucket", s("safe")),
        ("server_side_encryption_configuration", obj(vec![])),
    ]));
    assert!(policy.check_tf_json(&tf2).is_ok());
}

#[test]
fn policy_can_allow_unencrypted_buckets() {
    let tf = doc_with_bucket(obj(vec![("bucket", s("plain"))]));
    let policy = Policy::new(true);
    assert!(policy.check_tf_json(&tf).is_ok());
}

#[test]
fn policy_ignores_documents_without_buckets() {
    let policy = Policy::new(false);
    assert!(policy.check_tf_json(&obj(vec![])).is_ok());
    let other = obj(vec![(
        "resource",
        obj(vec![("aws_sqs_queue", obj(vec![("jobs", obj(vec![]))]))]),
    )]);
    assert!(policy.check_tf_json(&other).is_ok());
}

#[test]
fn type_prefix_is_enforced() {
    assert!(ensure_type_prefix("aws_", "aws_s3_bucket").is_ok());
    assert!(ensure_type_prefix("aws_", "azurerm_storage").is_err());
    assert!(ensure_type_prefix("aws_", "aws_S3").is_err());
    assert!(ensure_type_prefix("aws_", "aws_s3-bucket").is_err());
    assert!(ensure_type_prefix("aws_", "aws_").is_ok());
    assert!(ensure_type_prefix("aws_", "aws").is_err());
}

#[test]
fn runner_binaries_are_named() {
    assert_eq!(bin(Runner::Terraform), "terraform");
    assert_eq!(bin(Runner::Tofu), "tofu");
}

#[test]
fn runner_preference_wins() {
    assert!(matches!(
        pick_runner(Some(Runner::Terraform), true, true),
        Ok(Runner::Terraform)
    ));
    assert!(matches!(pick_runner(None, true, true), Ok(Runner::Tofu)));
    assert!(matches!(
        pick_runner(None, false, true),
        Ok(Runner::Terraform)
    ));
    assert!(pick_runner(None, false, false).is_err());
}
