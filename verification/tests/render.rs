use r2iac::aws::{AwsAnyResource, AwsProvider, AwsResource};
use r2iac::azure::{AzureAnyResource, AzureProvider};
use r2iac::cfn::{CfnAnyResource, CfnTemplate};
use r2iac::gcp::{GcpAnyResource, GcpProvider, GcpResource};
use r2iac::json::{json_eq, JsonValue};

fn obj(entries: Vec<(&str, JsonValue)>) -> JsonValue {
    JsonValue::Obj(
        entries
            .into_iter()
            .map(|(k, v)| (k.to_string(), v))
            .collect(),
    )
}

fn s(v: &str) -> JsonValue {
    JsonValue::Str(v.to_string())
}

#[test]
fn aws_provider_renders_its_region() {
    let p = AwsProvider { region: "eu-central-1".to_string() };
    let expected = obj(vec![(
        "provider",
        obj(vec![("aws", obj(vec![("region", s("eu-central-1"))]))]),
    )]);
    assert!(json_eq(&p.to_tf_json(), &expected));
}

#[test]
fn s3_bucket_defaults_to_managed_encryption() {
    let r = AwsResource::S3Bucket {
        name: "logs".to_string(),
        bucket: "my-logs".to_string(),
        force_destroy: true,
        kms_key_id: None,
    };
    let enc = obj(vec![(
        "server_side_encryption_configuration",
        obj(vec![(
            "rule",
            obj(vec![(
                "apply_server_side_encryption_by_default",
                obj(vec![("sse_algorithm", s("AES256"))]),
            )]),
        )]),
    )]);
    let expected = obj(vec![(
        "resource",
        obj(vec![(
            "aws_s3_bucket",
            obj(vec![(
                "logs",
                obj(vec![
                    ("bucket", s("my-logs")),
                    ("force_destroy", JsonValue::Bool(true)),
                    ("bucket_encryption", enc),
                ]),
            )]),
        )]),
    )]);
    assert!(json_eq(&r.to_tf_json(), &expected));
}

#[test]
fn s3_bucket_uses_the_named_key() {
    let r = AwsResource::S3Bucket {
        name: "logs".to_string(),
        bucket: "my-logs".to_string(),
        force_destroy: false,
        kms_key_id: Some("key-arn".to_string()),
    };
    let rendered = r.to_tf_json();
    let enc = rendered
        .get("resource")
        .and_then(|v| v.get("aws_s3_bucket"))
        .and_then(|v| v.get("logs"))
        .and_then(|v| v.get("bucket_encryption"))
        .and_then(|v| v.get("server_side_encryption_configuration"))
        .and_then(|v| v.get("rule"))
        .and_then(|v| v.get("apply_server_side_encryption_by_default"))
        .expect("encryption block");
    assert!(json_eq(enc.get("sse_algorithm").unwrap(), &s("aws:kms")));
    assert!(json_eq(enc.get("kms_master_key_id").unwrap(), &s("key-arn")));
}

#[test]
fn kms_key_renders_only_present_fields() {
    let r = AwsResource::KmsKey {
        name: "master".to_string(),
        description: Some("root key".to_string()),
        enable_key_rotation: true,
        deletion_window_in_days: Some(30),
        key_usage: None,
        key_spec: None,
    };
    let expected = obj(vec![(
        "resource",
        obj(vec![(
            "aws_kms_key",
            obj(vec![(
                "master",
                obj(vec![
                    ("enable_key_rotation", JsonValue::Bool(true)),
                    ("description", s("root key")),
                    ("deletion_window_in_days", JsonValue::Int(30)),
                ]),
            )]),
        )]),
    )]);
    assert!(json_eq(&r.to_tf_json(), &expected));
}

#[test]
fn secrets_manager_secret_can_be_bare() {
    let r = AwsResource::SecretsManagerSecret {
        name: "token".to_string(),
        description: None,
        kms_key_id: None,
        recovery_window_in_days: None,
        force_delete_without_recovery: Some(true),
    };
    let expected = obj(vec![(
        "resource",
        obj(vec![(
            "aws_secretsmanager_secret",
            obj(vec![(
                "token",
                obj(vec![("force_delete_without_recovery", JsonValue::Bool(true))]),
            )]),
        )]),
    )]);
    assert!(json_eq(&r.to_tf_json(), &expected));
}

#[test]
fn any_resource_adds_a_name_when_none_is_given() {
    let r = AwsAnyResource {
        res_type: "aws_sqs_queue".to_string(),
        name: "jobs".to_string(),
        properties: vec![("delay_seconds".to_string(), JsonValue::Int(5))],
    };
    let expected = obj(vec![(
        "resource",
        obj(vec![(
            "aws_sqs_queue",
            obj(vec![(
                "jobs",
                obj(vec![("delay_seconds", JsonValue::Int(5)), ("name", s("jobs"))]),
            )]),
        )]),
    )]);
    assert!(json_eq(&r.to_tf_json(), &expected));
}

#[test]
fn any_resource_keeps_an_explicit_bucket_or_name() {
    let r = AwsAnyResource {
        res_type: "aws_s3_bucket".to_string(),
        name: "logs".to_string(),
        properties: vec![("bucket".to_string(), s("given"))],
    };
    let expected = obj(vec![(
        "resource",
        obj(vec![(
            "aws_s3_bucket",
            obj(vec![("logs", obj(vec![("bucket", s("given"))]))]),
        )]),
    )]);
    assert!(json_eq(&r.to_tf_json(), &expected));
}

#[test]
fn azure_provider_renders_features_and_subscription() {
    let p = AzureProvider {
        features: vec![],
        subscription_id: Some("sub-1".to_string()),
    };
    let expected = obj(vec![(
        "provider",
        obj(vec![(
            "azurerm",
            obj(vec![("features", obj(vec![])), ("subscription_id", s("sub-1"))]),
        )]),
    )]);
    assert!(json_eq(&p.to_tf_json(), &expected));
}

#[test]
fn azure_any_resource_gains_a_name() {
    let r = AzureAnyResource {
        res_type: "azurerm_resource_group".to_string(),
        name: "rg".to_string(),
        properties: vec![("location".to_string(), s("westeurope"))],
    };
    let expected = obj(vec![(
        "resource",
        obj(vec![(
            "azurerm_resource_group",
            obj(vec![(
                "rg",
                obj(vec![("location", s("westeurope")), ("name", s("rg"))]),
            )]),
        )]),
    )]);
    assert!(json_eq(&r.to_tf_json(), &expected));
}

#[test]
fn gcp_provider_region_is_optional() {
    let bare = GcpProvider { project: "proj".to_string(), region: None };
    let expected = obj(vec![(
        "provider",
        obj(vec![("google", obj(vec![("project", s("proj"))]))]),
    )]);
    assert!(json_eq(&bare.to_tf_json(), &expected));
    let with_region = GcpProvider {
        project: "proj".to_string(),
        region: Some("europe-west1".to_string()),
    };
    let expected2 = obj(vec![(
        "provider",
        obj(vec![(
            "google",
            obj(vec![("project", s("proj")), ("region", s("europe-west1"))]),
        )]),
    )]);
    assert!(json_eq(&with_region.to_tf_json(), &expected2));
}

#[test]
fn gcp_resources_render_by_kind() {
    let bucket = GcpResource::StorageBucket {
        name: "data".to_string(),
        location: "EU".to_string(),
        force_destroy: Some(false),
    };
    let expected = obj(vec![(
        "resource",
        obj(vec![(
            "google_storage_bucket",
            obj(vec![(
                "data",
                obj(vec![
                    ("name", s("data")),
                    ("location", s("EU")),
                    ("force_destroy", JsonValue::Bool(false)),
                ]),
            )]),
        )]),
    )]);
    assert!(json_eq(&bucket.to_tf_json(), &expected));
    let ring = GcpResource::KmsKeyRing { name: "ring".to_string(), location: "EU".to_string() };
    let expected_ring = obj(vec![(
        "resource",
        obj(vec![(
            "google_kms_key_ring",
            obj(vec![(
                "ring",
                obj(vec![("name", s("ring")), ("location", s("EU"))]),
            )]),
        )]),
    )]);
    assert!(json_eq(&ring.to_tf_json(), &expected_ring));
    let secret = GcpResource::SecretManagerSecret {
        name: "token".to_string(),
        replication: "automatic".to_string(),
    };
    let expected_secret = obj(vec![(
        "resource",
        obj(vec![(
            "google_secret_manager_secret",
            obj(vec![(
                "token",
                obj(vec![("name", s("token")), ("replication", s("automatic"))]),
            )]),
        )]),
    )]);
    assert!(json_eq(&secret.to_tf_json(), &expected_secret));
}

#[test]
fn gcp_any_resource_gains_a_name() {
    let r = GcpAnyResource {
        res_type: "google_pubsub_topic".to_string(),
        name: "events".to_string(),
        properties: vec![],
    };
    let expected = obj(vec![(
        "resource",
        obj(vec![(
            "google_pubsub_topic",
            obj(vec![("events", obj(vec![("name", s("events"))]))]),
        )]),
    )]);
    assert!(json_eq(&r.to_tf_json(), &expected));
}

#[test]
fn cfn_template_renders_versions_and_resources() {
    let tpl = CfnTemplate {
        version: Some("2010-09-09".to_string()),
        description: None,
        resources: vec![(
            "Queue".to_string(),
            CfnAnyResource {
                name: "Queue".to_string(),
                res_type: "AWS::SQS::Queue".to_string(),
                properties: vec![("DelaySeconds".to_string(), JsonValue::Int(5))],
            },
        )],
    };
    let expected = obj(vec![
        ("AWSTemplateFormatVersion", s("2010-09-09")),
        ("Description", JsonValue::Null),
        (
            "Resources",
            obj(vec![(
                "Queue",
                obj(vec![
                    ("name", s("Queue")),
                    ("Type", s("AWS::SQS::Queue")),
                    ("properties", obj(vec![("DelaySeconds", JsonValue::Int(5))])),
                ]),
            )]),
        ),
    ]);
    assert!(json_eq(&tpl.to_json(), &expected));
}
