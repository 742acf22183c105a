//! Rendering of AWS resources into provider-configuration documents.

use vstd::prelude::*;

use crate::json::JsonV;
use crate::json::JsonValue;
use crate::json::entries_push;
use crate::json::obj1;
use crate::render::opt_entry_bool;
use crate::render::opt_entry_str;
use crate::render::opt_entry_u32;
use crate::render::push_opt_bool;
use crate::render::push_opt_str;
use crate::render::push_opt_u32;
use crate::render::wrap_resource;

verus! {

/// The AWS provider block.
pub struct AwsProvider {
    pub region: String,
}

impl AwsProvider {
    /// The rendered provider document:
    /// `{ "provider": { "aws": { "region": .. } } }`.
    pub open spec fn tf_json_spec(&self) -> JsonV {
        JsonV::Obj(
            seq![
                (
                    "provider"@,
                    JsonV::Obj(
                        seq![("aws"@, JsonV::Obj(seq![("region"@, JsonV::Str(self.region@))]))],
                    ),
                ),
            ],
        )
    }

    /// Renders the provider block.
    pub fn to_tf_json(&self) -> (r: JsonValue)
        ensures
            r@ == self.tf_json_spec(),
    {
        obj1("provider", obj1("aws", obj1("region", JsonValue::Str(self.region.clone()))))
    }
}

/// One provisionable AWS resource kind.
pub enum AwsResource {
    S3Bucket { name: String, bucket: String, force_destroy: bool, kms_key_id: Option<String> },
    KmsKey {
        name: String,
        description: Option<String>,
        enable_key_rotation: bool,
        deletion_window_in_days: Option<u32>,
        key_usage: Option<String>,
        key_spec: Option<String>,
    },
    SecretsManagerSecret {
        name: String,
        description: Option<String>,
        kms_key_id: Option<String>,
        recovery_window_in_days: Option<u32>,
        force_delete_without_recovery: Option<bool>,
    },
}

/// The bucket-encryption block of an S3 bucket: key-managed encryption when
/// a key is named, managed server-side encryption otherwise.
pub open spec fn s3_encryption_spec(kms_key_id: Option<String>) -> JsonV {
    JsonV::Obj(
        seq![
            (
                "server_side_encryption_configuration"@,
                JsonV::Obj(
                    seq![
                        (
                            "rule"@,
                            JsonV::Obj(
                                seq![
                                    (
                                        "apply_server_side_encryption_by_default"@,
                                        match kms_key_id {
                                            Option::Some(k) => JsonV::Obj(
                                                seq![
                                                    ("sse_algorithm"@, JsonV::Str("aws:kms"@)),
                                                    ("kms_master_key_id"@, JsonV::Str(k@)),
                                                ],
                                            ),
                                            Option::None => JsonV::Obj(
                                                seq![("sse_algorithm"@, JsonV::Str("AES256"@))],
                                            ),
                                        },
                                    ),
                                ],
                            ),
                        ),
                    ],
                ),
            ),
        ],
    )
}

impl AwsResource {
    /// The rendered resource document, by kind.
    pub open spec fn tf_json_spec(&self) -> JsonV {
        match self {
            AwsResource::S3Bucket { name, bucket, force_destroy, kms_key_id } => JsonV::Obj(
                seq![
                    (
                        "resource"@,
                        JsonV::Obj(
                            seq![
                                (
                                    "aws_s3_bucket"@,
                                    JsonV::Obj(
                                        seq![
                                            (
                                                name@,
                                                JsonV::Obj(
                                                    seq![
                                                        ("bucket"@, JsonV::Str(bucket@)),
                                                        (
                                                            "force_destroy"@,
                                                            JsonV::Bool(*force_destroy),
                                                        ),
                                                        (
                                                            "bucket_encryption"@,
                                                            s3_encryption_spec(*kms_key_id),
                                                        ),
                                                    ],
                                                ),
                                            ),
                                        ],
                                    ),
                                ),
                            ],
                        ),
                    ),
                ],
            ),
            AwsResource::KmsKey {
                name,
                description,
                enable_key_rotation,
                deletion_window_in_days,
                key_usage,
                key_spec,
            } => JsonV::Obj(
                seq![
                    (
                        "resource"@,
                        JsonV::Obj(
                            seq![
                                (
                                    "aws_kms_key"@,
                                    JsonV::Obj(
                                        seq![
                                            (
                                                name@,
                                                JsonV::Obj(
                                                    opt_entry_str(
                                                        opt_entry_str(
                                                            opt_entry_u32(
                                                                opt_entry_str(
                                                                    seq![
                                                                        (
                                                                            "enable_key_rotation"@,
                                                                            JsonV::Bool(
                                                                                *enable_key_rotation,
                                                                            ),
                                                                        ),
                                                                    ],
                                                                    "description"@,
                                                                    *description,
                                                                ),
                                                                "deletion_window_in_days"@,
                                                                *deletion_window_in_days,
                                                            ),
                                                            "key_usage"@,
                                                            *key_usage,
                                                        ),
                                                        "key_spec"@,
                                                        *key_spec,
                                                    ),
                                                ),
                                            ),
                                        ],
                                    ),
                                ),
                            ],
                        ),
                    ),
                ],
            ),
            AwsResource::SecretsManagerSecret {
                name,
                description,
                kms_key_id,
                recovery_window_in_days,
                force_delete_without_recovery,
            } => JsonV::Obj(
                seq![
                    (
                        "resource"@,
                        JsonV::Obj(
                            seq![
                                (
                                    "aws_secretsmanager_secret"@,
                                    JsonV::Obj(
                                        seq![
                                            (
                                                name@,
                                                JsonV::Obj(
                                                    opt_entry_bool(
                                                        opt_entry_u32(
                                                            opt_entry_str(
                                                                opt_entry_str(
                                                                    Seq::empty(),
                                                                    "description"@,
                                                                    *description,
                                                                ),
                                                                "kms_key_id"@,
                                                                *kms_key_id,
                                                            ),
                                                            "recovery_window_in_days"@,
                                                            *recovery_window_in_days,
                                                        ),
                                                        "force_delete_without_recovery"@,
                                                        *force_delete_without_recovery,
                                                    ),
                                                ),
                                            ),
                                        ],
                                    ),
                                ),
                            ],
                        ),
                    ),
                ],
            ),
        }
    }

    /// Renders the resource document.
    pub fn to_tf_json(&self) -> (r: JsonValue)
        ensures
            r@ == self.tf_json_spec(),
    {
        match self {
            AwsResource::S3Bucket { name, bucket, force_destroy, kms_key_id } => {
                let enc: JsonValue = match kms_key_id {
                    Option::Some(k) => {
                        let mut sse: Vec<(String, JsonValue)> = Vec::new();
                        entries_push(&mut sse, "sse_algorithm", JsonValue::Str("aws:kms".to_owned()));
                        entries_push(&mut sse, "kms_master_key_id", JsonValue::Str(k.clone()));
                        proof {
                            assert(JsonValue::model_obj(sse@) =~= seq![
                                ("sse_algorithm"@, JsonV::Str("aws:kms"@)),
                                ("kms_master_key_id"@, JsonV::Str(k@)),
                            ]);
                        }
                        obj1(
                            "server_side_encryption_configuration",
                            obj1("rule", obj1("apply_server_side_encryption_by_default", JsonValue::Obj(sse))),
                        )
                    },
                    Option::None => obj1(
                        "server_side_encryption_configuration",
                        obj1(
                            "rule",
                            obj1(
                                "apply_server_side_encryption_by_default",
                                obj1("sse_algorithm", JsonValue::Str("AES256".to_owned())),
                            ),
                        ),
                    ),
                };
                proof {
                    assert(enc@ =~~= s3_encryption_spec(*kms_key_id));
                }
                let mut body: Vec<(String, JsonValue)> = Vec::new();
                entries_push(&mut body, "bucket", JsonValue::Str(bucket.clone()));
                entries_push(&mut body, "force_destroy", JsonValue::Bool(*force_destroy));
                entries_push(&mut body, "bucket_encryption", enc);
                proof {
                    assert(JsonValue::model_obj(body@) =~= seq![
                        ("bucket"@, JsonV::Str(bucket@)),
                        ("force_destroy"@, JsonV::Bool(*force_destroy)),
                        ("bucket_encryption"@, s3_encryption_spec(*kms_key_id)),
                    ]);
                }
                let r = wrap_resource("aws_s3_bucket", name, JsonValue::Obj(body));
                proof {
                    assert(r@ =~~= self.tf_json_spec());
                }
                r
            },
            AwsResource::KmsKey {
                name,
                description,
                enable_key_rotation,
                deletion_window_in_days,
                key_usage,
                key_spec,
            } => {
                let mut body: Vec<(String, JsonValue)> = Vec::new();
                entries_push(&mut body, "enable_key_rotation", JsonValue::Bool(*enable_key_rotation));
                proof {
                    assert(JsonValue::model_obj(body@) =~= seq![
                        ("enable_key_rotation"@, JsonV::Bool(*enable_key_rotation)),
                    ]);
                }
                push_opt_str(&mut body, "description", description);
                push_opt_u32(&mut body, "deletion_window_in_days", deletion_window_in_days);
                push_opt_str(&mut body, "key_usage", key_usage);
                push_opt_str(&mut body, "key_spec", key_spec);
                let r = wrap_resource("aws_kms_key", name, JsonValue::Obj(body));
                proof {
                    assert(r@ =~~= self.tf_json_spec());
                }
                r
            },
            AwsResource::SecretsManagerSecret {
                name,
                description,
                kms_key_id,
                recovery_window_in_days,
                force_delete_without_recovery,
            } => {
                let mut body: Vec<(String, JsonValue)> = Vec::new();
                proof {
                    assert(JsonValue::model_obj(body@) =~= Seq::<(Seq<char>, JsonV)>::empty());
                }
                push_opt_str(&mut body, "description", description);
                push_opt_str(&mut body, "kms_key_id", kms_key_id);
                push_opt_u32(&mut body, "recovery_window_in_days", recovery_window_in_days);
                push_opt_bool(
                    &mut body,
                    "force_delete_without_recovery",
                    force_delete_without_recovery,
                );
                let r = wrap_resource("aws_secretsmanager_secret", name, JsonValue::Obj(body));
                proof {
                    assert(r@ =~~= self.tf_json_spec());
                }
                r
            },
        }
    }
}

/// A loosely-typed AWS resource: a declared type, a logical name, and free
/// properties.
pub struct AwsAnyResource {
    pub res_type: String,
    pub name: String,
    pub properties: Vec<(String, JsonValue)>,
}

impl AwsAnyResource {
    /// The rendered resource document; the properties gain a best-effort
    /// "name" entry when they name neither a "bucket" nor a "name".
    pub open spec fn tf_json_spec(&self) -> JsonV {
        JsonV::Obj(
            seq![
                (
                    "resource"@,
                    JsonV::Obj(
                        seq![
                            (
                                self.res_type@,
                                JsonV::Obj(
                                    seq![
                                        (
                                            self.name@,
                                            JsonV::Obj(
                                                crate::render::named_props_spec(
                                                    JsonValue::model_obj(self.properties@),
                                                    self.name@,
                                                    true,
                                                ),
                                            ),
                                        ),
                                    ],
                                ),
                            ),
                        ],
                    ),
                ),
            ],
        )
    }

    /// Renders the resource document.
    pub fn to_tf_json(&self) -> (r: JsonValue)
        ensures
            r@ == self.tf_json_spec(),
    {
        crate::render::any_resource_doc(self.res_type.as_str(), &self.name, &self.properties, true)
    }
}

} // verus!
