//! Rendering of GCP resources into provider-configuration documents.

use vstd::prelude::*;

use crate::json::JsonV;
use crate::json::JsonValue;
use crate::json::entries_push;
use crate::json::obj1;
use crate::render::any_resource_doc;
use crate::render::named_props_spec;
use crate::render::opt_entry_bool;
use crate::render::opt_entry_str;
use crate::render::push_opt_bool;
use crate::render::push_opt_str;
use crate::render::wrap_resource;

verus! {

/// The GCP provider block.
pub struct GcpProvider {
    pub project: String,
    pub region: Option<String>,
}

impl GcpProvider {
    /// The rendered provider document:
    /// `{ "provider": { "google": { "project": .., "region"? } } }`.
    pub open spec fn tf_json_spec(&self) -> JsonV {
        JsonV::Obj(
            seq![
                (
                    "provider"@,
                    JsonV::Obj(
                        seq![
                            (
                                "google"@,
                                JsonV::Obj(
                                    opt_entry_str(
                                        seq![("project"@, JsonV::Str(self.project@))],
                                        "region"@,
                                        self.region,
                                    ),
                                ),
                            ),
                        ],
                    ),
                ),
            ],
        )
    }

    /// Renders the provider block.
    pub fn to_tf_json(&self) -> (r: JsonValue)
        ensures
            r@ == self.tf_json_spec(),
    {
        let mut body: Vec<(String, JsonValue)> = Vec::new();
        entries_push(&mut body, "project", JsonValue::Str(self.project.clone()));
        proof {
            assert(JsonValue::model_obj(body@) =~= seq![("project"@, JsonV::Str(self.project@))]);
        }
        push_opt_str(&mut body, "region", &self.region);
        let r = obj1("provider", obj1("google", JsonValue::Obj(body)));
        proof {
            assert(r@ =~~= self.tf_json_spec());
        }
        r
    }
}

/// One provisionable GCP resource kind.
pub enum GcpResource {
    StorageBucket { name: String, location: String, force_destroy: Option<bool> },
    KmsKeyRing { name: String, location: String },
    SecretManagerSecret { name: String, replication: String },
}

impl GcpResource {
    /// The rendered resource document, by kind.
    pub open spec fn tf_json_spec(&self) -> JsonV {
        match self {
            GcpResource::StorageBucket { name, location, force_destroy } => JsonV::Obj(
                seq![
                    (
                        "resource"@,
                        JsonV::Obj(
                            seq![
                                (
                                    "google_storage_bucket"@,
                                    JsonV::Obj(
                                        seq![
                                            (
                                                name@,
                                                JsonV::Obj(
                                                    opt_entry_bool(
                                                        seq![
                                                            ("name"@, JsonV::Str(name@)),
                                                            ("location"@, JsonV::Str(location@)),
                                                        ],
                                                        "force_destroy"@,
                                                        *force_destroy,
                                                    ),
                                                ),
                                            ),
                                        ],
                                    ),
                                ),
                            ],
                        ),
                    ),
                ],
            ),
            GcpResource::KmsKeyRing { name, location } => JsonV::Obj(
                seq![
                    (
                        "resource"@,
                        JsonV::Obj(
                            seq![
                                (
                                    "google_kms_key_ring"@,
                                    JsonV::Obj(
                                        seq![
                                            (
                                                name@,
                                                JsonV::Obj(
                                                    seq![
                                                        ("name"@, JsonV::Str(name@)),
                                                        ("location"@, JsonV::Str(location@)),
                                                    ],
                                                ),
                                            ),
                                        ],
                                    ),
                                ),
                            ],
                        ),
                    ),
                ],
            ),
            GcpResource::SecretManagerSecret { name, replication } => JsonV::Obj(
                seq![
                    (
                        "resource"@,
                        JsonV::Obj(
                            seq![
                                (
                                    "google_secret_manager_secret"@,
                                    JsonV::Obj(
                                        seq![
                                            (
                                                name@,
                                                JsonV::Obj(
                                                    seq![
                                                        ("name"@, JsonV::Str(name@)),
                                                        ("replication"@, JsonV::Str(replication@)),
                                                    ],
                                                ),
                                            ),
                                        ],
                                    ),
                                ),
                            ],
                        ),
                    ),
                ],
            ),
        }
    }

    /// Renders the resource document.
    pub fn to_tf_json(&self) -> (r: JsonValue)
        ensures
            r@ == self.tf_json_spec(),
    {
        match self {
            GcpResource::StorageBucket { name, location, force_destroy } => {
                let mut body: Vec<(String, JsonValue)> = Vec::new();
                entries_push(&mut body, "name", JsonValue::Str(name.clone()));
                entries_push(&mut body, "location", JsonValue::Str(location.clone()));
                proof {
                    assert(JsonValue::model_obj(body@) =~= seq![
                        ("name"@, JsonV::Str(name@)),
                        ("location"@, JsonV::Str(location@)),
                    ]);
                }
                push_opt_bool(&mut body, "force_destroy", force_destroy);
                let r = wrap_resource("google_storage_bucket", name, JsonValue::Obj(body));
                proof {
                    assert(r@ =~~= self.tf_json_spec());
                }
                r
            },
            GcpResource::KmsKeyRing { name, location } => {
                let mut body: Vec<(String, JsonValue)> = Vec::new();
                entries_push(&mut body, "name", JsonValue::Str(name.clone()));
                entries_push(&mut body, "location", JsonValue::Str(location.clone()));
                proof {
                    assert(JsonValue::model_obj(body@) =~= seq![
                        ("name"@, JsonV::Str(name@)),
                        ("location"@, JsonV::Str(location@)),
                    ]);
                }
                let r = wrap_resource("google_kms_key_ring", name, JsonValue::Obj(body));
                proof {
                    assert(r@ =~~= self.tf_json_spec());
                }
                r
            },
            GcpResource::SecretManagerSecret { name, replication } => {
                let mut body: Vec<(String, JsonValue)> = Vec::new();
                entries_push(&mut body, "name", JsonValue::Str(name.clone()));
                entries_push(&mut body, "replication", JsonValue::Str(replication.clone()));
                proof {
                    assert(JsonValue::model_obj(body@) =~= seq![
                        ("name"@, JsonV::Str(name@)),
                        ("replication"@, JsonV::Str(replication@)),
                    ]);
                }
                let r = wrap_resource("google_secret_manager_secret", name, JsonValue::Obj(body));
                proof {
                    assert(r@ =~~= self.tf_json_spec());
                }
                r
            },
        }
    }
}

/// A loosely-typed GCP resource: a declared type, a logical name, and free
/// properties.
pub struct GcpAnyResource {
    pub res_type: String,
    pub name: String,
    pub properties: Vec<(String, JsonValue)>,
}

impl GcpAnyResource {
    /// The rendered resource document; the properties gain a best-effort
    /// "name" entry when they hold none.
    pub open spec fn tf_json_spec(&self) -> JsonV {
        JsonV::Obj(
            seq![
                (
                    "resource"@,
                    JsonV::Obj(
                        seq![
                            (
                                self.res_type@,
                                JsonV::Obj(
                                    seq![
                                        (
                                            self.name@,
                                            JsonV::Obj(
                                                named_props_spec(
                                                    JsonValue::model_obj(self.properties@),
                                                    self.name@,
                                                    false,
                                                ),
                                            ),
                                        ),
                                    ],
                                ),
                            ),
                        ],
                    ),
                ),
            ],
        )
    }

    /// Renders the resource document.
    pub fn to_tf_json(&self) -> (r: JsonValue)
        ensures
            r@ == self.tf_json_spec(),
    {
        any_resource_doc(self.res_type.as_str(), &self.name, &self.properties, false)
    }
}

} // verus!
