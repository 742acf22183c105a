//! Rendering of Azure resources into provider-configuration documents.

use vstd::prelude::*;

use crate::json::JsonV;
use crate::json::JsonValue;
use crate::json::entries_push;
use crate::json::obj1;
use crate::render::any_resource_doc;
use crate::render::named_props_spec;
use crate::render::entries_clone;
use crate::render::opt_entry_str;
use crate::render::push_opt_str;

verus! {

/// The Azure provider block.
pub struct AzureProvider {
    pub features: Vec<(String, JsonValue)>,
    pub subscription_id: Option<String>,
}

impl AzureProvider {
    /// The rendered provider document:
    /// `{ "provider": { "azurerm": { "features": .., "subscription_id"? } } }`.
    pub open spec fn tf_json_spec(&self) -> JsonV {
        JsonV::Obj(
            seq![
                (
                    "provider"@,
                    JsonV::Obj(
                        seq![
                            (
                                "azurerm"@,
                                JsonV::Obj(
                                    opt_entry_str(
                                        seq![
                                            (
                                                "features"@,
                                                JsonV::Obj(JsonValue::model_obj(self.features@)),
                                            ),
                                        ],
                                        "subscription_id"@,
                                        self.subscription_id,
                                    ),
                                ),
                            ),
                        ],
                    ),
                ),
            ],
        )
    }

    /// Renders the provider block.
    pub fn to_tf_json(&self) -> (r: JsonValue)
        ensures
            r@ == self.tf_json_spec(),
    {
        let mut body: Vec<(String, JsonValue)> = Vec::new();
        entries_push(&mut body, "features", JsonValue::Obj(entries_clone(&self.features)));
        proof {
            assert(JsonValue::model_obj(body@) =~= seq![
                ("features"@, JsonV::Obj(JsonValue::model_obj(self.features@))),
            ]);
        }
        push_opt_str(&mut body, "subscription_id", &self.subscription_id);
        let r = obj1("provider", obj1("azurerm", JsonValue::Obj(body)));
        proof {
            assert(r@ =~~= self.tf_json_spec());
        }
        r
    }
}

/// A loosely-typed Azure resource: a declared type, a logical name, and
/// free properties.
pub struct AzureAnyResource {
    pub res_type: String,
    pub name: String,
    pub properties: Vec<(String, JsonValue)>,
}

impl AzureAnyResource {
    /// The rendered resource document; the properties gain a best-effort
    /// "name" entry when they hold none.
    pub open spec fn tf_json_spec(&self) -> JsonV {
        JsonV::Obj(
            seq![
                (
                    "resource"@,
                    JsonV::Obj(
                        seq![
                            (
                                self.res_type@,
                                JsonV::Obj(
                                    seq![
                                        (
                                            self.name@,
                                            JsonV::Obj(
                                                named_props_spec(
                                                    JsonValue::model_obj(self.properties@),
                                                    self.name@,
                                                    false,
                                                ),
                                            ),
                                        ),
                                    ],
                                ),
                            ),
                        ],
                    ),
                ),
            ],
        )
    }

    /// Renders the resource document.
    pub fn to_tf_json(&self) -> (r: JsonValue)
        ensures
            r@ == self.tf_json_spec(),
    {
        any_resource_doc(self.res_type.as_str(), &self.name, &self.properties, false)
    }
}

} // verus!
