//! CloudFormation template documents.
//!
//! A stack deployment hands a template document to the cloud command-line
//! tool. Building the document from declared resources is pure; invoking
//! the tool is the caller's concern.

use vstd::prelude::*;

use crate::json::JsonV;
use crate::json::JsonValue;
use crate::json::entries_push;
use crate::json::lemma_model_obj;
use crate::render::entries_clone;

verus! {

/// The tool a stack is deployed through.
#[derive(Clone, Copy)]
pub enum CfnRunner {
    AwsCli,
}

/// A loosely-typed template resource: a logical name, a declared type, and
/// free properties.
pub struct CfnAnyResource {
    pub name: String,
    pub res_type: String,
    pub properties: Vec<(String, JsonValue)>,
}

impl CfnAnyResource {
    /// The resource's document body:
    /// `{ "name": .., "Type": .., "properties": { .. } }`.
    pub open spec fn doc_spec(&self) -> JsonV {
        JsonV::Obj(
            seq![
                ("name"@, JsonV::Str(self.name@)),
                ("Type"@, JsonV::Str(self.res_type@)),
                ("properties"@, JsonV::Obj(JsonValue::model_obj(self.properties@))),
            ],
        )
    }

    /// Renders the resource's document body.
    pub fn to_json(&self) -> (r: JsonValue)
        ensures
            r@ == self.doc_spec(),
    {
        let mut es: Vec<(String, JsonValue)> = Vec::new();
        entries_push(&mut es, "name", JsonValue::Str(self.name.clone()));
        entries_push(&mut es, "Type", JsonValue::Str(self.res_type.clone()));
        entries_push(&mut es, "properties", JsonValue::Obj(entries_clone(&self.properties)));
        proof {
            assert(JsonValue::model_obj(es@) =~= seq![
                ("name"@, JsonV::Str(self.name@)),
                ("Type"@, JsonV::Str(self.res_type@)),
                ("properties"@, JsonV::Obj(JsonValue::model_obj(self.properties@))),
            ]);
        }
        JsonValue::Obj(es)
    }
}

/// A template: a format version, a description, and resources keyed by
/// logical name, kept in the order they were declared.
pub struct CfnTemplate {
    pub version: Option<String>,
    pub description: Option<String>,
    pub resources: Vec<(String, CfnAnyResource)>,
}

/// A string entry, or a null entry when the value is absent.
pub open spec fn str_or_null(v: Option<String>) -> JsonV {
    match v {
        Option::Some(s) => JsonV::Str(s@),
        Option::None => JsonV::Null,
    }
}

/// The documents of the template's resources, in declaration order.
pub open spec fn resources_doc_spec(rs: Seq<(String, CfnAnyResource)>) -> Seq<(Seq<char>, JsonV)>
    decreases rs.len(),
{
    if rs.len() == 0 {
        Seq::empty()
    } else {
        seq![(rs.first().0@, rs.first().1.doc_spec())] + resources_doc_spec(rs.drop_first())
    }
}

/// `resources_doc_spec` maps each entry to its document.
pub proof fn lemma_resources_doc_spec(rs: Seq<(String, CfnAnyResource)>)
    ensures
        resources_doc_spec(rs).len() == rs.len(),
        forall|i: int|
            0 <= i < rs.len() ==> resources_doc_spec(rs)[i] == (rs[i].0@, rs[i].1.doc_spec()),
    decreases rs.len(),
{
    if rs.len() > 0 {
        lemma_resources_doc_spec(rs.drop_first());
    }
}

impl CfnTemplate {
    /// The rendered template document: the format version, the
    /// description, and the map of resource documents, in that order;
    /// absent version or description render as null.
    pub open spec fn doc_spec(&self) -> JsonV {
        JsonV::Obj(
            seq![
                ("AWSTemplateFormatVersion"@, str_or_null(self.version)),
                ("Description"@, str_or_null(self.description)),
                ("Resources"@, JsonV::Obj(resources_doc_spec(self.resources@))),
            ],
        )
    }

    /// Renders the template document.
    pub fn to_json(&self) -> (r: JsonValue)
        ensures
            r@ == self.doc_spec(),
    {
        let version: JsonValue = match &self.version {
            Option::Some(s) => JsonValue::Str(s.clone()),
            Option::None => JsonValue::Null,
        };
        let description: JsonValue = match &self.description {
            Option::Some(s) => JsonValue::Str(s.clone()),
            Option::None => JsonValue::Null,
        };
        let mut rs: Vec<(String, JsonValue)> = Vec::new();
        let mut i: usize = 0;
        while i < self.resources.len()
            invariant
                0 <= i <= self.resources@.len(),
                rs@.len() == i,
                forall|j: int|
                    0 <= j < i ==> rs@[j].0@ == self.resources@[j].0@ && rs@[j].1@
                        == self.resources@[j].1.doc_spec(),
            decreases self.resources@.len() - i,
        {
            let (k, res) = &self.resources[i];
            rs.push((k.clone(), res.to_json()));
            i += 1;
        }
        proof {
            lemma_model_obj(rs@);
            lemma_resources_doc_spec(self.resources@);
            assert(JsonValue::model_obj(rs@) =~= resources_doc_spec(self.resources@));
        }
        let mut es: Vec<(String, JsonValue)> = Vec::new();
        let ghost vv = version@;
        let ghost dv = description@;
        entries_push(&mut es, "AWSTemplateFormatVersion", version);
        entries_push(&mut es, "Description", description);
        entries_push(&mut es, "Resources", JsonValue::Obj(rs));
        proof {
            assert(JsonValue::model_obj(es@) =~= seq![
                ("AWSTemplateFormatVersion"@, vv),
                ("Description"@, dv),
                ("Resources"@, JsonV::Obj(resources_doc_spec(self.resources@))),
            ]);
        }
        JsonValue::Obj(es)
    }
}

} // verus!
