//! Plan-time checks on rendered documents and declarations.

use vstd::prelude::*;

use vstd::string::StringSliceAdditionalSpecFns;

use crate::json::JsonV;
use crate::json::JsonValue;
use crate::json::obj_has_key;
use crate::json::obj_lookup;

verus! {

/// A declaration or document rejected by a plan-time check.
pub struct ConfigError {
    pub message: String,
}

/// The map of S3 buckets in a rendered document, when one is present:
/// the value under "resource", then "aws_s3_bucket".
pub open spec fn s3_buckets_of(tf: JsonV) -> Option<JsonV> {
    match tf {
        JsonV::Obj(es) => match obj_lookup(es, "resource"@) {
            Option::Some(r) => match r {
                JsonV::Obj(res) => obj_lookup(res, "aws_s3_bucket"@),
                _ => Option::None,
            },
            Option::None => Option::None,
        },
        _ => Option::None,
    }
}

/// Whether a bucket body declares encryption under either accepted key.
pub open spec fn bucket_encrypted(b: JsonV) -> bool {
    match b {
        JsonV::Obj(es) => obj_has_key(es, "bucket_encryption"@) || obj_has_key(
            es,
            "server_side_encryption_configuration"@,
        ),
        _ => false,
    }
}

/// Whether the document passes the policy: unencrypted buckets are allowed,
/// or every declared S3 bucket declares encryption.
pub open spec fn policy_ok(allow_unencrypted: bool, tf: JsonV) -> bool {
    allow_unencrypted || match s3_buckets_of(tf) {
        Option::Some(m) => match m {
            JsonV::Obj(bs) => forall|i: int|
                0 <= i < bs.len() ==> bucket_encrypted((#[trigger] bs[i]).1),
            _ => true,
        },
        Option::None => true,
    }
}

/// Plan-time checks over rendered documents.
pub struct Policy {
    pub allow_unencrypted: bool,
}

impl Policy {
    /// A policy that allows unencrypted buckets only when asked to.
    pub fn new(allow_unencrypted: bool) -> (r: Policy)
        ensures
            r.allow_unencrypted == allow_unencrypted,
    {
        Policy { allow_unencrypted }
    }

    /// Checks a rendered document: rejects it exactly when some declared
    /// S3 bucket lacks encryption and unencrypted buckets are not allowed.
    #[verifier::loop_isolation(false)]
    pub fn check_tf_json(&self, tf: &JsonValue) -> (r: Result<(), ConfigError>)
        requires
            match s3_buckets_of(tf@) {
                Option::Some(m) => m is Obj,
                Option::None => true,
            },
        ensures
            r is Ok <==> policy_ok(self.allow_unencrypted, tf@),
    {
        let buckets = match tf.get("resource") {
            Option::Some(r) => match r.get("aws_s3_bucket") {
                Option::Some(b) => b,
                Option::None => {
                    return Ok(());
                },
            },
            Option::None => {
                return Ok(());
            },
        };
        proof {
            assert(s3_buckets_of(tf@) == Option::Some(buckets@));
        }
        match buckets {
            JsonValue::Obj(entries) => {
                proof {
                    crate::json::lemma_model_obj(entries@);
                }
                let ghost bs = JsonValue::model_obj(entries@);
                let mut i: usize = 0;
                while i < entries.len()
                    invariant
                        0 <= i <= entries@.len(),
                        !self.allow_unencrypted ==> forall|j: int|
                            0 <= j < i ==> bucket_encrypted((#[trigger] bs[j]).1),
                    decreases entries@.len() - i,
                {
                    let has_enc = entries[i].1.contains_key("bucket_encryption")
                        || entries[i].1.contains_key("server_side_encryption_configuration");
                    proof {
                        assert(bs[i as int] == (entries@[i as int].0@, entries@[i as int].1@));
                        assert(has_enc == bucket_encrypted(bs[i as int].1));
                    }
                    if !has_enc && !self.allow_unencrypted {
                        proof {
                            assert(!policy_ok(self.allow_unencrypted, tf@));
                        }
                        return Err(
                            ConfigError {
                                message: "an S3 bucket requires encryption".to_owned(),
                            },
                        );
                    }
                    i += 1;
                }
                Ok(())
            },
            _ => {
                proof {
                    assert(false);
                }
                Ok(())
            },
        }
    }
}

/// A byte a resource type may hold: a lowercase ASCII letter, a digit, or
/// an underscore.
pub open spec fn valid_type_byte(b: u8) -> bool {
    (97 <= b <= 122) || (48 <= b <= 57) || b == 95
}

/// A well-formed resource type for a provider: it starts with the
/// provider's prefix and holds only lowercase letters, digits and
/// underscores.
pub open spec fn type_ok(prefix: Seq<u8>, t: Seq<u8>) -> bool {
    &&& t.len() >= prefix.len()
    &&& t.subrange(0, prefix.len() as int) == prefix
    &&& forall|i: int| 0 <= i < t.len() ==> valid_type_byte(#[trigger] t[i])
}

/// Accepts a declared resource type exactly when it starts with the
/// provider's prefix and holds only lowercase letters, digits and
/// underscores.
#[verifier::loop_isolation(false)]
pub fn ensure_type_prefix(prefix: &str, res_type: &str) -> (r: Result<(), ConfigError>)
    ensures
        r is Ok <==> type_ok(prefix.spec_bytes(), res_type.spec_bytes()),
{
    let p = prefix.as_bytes();
    let t = res_type.as_bytes();
    if t.len() < p.len() {
        return Err(
            ConfigError { message: "resource type must start with the provider prefix".to_owned() },
        );
    }
    let mut i: usize = 0;
    while i < p.len()
        invariant
            0 <= i <= p@.len(),
            p@.len() <= t@.len(),
            forall|j: int| 0 <= j < i ==> t@[j] == p@[j],
        decreases p@.len() - i,
    {
        if t[i] != p[i] {
            proof {
                assert(t@.subrange(0, p@.len() as int)[i as int] != p@[i as int]);
            }
            return Err(
                ConfigError {
                    message: "resource type must start with the provider prefix".to_owned(),
                },
            );
        }
        i += 1;
    }
    let mut k: usize = 0;
    while k < t.len()
        invariant
            0 <= k <= t@.len(),
            forall|j: int| 0 <= j < k ==> valid_type_byte(#[trigger] t@[j]),
        decreases t@.len() - k,
    {
        let b = t[k];
        if !((97 <= b && b <= 122) || (48 <= b && b <= 57) || b == 95) {
            return Err(
                ConfigError {
                    message:
                        "resource type may hold only lowercase letters, digits and underscores".to_owned(),
                },
            );
        }
        k += 1;
    }
    proof {
        assert(t@.subrange(0, p@.len() as int) =~= p@);
    }
    Ok(())
}

} // verus!
