//! Choosing the provisioning tool.
//!
//! The engine's documents are handed to one of two compatible command-line
//! tools. Which binary runs is a pure decision over a stated preference and
//! the tools' availability; probing the system for availability and
//! spawning the processes are the caller's concern.

use vstd::prelude::*;

use crate::policy::ConfigError;

verus! {

/// A provisioning tool the rendered documents can be handed to.
#[derive(Clone, Copy)]
pub enum Runner {
    Terraform,
    Tofu,
}

/// The name of the runner's binary.
pub fn bin(r: Runner) -> (s: &'static str)
    ensures
        r is Terraform ==> s@ == "terraform"@,
        r is Tofu ==> s@ == "tofu"@,
{
    match r {
        Runner::Terraform => "terraform",
        Runner::Tofu => "tofu",
    }
}

/// Picks the runner to use: a stated preference wins; otherwise the first
/// available tool, trying tofu before terraform; with neither available the
/// choice fails.
pub fn pick_runner(prefer: Option<Runner>, tofu_available: bool, terraform_available: bool) -> (r:
    Result<Runner, ConfigError>)
    ensures
        match prefer {
            Option::Some(p) => r == Ok::<Runner, ConfigError>(p),
            Option::None => {
                &&& tofu_available ==> r == Ok::<Runner, ConfigError>(Runner::Tofu)
                &&& (!tofu_available && terraform_available) ==> r == Ok::<Runner, ConfigError>(
                    Runner::Terraform,
                )
                &&& (!tofu_available && !terraform_available) ==> r is Err
            },
        },
{
    if let Some(p) = prefer {
        return Ok(p);
    }
    if tofu_available {
        Ok(Runner::Tofu)
    } else if terraform_available {
        Ok(Runner::Terraform)
    } else {
        Err(ConfigError { message: "neither tofu nor terraform is available".to_owned() })
    }
}

} // verus!
