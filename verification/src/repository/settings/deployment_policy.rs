//! What a deploy does when a runtime volume already exists.

use vstd::prelude::*;

use crate::error::VariantError;
use crate::strutil::eq_ignore_case;
use crate::strutil::lower_eq;

verus! {

/// Whether a deploy replaces a runtime volume that already exists, or
/// leaves it untouched.
#[derive(Clone, Copy, Debug, PartialEq, Eq, Structural)]
pub enum DeploymentPolicy {
    Overwrite,
    NoOverwrite,
}

impl DeploymentPolicy {
    /// Reads a policy from its name, ignoring ASCII case.
    pub fn try_from(value: &str) -> (r: Result<DeploymentPolicy, VariantError>)
        ensures
            match r {
                Ok(DeploymentPolicy::Overwrite) => lower_eq(value@, "overwrite"@),
                Ok(DeploymentPolicy::NoOverwrite) => lower_eq(value@, "donotoverwrite"@)
                    && !lower_eq(value@, "overwrite"@),
                Err(e) => !lower_eq(value@, "overwrite"@) && !lower_eq(value@, "donotoverwrite"@)
                    && e.spec_variant() == value@,
            },
    {
        if eq_ignore_case(value, "overwrite") {
            Ok(DeploymentPolicy::Overwrite)
        } else if eq_ignore_case(value, "donotoverwrite") {
            Ok(DeploymentPolicy::NoOverwrite)
        } else {
            Err(VariantError::new(value))
        }
    }

    /// The conventional rendering of the policy.
    pub fn as_str(&self) -> (r: &'static str)
        ensures
            r@ == self.spec_str(),
    {
        match self {
            DeploymentPolicy::Overwrite => "Overwrite",
            DeploymentPolicy::NoOverwrite => "NoOverwrite",
        }
    }

    /// The conventional rendering of the policy.
    pub open spec fn spec_str(&self) -> Seq<char> {
        match self {
            DeploymentPolicy::Overwrite => "Overwrite"@,
            DeploymentPolicy::NoOverwrite => "NoOverwrite"@,
        }
    }
}

/// The rendering of the non-default policy reads back as that policy
/// alone.
pub proof fn lemma_policy_render_parses()
    ensures
        lower_eq(DeploymentPolicy::Overwrite.spec_str(), "overwrite"@),
        !lower_eq(DeploymentPolicy::Overwrite.spec_str(), "donotoverwrite"@),
{
    reveal_strlit("Overwrite");
    reveal_strlit("overwrite");
    reveal_strlit("donotoverwrite");
    assert("Overwrite"@.len() == 9);
    assert("overwrite"@.len() == 9);
    assert("donotoverwrite"@.len() == 14);
}

} // verus!
