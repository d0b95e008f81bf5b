//! Environment classes and where they run.

use vstd::prelude::*;
use vstd::string::*;

verus! {

/// Environment classes.
#[derive(Debug, Clone, Copy, PartialEq, Eq, Structural, Hash)]
pub enum EnvClass {
    /// Public, gated behind a reviewed `env/production` render PR. Runs on the prod node.
    Production,
    /// VPN-only, auto-deployed on merge to main. Runs on the private node.
    Stable,
    /// VPN-only, PR-scoped preview.
    Ephemeral,
}

pub open spec fn node_role_spec(c: EnvClass) -> Seq<char> {
    match c {
        EnvClass::Production => "prod"@,
        _ => "private"@,
    }
}

pub open spec fn class_name(c: EnvClass) -> Seq<char> {
    match c {
        EnvClass::Production => "production"@,
        EnvClass::Stable => "stable"@,
        EnvClass::Ephemeral => "ephemeral"@,
    }
}

impl EnvClass {
    pub const ALL: [EnvClass; 3] = [EnvClass::Production, EnvClass::Stable, EnvClass::Ephemeral];

    /// Static trust-zoned placement: the node role follows from the class.
    pub fn node_role(self) -> (r: &'static str)
        ensures
            r@ == node_role_spec(self),
    {
        match self {
            EnvClass::Production => "prod",
            EnvClass::Stable | EnvClass::Ephemeral => "private",
        }
    }

    pub fn as_str(self) -> (r: &'static str)
        ensures
            r@ == class_name(self),
    {
        match self {
            EnvClass::Production => "production",
            EnvClass::Stable => "stable",
            EnvClass::Ephemeral => "ephemeral",
        }
    }

    /// The rendered branch this class deploys from: `env/<class>`.
    pub fn env_branch(self) -> (b: String)
        ensures
            b@ == "env/"@ + class_name(self),
    {
        let mut b = String::from_str("env/");
        b.append(self.as_str());
        b
    }

    /// Render PRs for stable and ephemeral auto-merge; production waits for an
    /// admin review of the final diff.
    pub fn auto_merges(self) -> (b: bool)
        ensures
            b == (self != EnvClass::Production),
    {
        !matches!(self, EnvClass::Production)
    }
}

} // verus!
