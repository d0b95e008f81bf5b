//! The rendered app manifest, as it appears on an `env/<class>` branch.

use vstd::prelude::*;

verus! {

/// A rendered application manifest.
#[derive(Debug, Clone)]
pub struct AppManifest {
    pub name: String,
    /// Image pinned by digest; tags are not allowed.
    pub image: String,
    /// Environment variables, by name in ascending order.
    pub env: Vec<(String, String)>,
    pub secrets: Vec<String>,
    pub ingress: Option<Ingress>,
    pub health: Option<HealthCheck>,
    pub migration: Option<Migration>,
}

#[derive(Debug, Clone)]
pub struct Ingress {
    pub host: String,
    pub port: u16,
}

#[derive(Debug, Clone)]
pub struct HealthCheck {
    pub path: String,
    pub port: u16,
    pub retries: u32,
}

/// Health-check retries when the manifest names none.
pub fn default_retries() -> (r: u32)
    ensures
        r == 5,
{
    5
}

/// One-shot migration container run before the blue-green rollout.
#[derive(Debug, Clone)]
pub struct Migration {
    pub command: Vec<String>,
}

} // verus!
