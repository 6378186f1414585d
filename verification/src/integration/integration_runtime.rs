//! Configuration of the integration publication runtime.

use vstd::prelude::*;

verus! {

/// Durable system-level integration publication runtime configuration.
#[derive(Debug, PartialEq, Eq)]
pub enum IntegrationRuntimeConfig {
    Fixture,
    Http { endpoint_url: String, timeout_ms: u32 },
}

impl Clone for IntegrationRuntimeConfig {
    fn clone(&self) -> (r: Self)
        ensures
            r == *self,
    {
        match self {
            Self::Fixture => Self::Fixture,
            Self::Http { endpoint_url, timeout_ms } => Self::Http {
                endpoint_url: endpoint_url.clone(),
                timeout_ms: *timeout_ms,
            },
        }
    }
}

impl IntegrationRuntimeConfig {
    pub fn publisher_key(&self) -> (r: &'static str)
        ensures
            r@ == (match self {
                Self::Fixture => "fixture-publisher"@,
                Self::Http { .. } => "http-publisher"@,
            }),
    {
        match self {
            Self::Fixture => "fixture-publisher",
            Self::Http { .. } => "http-publisher",
        }
    }

    pub fn endpoint_url(&self) -> (r: Option<&str>)
        ensures
            match self {
                Self::Fixture => r is None,
                Self::Http { endpoint_url, .. } => r matches Some(u) && u@ == endpoint_url@,
            },
    {
        match self {
            Self::Fixture => None,
            Self::Http { endpoint_url, .. } => Some(endpoint_url.as_str()),
        }
    }

    pub fn timeout_ms(&self) -> (r: Option<u32>)
        ensures
            r == match self {
                Self::Fixture => None,
                Self::Http { timeout_ms, .. } => Some(*timeout_ms),
            },
    {
        match self {
            Self::Fixture => None,
            Self::Http { timeout_ms, .. } => Some(*timeout_ms),
        }
    }
}

/// Observable outcome of configuring the integration publication runtime.
#[derive(Debug, Clone, Copy, PartialEq, Eq, Structural)]
pub enum ConfigureIntegrationRuntimeChange {
    Configured,
    Unchanged,
}

impl ConfigureIntegrationRuntimeChange {
    pub fn as_str(self) -> (r: &'static str)
        ensures
            r@ == (match self {
                Self::Configured => "configured"@,
                Self::Unchanged => "unchanged"@,
            }),
    {
        match self {
            Self::Configured => "configured",
            Self::Unchanged => "unchanged",
        }
    }
}

/// Result of one integration runtime configuration command.
#[derive(Debug, PartialEq, Eq)]
pub struct ConfigureIntegrationRuntimeResult {
    pub change: ConfigureIntegrationRuntimeChange,
    pub config: IntegrationRuntimeConfig,
}

} // verus!
