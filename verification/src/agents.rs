//! Agents the app can launch in a sandbox: how each is installed, run and
//! authenticated.
use vstd::prelude::*;

pub mod cursor;

verus! {

/// One step of an agent's install script.
pub enum InstallStep {
    /// The shared Node.js install step.
    Node,
    /// A shell command, skipped when `skip_if` succeeds.
    Cmd { label: &'static str, command: &'static str, skip_if: Option<&'static str> },
}

/// A secret an agent needs, and the hosts it may be sent to.
pub struct SecretEntry {
    pub env_var: &'static str,
    pub label: &'static str,
    pub hosts: Vec<&'static str>,
    pub extra_hosts: Vec<&'static str>,
    pub optional: bool,
}

/// An auth gateway fronting an agent's upstream API.
pub struct GatewaySetting {
    pub secret_env_var: &'static str,
    pub upstream_base: &'static str,
}

/// Everything the app knows about an agent.
pub struct AgentConfig {
    pub name: &'static str,
    pub display_name: &'static str,
    pub command: &'static str,
    pub icon: Option<&'static str>,
    pub color: Option<&'static str>,
    pub tab_order: i32,
    pub install_steps: Vec<InstallStep>,
    pub secrets: Vec<SecretEntry>,
    pub auth_gateway: Option<GatewaySetting>,
}

pub fn secret_entry(
    env_var: &'static str,
    label: &'static str,
    hosts: Vec<&'static str>,
    extra_hosts: Vec<&'static str>,
    optional: bool,
) -> (r: SecretEntry)
    ensures
        r.env_var == env_var,
        r.label == label,
        r.hosts@ == hosts@,
        r.extra_hosts@ == extra_hosts@,
        r.optional == optional,
{
    SecretEntry { env_var, label, hosts, extra_hosts, optional }
}

} // verus!
