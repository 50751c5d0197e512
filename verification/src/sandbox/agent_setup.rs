//! Agent checkpoint naming.
//!
//! On first use of an agent, a temporary sandbox installs it and the result
//! is checkpointed; later boots start from that checkpoint.
use vstd::prelude::*;

use crate::text::{append_str, string_from_chars};

verus! {

/// Returns the canonical checkpoint name for an agent.
pub fn agent_checkpoint_name(agent_slug: &str) -> (r: String)
    ensures
        r@ == "agent-"@ + agent_slug@ + "-base"@,
{
    let mut out: Vec<char> = Vec::new();
    append_str(&mut out, "agent-");
    append_str(&mut out, agent_slug);
    append_str(&mut out, "-base");
    string_from_chars(&out)
}

/// Path of a checkpoint without its extension (`.ext4` for a raw image,
/// `.idx` for a content-addressed one).
pub fn checkpoint_base_path(data_dir: &str, checkpoint_name: &str) -> (r: String)
    ensures
        r@ == data_dir@ + "/checkpoints/"@ + checkpoint_name@,
{
    let mut out: Vec<char> = Vec::new();
    append_str(&mut out, data_dir);
    append_str(&mut out, "/checkpoints/");
    append_str(&mut out, checkpoint_name);
    string_from_chars(&out)
}

} // verus!
