//! Cursor's agent CLI.
use vstd::prelude::*;

use crate::agents::{AgentConfig, InstallStep};

verus! {

pub fn config() -> (c: AgentConfig)
    ensures
        c.name == "cursor",
        c.display_name == "Cursor",
        c.command == "/root/.local/bin/cursor-agent",
        c.icon == Some("icons/agents/cursor.svg"),
        c.color is None,
        c.tab_order == 2,
        c.install_steps@.len() == 2,
        c.install_steps@[0] == (InstallStep::Cmd {
            label: "Installing Cursor",
            command: "curl -fsSL https://cursor.com/install | bash",
            skip_if: Some("test -x /root/.local/bin/cursor-agent"),
        }),
        c.install_steps@[1] == (InstallStep::Cmd {
            label: "Verifying installation",
            command: "/root/.local/bin/cursor-agent --version",
            skip_if: None,
        }),
        c.secrets@.len() == 0,
        c.auth_gateway is None,
{
    AgentConfig {
        name: "cursor",
        display_name: "Cursor",
        command: "/root/.local/bin/cursor-agent",
        icon: Some("icons/agents/cursor.svg"),
        // The brand mark is monochrome: no color, so it takes the theme's
        // text color.
        color: None,
        tab_order: 2,
        install_steps: vec![
            // The upstream installer fetches the current build (release URLs
            // rotate too fast to pin one).
            InstallStep::Cmd {
                label: "Installing Cursor",
                command: "curl -fsSL https://cursor.com/install | bash",
                skip_if: Some("test -x /root/.local/bin/cursor-agent"),
            },
            InstallStep::Cmd {
                label: "Verifying installation",
                command: "/root/.local/bin/cursor-agent --version",
                skip_if: None,
            },
        ],
        secrets: Vec::new(),
        auth_gateway: None,
    }
}

} // verus!
