//! The coding agents herdr recognises in a pane.
use vstd::prelude::*;

verus! {

/// A coding agent detected in a pane.
#[derive(Clone, Copy, Debug, PartialEq, Eq, Structural)]
pub enum Agent {
    Claude,
    Codex,
    Gemini,
    Antigravity,
    GithubCopilot,
    Devin,
    Kiro,
    Amp,
    Grok,
    Cursor,
    OpenCode,
    Pi,
    Cline,
    Omp,
    Mastracode,
    Kimi,
    Droid,
    Hermes,
    Kilo,
    Qodercli,
    Qwen,
    Maki,
    Muse,
}

/// Every agent, in the canonical order that logo ids are keyed by.
pub open spec fn spec_all_agents() -> Seq<Agent> {
    seq![
        Agent::Claude,
        Agent::Codex,
        Agent::Gemini,
        Agent::Antigravity,
        Agent::GithubCopilot,
        Agent::Devin,
        Agent::Kiro,
        Agent::Amp,
        Agent::Grok,
        Agent::Cursor,
        Agent::OpenCode,
        Agent::Pi,
        Agent::Cline,
        Agent::Omp,
        Agent::Mastracode,
        Agent::Kimi,
        Agent::Droid,
        Agent::Hermes,
        Agent::Kilo,
        Agent::Qodercli,
        Agent::Qwen,
        Agent::Maki,
        Agent::Muse,
    ]
}

/// The position of `agent` in [`spec_all_agents`].
pub open spec fn agent_position(agent: Agent) -> int {
    match agent {
        Agent::Claude => 0,
        Agent::Codex => 1,
        Agent::Gemini => 2,
        Agent::Antigravity => 3,
        Agent::GithubCopilot => 4,
        Agent::Devin => 5,
        Agent::Kiro => 6,
        Agent::Amp => 7,
        Agent::Grok => 8,
        Agent::Cursor => 9,
        Agent::OpenCode => 10,
        Agent::Pi => 11,
        Agent::Cline => 12,
        Agent::Omp => 13,
        Agent::Mastracode => 14,
        Agent::Kimi => 15,
        Agent::Droid => 16,
        Agent::Hermes => 17,
        Agent::Kilo => 18,
        Agent::Qodercli => 19,
        Agent::Qwen => 20,
        Agent::Maki => 21,
        Agent::Muse => 22,
    }
}

/// Every agent appears in the canonical list exactly once, at its position.
pub proof fn lemma_all_agents_lists_each_agent_once(agent: Agent)
    ensures
        0 <= agent_position(agent) < spec_all_agents().len(),
        spec_all_agents()[agent_position(agent)] == agent,
        forall|i: int|
            0 <= i < spec_all_agents().len() && spec_all_agents()[i] == agent ==> i
                == agent_position(agent),
{
}

/// Every agent, in the canonical order.
pub fn all_agents() -> (agents: Vec<Agent>)
    ensures
        agents@ == spec_all_agents(),
{
    vec![
        Agent::Claude,
        Agent::Codex,
        Agent::Gemini,
        Agent::Antigravity,
        Agent::GithubCopilot,
        Agent::Devin,
        Agent::Kiro,
        Agent::Amp,
        Agent::Grok,
        Agent::Cursor,
        Agent::OpenCode,
        Agent::Pi,
        Agent::Cline,
        Agent::Omp,
        Agent::Mastracode,
        Agent::Kimi,
        Agent::Droid,
        Agent::Hermes,
        Agent::Kilo,
        Agent::Qodercli,
        Agent::Qwen,
        Agent::Maki,
        Agent::Muse,
    ]
}

} // verus!
