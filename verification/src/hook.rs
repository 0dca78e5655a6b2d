//! The replacement for the host's time query.
//!
//! The agent holds what the replacement keeps between calls: the policy and
//! the control channel. The host may call from several threads. Whoever
//! embeds the agent keeps it behind one lock and holds the lock for the whole
//! of a call, so that a call sees the policy either before an update or
//! after it.

use crate::channel::{poll_step, ChannelState, ControlChannel, PollEvent, PollInput};
use crate::filetime::FileTime;
use crate::policy::TimeConfig;
use crate::wire::ControlMessage;
use vstd::prelude::*;

verus! {

/// The agent as contracts see it.
pub struct AgentState {
    pub policy: TimeConfig,
    pub channel: ChannelState,
}

impl AgentState {
    /// The agent when it is loaded: frozen at tick zero, its connection just
    /// opened.
    pub open spec fn initial() -> AgentState {
        AgentState {
            policy: TimeConfig {
                base_time: 0,
                new_time: 0,
                real_time: false,
                move_forward: false,
            },
            channel: ChannelState::fresh(),
        }
    }

    /// The agent after one call of the host's time query, before which a
    /// read of the connection gave `input`.
    pub open spec fn after_call(self, input: PollInput, real_now: u64) -> AgentState {
        AgentState {
            policy: poll_step(self.channel, self.policy, input, real_now).policy,
            channel: poll_step(self.channel, self.policy, input, real_now).channel,
        }
    }
}

/// What the replacement keeps between calls.
#[derive(Debug)]
pub struct Agent {
    policy: TimeConfig,
    channel: ControlChannel,
}

impl View for Agent {
    type V = AgentState;

    closed spec fn view(&self) -> AgentState {
        AgentState { policy: self.policy, channel: self.channel@ }
    }
}

/// What one call of the replacement comes to.
#[derive(Debug)]
pub struct Interception {
    /// The time to write into the caller's buffer.
    pub file_time: FileTime,
    /// The updates that were applied before the time was computed, in
    /// order. Each is owed an acknowledgement.
    pub applied: Vec<ControlMessage>,
    /// Whether bytes from the controller were dropped as malformed.
    pub rejected: bool,
}

impl Agent {
    /// The agent as it is when loaded.
    pub fn new() -> (agent: Agent)
        ensures
            agent@ == AgentState::initial(),
    {
        Agent { policy: TimeConfig::new(0, 0, false, false), channel: ControlChannel::new() }
    }

    /// A copy of the policy in force.
    pub fn policy(&self) -> (policy: TimeConfig)
        ensures
            policy == self@.policy,
    {
        self.policy
    }

    /// Whether the connection is still to be read before a call is served.
    pub fn is_online(&self) -> (online: bool)
        ensures
            online == self@.channel.online,
    {
        self.channel.is_online()
    }

    /// Gives the connection up, after an acknowledgement could not be
    /// written. The policy stays as it is.
    pub fn connection_lost(&mut self)
        ensures
            final(self)@ == (AgentState { policy: old(self)@.policy, channel: ChannelState::offline() }),
    {
        self.channel.connection_lost();
    }
}

/// Serves one call of the host's time query: takes in what a read of the
/// connection gave, applies the updates that are complete, and computes the
/// time to report under the policy then in force, for a real clock that
/// reads `real_now`.
pub fn get_system_time_as_file_time_hook(agent: &mut Agent, event: PollEvent, real_now: u64) -> (seen:
    Interception)
    ensures
        final(agent)@ == old(agent)@.after_call(event@, real_now),
        seen.file_time == FileTime::of_ticks(final(agent)@.policy.timestamp_at(real_now)),
        seen.applied@ == poll_step(
            old(agent)@.channel,
            old(agent)@.policy,
            event@,
            real_now,
        ).applied,
        seen.rejected == poll_step(
            old(agent)@.channel,
            old(agent)@.policy,
            event@,
            real_now,
        ).rejected,
{
    let mut policy = agent.policy;
    let report = agent.channel.poll_and_apply(&mut policy, event, real_now);
    agent.policy = policy;
    let file_time = agent.policy.get_current_filetime(real_now);
    Interception { file_time, applied: report.applied, rejected: report.rejected }
}

/// Until the first update arrives the agent reports tick zero, whatever the
/// real clock reads and however often it is asked.
pub proof fn lemma_fresh_agent_reports_zero(first_now: u64, later_now: u64)
    ensures
        AgentState::initial().policy.timestamp_at(first_now) == 0,
        AgentState::initial().after_call(PollInput::Idle, first_now) == AgentState::initial(),
        AgentState::initial().after_call(PollInput::Idle, first_now).policy.timestamp_at(later_now)
            == 0,
{
}

} // verus!
