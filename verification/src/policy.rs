//! The spoofing policy and the timestamp it reports.

use crate::filetime::FileTime;
use crate::wire::ControlMessage;
use vstd::prelude::*;

verus! {

/// The timestamp that stands for the integer `x`: `x` counted modulo 2^64.
pub open spec fn wrap_ticks(x: int) -> u64 {
    (x % 0x1_0000_0000_0000_0000) as u64
}

/// The rule by which the reported time is chosen.
///
/// `real_time` takes priority over `move_forward`. With neither set the
/// policy is frozen and reports `new_time` whatever the clock says.
#[derive(Clone, Copy, Debug, PartialEq, Eq, Structural)]
pub struct TimeConfig {
    /// Reading of the real clock taken when the base was last reset.
    pub base_time: u64,
    /// The instant to report when frozen, and the anchor when moving forward.
    pub new_time: u64,
    /// Report the real clock unchanged.
    pub real_time: bool,
    /// Report `new_time` plus the real time elapsed since `base_time`.
    pub move_forward: bool,
}

impl TimeConfig {
    /// The timestamp this policy reports when the real clock reads `real_now`.
    pub open spec fn timestamp_at(self, real_now: u64) -> u64 {
        if self.real_time {
            real_now
        } else if self.move_forward {
            wrap_ticks(self.new_time + (real_now - self.base_time))
        } else {
            self.new_time
        }
    }

    /// The policy that results from taking in one update while the real clock
    /// reads `real_now`: the base is reset to the clock if asked for, and the
    /// three other fields are replaced together.
    pub open spec fn updated(
        self,
        timestamp: u64,
        real_time: bool,
        move_forward: bool,
        update_base_time: bool,
        real_now: u64,
    ) -> TimeConfig {
        TimeConfig {
            base_time: if update_base_time { real_now } else { self.base_time },
            new_time: timestamp,
            real_time,
            move_forward,
        }
    }

    /// The policy that results from taking in `message` while the real clock
    /// reads `real_now`.
    pub open spec fn after(self, message: ControlMessage, real_now: u64) -> TimeConfig {
        self.updated(
            message.timestamp,
            message.real_time,
            message.move_forward,
            message.reset_base,
            real_now,
        )
    }

    /// The policy that results from taking in `messages` one after the other,
    /// first to last, while the real clock reads `real_now`.
    pub open spec fn after_all(self, messages: Seq<ControlMessage>, real_now: u64) -> TimeConfig
        decreases messages.len(),
    {
        if messages.len() == 0 {
            self
        } else {
            self.after(messages[0], real_now).after_all(messages.skip(1), real_now)
        }
    }

    pub fn new(base_time: u64, new_time: u64, real_time: bool, move_forward: bool) -> (config:
        TimeConfig)
        ensures
            config == (TimeConfig { base_time, new_time, real_time, move_forward }),
    {
        TimeConfig { base_time, new_time, real_time, move_forward }
    }

    /// The spoofed timestamp for a call made while the real clock reads
    /// `real_now`. The arithmetic of a moving policy wraps modulo 2^64.
    pub fn get_current_timestamp(&self, real_now: u64) -> (stamp: u64)
        ensures
            stamp == self.timestamp_at(real_now),
    {
        if !(self.real_time || self.move_forward) {
            return self.new_time;
        }
        if self.real_time {
            return real_now;
        }
        let elapsed = real_now.wrapping_sub(self.base_time);
        self.new_time.wrapping_add(elapsed)
    }

    /// The spoofed timestamp in the form in which the host's query hands it
    /// out.
    pub fn get_current_filetime(&self, real_now: u64) -> (file_time: FileTime)
        ensures
            file_time == FileTime::of_ticks(self.timestamp_at(real_now)),
            file_time.ticks() == self.timestamp_at(real_now),
    {
        FileTime::from_ticks(self.get_current_timestamp(real_now))
    }

    /// Takes in one update from the controller.
    pub fn update_settings(
        &mut self,
        timestamp: u64,
        real_time: bool,
        move_forward: bool,
        update_base_time: bool,
        real_now: u64,
    )
        ensures
            *final(self) == old(self).updated(
                timestamp,
                real_time,
                move_forward,
                update_base_time,
                real_now,
            ),
    {
        if update_base_time {
            self.base_time = real_now;
        }
        self.new_time = timestamp;
        self.real_time = real_time;
        self.move_forward = move_forward;
    }
}

/// The reported time depends on nothing but the policy and the reading of the
/// real clock: equal policies asked at equal readings report the same.
pub proof fn lemma_timestamp_is_determined(
    first: TimeConfig,
    second: TimeConfig,
    first_now: u64,
    second_now: u64,
)
    requires
        first == second,
        first_now == second_now,
    ensures
        first.timestamp_at(first_now) == second.timestamp_at(second_now),
{
}

/// A frozen policy reports its `new_time` whatever the real clock reads.
pub proof fn lemma_frozen_ignores_clock(config: TimeConfig, first_now: u64, second_now: u64)
    requires
        !config.real_time,
        !config.move_forward,
    ensures
        config.timestamp_at(first_now) == config.new_time,
        config.timestamp_at(second_now) == config.new_time,
        config.timestamp_at(first_now) == config.timestamp_at(second_now),
{
}

/// A policy in real-time mode reports the real clock, whatever its other
/// fields hold.
pub proof fn lemma_real_time_reports_clock(config: TimeConfig, real_now: u64)
    requires
        config.real_time,
    ensures
        config.timestamp_at(real_now) == real_now,
{
}

/// Real time takes priority: with both modes set, the policy reports what it
/// would report with real time alone.
pub proof fn lemma_real_time_has_priority(config: TimeConfig, real_now: u64)
    requires
        config.real_time,
        config.move_forward,
    ensures
        config.timestamp_at(real_now) == (TimeConfig {
            move_forward: false,
            ..config
        }).timestamp_at(real_now),
        config.timestamp_at(real_now) == real_now,
{
}

/// A moving policy advances at the rate of the real clock: between two
/// readings of the clock the reported time grows, modulo 2^64, by what the
/// clock grew by. This holds of any two readings, also of readings before the
/// base.
pub proof fn lemma_move_forward_keeps_pace(config: TimeConfig, earlier: u64, later: u64)
    requires
        !config.real_time,
        config.move_forward,
        earlier <= later,
    ensures
        wrap_ticks(config.timestamp_at(later) - config.timestamp_at(earlier)) == later - earlier,
        config.timestamp_at(later) == wrap_ticks(config.timestamp_at(earlier) + (later - earlier)),
{
}

/// At the moment its base is reset, a moving policy reports exactly its
/// `new_time`.
pub proof fn lemma_move_forward_starts_at_target(config: TimeConfig, message: ControlMessage, real_now: u64)
    requires
        !message.real_time,
        message.move_forward,
        message.reset_base,
    ensures
        config.after(message, real_now).timestamp_at(real_now) == message.timestamp,
{
}

/// An update replaces the target and both modes together by those of the one
/// message, and the base is either kept or set to the clock: no field of the
/// result is a blend of old and new.
pub proof fn lemma_update_is_whole(config: TimeConfig, message: ControlMessage, real_now: u64)
    ensures
        config.after(message, real_now).new_time == message.timestamp,
        config.after(message, real_now).real_time == message.real_time,
        config.after(message, real_now).move_forward == message.move_forward,
        config.after(message, real_now).base_time == if message.reset_base {
            real_now
        } else {
            config.base_time
        },
{
}

/// After any number of updates the target and both modes are those of the
/// last message alone, whatever the messages before it held.
pub proof fn lemma_last_update_wins(config: TimeConfig, messages: Seq<ControlMessage>, real_now: u64)
    requires
        messages.len() > 0,
    ensures
        config.after_all(messages, real_now).new_time == messages.last().timestamp,
        config.after_all(messages, real_now).real_time == messages.last().real_time,
        config.after_all(messages, real_now).move_forward == messages.last().move_forward,
    decreases messages.len(),
{
    let first = config.after(messages[0], real_now);
    let others = messages.skip(1);
    assert(config.after_all(messages, real_now) == first.after_all(others, real_now));
    if messages.len() > 1 {
        lemma_last_update_wins(first, others, real_now);
        assert(others.last() == messages.last());
    } else {
        assert(others.len() == 0);
        assert(first.after_all(others, real_now) == first);
    }
}

} // verus!
