//! The agent's end of the control channel.
//!
//! The channel keeps the bytes of a record that has not arrived whole, takes
//! in what each read of the connection gives, and applies every record that
//! is complete to the policy, in the order of arrival. A read that brings
//! bytes with which no record begins is dropped with everything kept so far.
//! Once the connection is lost the channel stays silent for good.

use crate::policy::TimeConfig;
use crate::wire::{
    encoding, framing, lemma_encoding_round_trip, lemma_record_bounds, scan, ControlMessage,
    Framing, Scan,
};
use vstd::prelude::*;
use vstd::slice::{slice_subrange, slice_to_vec};

verus! {

/// The most bytes of an unfinished record that the channel keeps. A record
/// that is still unfinished after this many bytes is dropped as malformed.
pub const PENDING_LIMIT: usize = 1024;

/// What one read of the connection gave.
#[derive(Debug)]
pub enum PollEvent {
    /// Nothing arrived within the time allowed.
    Idle,
    /// These bytes arrived. No bytes at all means that the controller has
    /// closed the connection.
    Data(Vec<u8>),
    /// The connection failed.
    Lost,
}

/// A read of the connection as contracts see it.
pub enum PollInput {
    Idle,
    Data(Seq<u8>),
    Lost,
}

impl View for PollEvent {
    type V = PollInput;

    open spec fn view(&self) -> PollInput {
        match self {
            PollEvent::Idle => PollInput::Idle,
            PollEvent::Data(bytes) => PollInput::Data(bytes@),
            PollEvent::Lost => PollInput::Lost,
        }
    }
}

/// The channel as contracts see it.
pub struct ChannelState {
    /// Bytes of a record of which the rest has yet to arrive.
    pub pending: Seq<u8>,
    /// Whether the connection is still in use.
    pub online: bool,
}

impl ChannelState {
    /// What holds of a channel at all times: what it keeps is the beginning
    /// of a record, no longer than the limit, and nothing once the
    /// connection is lost.
    pub open spec fn well_formed(self) -> bool {
        &&& self.pending.len() <= PENDING_LIMIT
        &&& framing(self.pending) is Partial
        &&& !self.online ==> self.pending.len() == 0
    }

    /// A channel on a connection that was just opened.
    pub open spec fn fresh() -> ChannelState {
        ChannelState { pending: Seq::empty(), online: true }
    }

    /// A channel whose connection is lost.
    pub open spec fn offline() -> ChannelState {
        ChannelState { pending: Seq::empty(), online: false }
    }
}

/// What taking in a stretch of bytes comes to.
pub struct Settled {
    /// The policy after every complete record was applied.
    pub policy: TimeConfig,
    /// The records that were applied, in order.
    pub applied: Seq<ControlMessage>,
    /// The unfinished record that is kept for later.
    pub rest: Seq<u8>,
    /// Whether bytes were dropped as malformed.
    pub rejected: bool,
}

/// Takes the records off the front of `bytes` one by one and applies each to
/// the policy, until what is left is the beginning of a record, which is
/// kept, or is malformed, which is dropped.
pub open spec fn settle(policy: TimeConfig, bytes: Seq<u8>, real_now: u64) -> Settled
    decreases bytes.len(),
{
    match framing(bytes) {
        Framing::Record { message, len } => {
            proof {
                lemma_record_bounds(bytes);
            }
            let later = settle(policy.after(message, real_now), bytes.skip(len as int), real_now);
            Settled { applied: seq![message] + later.applied, ..later }
        },
        Framing::Partial => if bytes.len() <= PENDING_LIMIT {
            Settled { policy, applied: Seq::empty(), rest: bytes, rejected: false }
        } else {
            Settled { policy, applied: Seq::empty(), rest: Seq::empty(), rejected: true }
        },
        Framing::Malformed => Settled {
            policy,
            applied: Seq::empty(),
            rest: Seq::empty(),
            rejected: true,
        },
    }
}

/// The outcome of one poll.
pub struct Polled {
    pub channel: ChannelState,
    pub policy: TimeConfig,
    pub applied: Seq<ControlMessage>,
    pub rejected: bool,
}

/// One poll: what becomes of the channel and of the policy when a read of
/// the connection gave `input` while the real clock reads `real_now`.
pub open spec fn poll_step(
    channel: ChannelState,
    policy: TimeConfig,
    input: PollInput,
    real_now: u64,
) -> Polled {
    let quiet = Polled { channel, policy, applied: Seq::empty(), rejected: false };
    let closed = Polled {
        channel: ChannelState::offline(),
        policy,
        applied: Seq::empty(),
        rejected: false,
    };
    if !channel.online {
        quiet
    } else {
        match input {
            PollInput::Idle => quiet,
            PollInput::Lost => closed,
            PollInput::Data(bytes) => if bytes.len() == 0 {
                closed
            } else {
                let settled = settle(policy, channel.pending + bytes, real_now);
                Polled {
                    channel: ChannelState { pending: settled.rest, online: true },
                    policy: settled.policy,
                    applied: settled.applied,
                    rejected: settled.rejected,
                }
            },
        }
    }
}

/// What a poll did.
#[derive(Debug)]
pub struct PollReport {
    /// The records that were applied, in order. Each is owed an
    /// acknowledgement.
    pub applied: Vec<ControlMessage>,
    /// Whether bytes were dropped as malformed.
    pub rejected: bool,
}

/// The agent's end of the control channel.
#[derive(Debug)]
pub struct ControlChannel {
    pending: Vec<u8>,
    online: bool,
}

impl View for ControlChannel {
    type V = ChannelState;

    closed spec fn view(&self) -> ChannelState {
        ChannelState { pending: self.pending@, online: self.online }
    }
}

impl ControlChannel {
    #[verifier::type_invariant]
    spec fn kept_in_shape(&self) -> bool {
        self@.well_formed()
    }

    /// A channel on a connection that was just opened.
    pub fn new() -> (channel: ControlChannel)
        ensures
            channel@ == ChannelState::fresh(),
    {
        ControlChannel { pending: Vec::new(), online: true }
    }

    /// Whether the connection is still to be read.
    pub fn is_online(&self) -> (online: bool)
        ensures
            online == self@.online,
    {
        self.online
    }

    /// The bytes kept of a record that has not arrived whole.
    pub fn pending(&self) -> (bytes: &[u8])
        ensures
            bytes@ == self@.pending,
            self@.well_formed(),
    {
        proof {
            use_type_invariant(self);
        }
        self.pending.as_slice()
    }

    /// Gives the connection up, after a write on it failed.
    pub fn connection_lost(&mut self)
        ensures
            final(self)@ == ChannelState::offline(),
    {
        self.pending = Vec::new();
        self.online = false;
    }

    /// Takes in what one read of the connection gave and applies every
    /// complete record to `store`.
    pub fn poll_and_apply(&mut self, store: &mut TimeConfig, event: PollEvent, real_now: u64) -> (report:
        PollReport)
        ensures
            final(self)@ == poll_step(old(self)@, *old(store), event@, real_now).channel,
            *final(store) == poll_step(old(self)@, *old(store), event@, real_now).policy,
            report.applied@ == poll_step(old(self)@, *old(store), event@, real_now).applied,
            report.rejected == poll_step(old(self)@, *old(store), event@, real_now).rejected,
    {
        let mut report = PollReport { applied: Vec::new(), rejected: false };
        if !self.online {
            return report;
        }
        let mut bytes = match event {
            PollEvent::Idle => {
                return report;
            },
            PollEvent::Lost => {
                self.connection_lost();
                return report;
            },
            PollEvent::Data(bytes) => bytes,
        };
        if bytes.len() == 0 {
            self.connection_lost();
            return report;
        }
        let mut buffer = slice_to_vec(self.pending.as_slice());
        self.pending = Vec::new();
        buffer.append(&mut bytes);
        let ghost all = buffer@;
        let ghost goal = settle(*old(store), all, real_now);
        let mut pos: usize = 0;
        assert(all.skip(0) == all);
        assert(report.applied@ + goal.applied == goal.applied);
        loop
            invariant_except_break
                pos <= buffer@.len(),
                !report.rejected,
                goal.policy == settle(*store, all.skip(pos as int), real_now).policy,
                goal.applied == report.applied@ + settle(
                    *store,
                    all.skip(pos as int),
                    real_now,
                ).applied,
                goal.rest == settle(*store, all.skip(pos as int), real_now).rest,
                goal.rejected == settle(*store, all.skip(pos as int), real_now).rejected,
            invariant
                buffer@ == all,
                self.online,
                self.pending@.len() == 0,
            ensures
                pos <= buffer@.len(),
                buffer@.len() - pos <= PENDING_LIMIT,
                framing(all.skip(pos as int)) is Partial,
                goal.policy == *store,
                goal.applied == report.applied@,
                goal.rest == all.skip(pos as int),
                goal.rejected == report.rejected,
            decreases buffer@.len() - pos,
        {
            let tail = slice_subrange(buffer.as_slice(), pos, buffer.len());
            assert(tail@ == all.skip(pos as int));
            proof {
                lemma_record_bounds(tail@);
            }
            match scan(tail) {
                Scan::Complete { message, used } => {
                    assert(all.skip(pos as int).skip(used as int) == all.skip(pos + used));
                    store.update_settings(
                        message.timestamp,
                        message.real_time,
                        message.move_forward,
                        message.reset_base,
                        real_now,
                    );
                    report.applied.push(message);
                    pos = pos + used;
                },
                Scan::Incomplete => {
                    if tail.len() > PENDING_LIMIT {
                        report.rejected = true;
                        pos = buffer.len();
                        assert(all.skip(pos as int) =~= Seq::<u8>::empty());
                    }
                    break ;
                },
                Scan::Malformed => {
                    report.rejected = true;
                    pos = buffer.len();
                    assert(all.skip(pos as int) =~= Seq::<u8>::empty());
                    break ;
                },
            }
        }
        self.pending = buffer.split_off(pos);
        report
    }
}

/// What one read of the connection gave, and the reading of the real clock
/// at which it was taken in.
pub struct Arrival {
    pub input: PollInput,
    pub real_now: u64,
}

/// The channel and the policy after a series of polls, first to last.
pub open spec fn poll_run(channel: ChannelState, policy: TimeConfig, reads: Seq<Arrival>) -> (
    ChannelState,
    TimeConfig,
)
    decreases reads.len(),
{
    if reads.len() == 0 {
        (channel, policy)
    } else {
        let first = poll_step(channel, policy, reads[0].input, reads[0].real_now);
        poll_run(first.channel, first.policy, reads.skip(1))
    }
}

/// The policy changes by whole messages and by nothing else: after any
/// stretch of bytes was taken in, it is the policy that results from applying
/// the messages that were read, in order.
pub proof fn lemma_settle_applies_whole_messages(policy: TimeConfig, bytes: Seq<u8>, real_now: u64)
    ensures
        settle(policy, bytes, real_now).policy == policy.after_all(
            settle(policy, bytes, real_now).applied,
            real_now,
        ),
    decreases bytes.len(),
{
    if let Framing::Record { message, len } = framing(bytes) {
        lemma_record_bounds(bytes);
        let next = policy.after(message, real_now);
        let later = settle(next, bytes.skip(len as int), real_now);
        lemma_settle_applies_whole_messages(next, bytes.skip(len as int), real_now);
        let applied = seq![message] + later.applied;
        assert(applied[0] == message);
        assert(applied.skip(1) =~= later.applied);
    }
}

/// What is kept after a stretch of bytes was taken in is the beginning of a
/// record and no longer than the limit.
pub proof fn lemma_settle_keeps_partial(policy: TimeConfig, bytes: Seq<u8>, real_now: u64)
    ensures
        framing(settle(policy, bytes, real_now).rest) is Partial,
        settle(policy, bytes, real_now).rest.len() <= PENDING_LIMIT,
    decreases bytes.len(),
{
    if let Framing::Record { message, len } = framing(bytes) {
        lemma_record_bounds(bytes);
        lemma_settle_keeps_partial(policy.after(message, real_now), bytes.skip(len as int), real_now);
    }
}

/// A poll leaves a channel as it has to be, and changes the policy by whole
/// messages only: by those it reports as applied, in order.
pub proof fn lemma_poll_keeps_well_formed(
    channel: ChannelState,
    policy: TimeConfig,
    input: PollInput,
    real_now: u64,
)
    requires
        channel.well_formed(),
    ensures
        poll_step(channel, policy, input, real_now).channel.well_formed(),
        poll_step(channel, policy, input, real_now).policy == policy.after_all(
            poll_step(channel, policy, input, real_now).applied,
            real_now,
        ),
{
    if let PollInput::Data(bytes) = input {
        lemma_settle_keeps_partial(policy, channel.pending + bytes, real_now);
        lemma_settle_applies_whole_messages(policy, channel.pending + bytes, real_now);
    }
}

/// A read that brings bytes with which no record begins changes nothing of
/// the policy. The bytes are dropped, the poll says so, and the channel is
/// as it was when the connection was opened.
pub proof fn lemma_malformed_read_is_ignored(
    channel: ChannelState,
    policy: TimeConfig,
    bytes: Seq<u8>,
    real_now: u64,
)
    requires
        channel.online,
        bytes.len() > 0,
        framing(channel.pending + bytes) is Malformed,
    ensures
        poll_step(channel, policy, PollInput::Data(bytes), real_now) == (Polled {
            channel: ChannelState::fresh(),
            policy,
            applied: Seq::empty(),
            rejected: true,
        }),
{
}

/// A malformed read does not stop the channel: the next read that brings a
/// message as the controller writes it applies that message, and nothing
/// else.
pub proof fn lemma_poll_resumes_after_malformed(
    channel: ChannelState,
    policy: TimeConfig,
    bytes: Seq<u8>,
    real_now: u64,
    message: ControlMessage,
    later_now: u64,
)
    requires
        channel.online,
        bytes.len() > 0,
        framing(channel.pending + bytes) is Malformed,
    ensures
        ({
            let first = poll_step(channel, policy, PollInput::Data(bytes), real_now);
            let second = poll_step(
                first.channel,
                first.policy,
                PollInput::Data(encoding(message)),
                later_now,
            );
            &&& first.policy == policy
            &&& second == (Polled {
                channel: ChannelState::fresh(),
                policy: policy.after(message, later_now),
                applied: seq![message],
                rejected: false,
            })
        }),
{
    lemma_fresh_channel_applies(policy, message, later_now);
}

/// A channel that keeps nothing applies a message that arrives as the
/// controller writes it, and keeps nothing afterwards.
pub proof fn lemma_fresh_channel_applies(policy: TimeConfig, message: ControlMessage, real_now: u64)
    ensures
        poll_step(ChannelState::fresh(), policy, PollInput::Data(encoding(message)), real_now) == (
        Polled {
            channel: ChannelState::fresh(),
            policy: policy.after(message, real_now),
            applied: seq![message],
            rejected: false,
        }),
{
    let record = encoding(message);
    let bytes = Seq::<u8>::empty() + record;
    lemma_encoding_round_trip(message, Seq::empty());
    assert(record + Seq::<u8>::empty() =~= record);
    assert(bytes =~= record);
    let rest = bytes.skip(record.len() as int);
    assert(rest =~= Seq::<u8>::empty());
    let next = policy.after(message, real_now);
    assert(settle(next, rest, real_now) == (Settled {
        policy: next,
        applied: Seq::empty(),
        rest: Seq::empty(),
        rejected: false,
    }));
    assert(seq![message] + Seq::<ControlMessage>::empty() =~= seq![message]);
}

/// A record that arrives in two pieces is applied when the second piece
/// arrives, just as if it had arrived in one: while what has arrived is only
/// the beginning of a record, within the limit, nothing is applied and
/// nothing is lost.
pub proof fn lemma_split_delivery(
    channel: ChannelState,
    policy: TimeConfig,
    first: Seq<u8>,
    first_now: u64,
    second: Seq<u8>,
    second_now: u64,
)
    requires
        channel.online,
        first.len() > 0,
        second.len() > 0,
        framing(channel.pending + first) is Partial,
        channel.pending.len() + first.len() <= PENDING_LIMIT,
    ensures
        ({
            let waiting = poll_step(channel, policy, PollInput::Data(first), first_now);
            &&& waiting.policy == policy
            &&& waiting.applied.len() == 0
            &&& !waiting.rejected
            &&& poll_step(waiting.channel, waiting.policy, PollInput::Data(second), second_now)
                == poll_step(channel, policy, PollInput::Data(first + second), second_now)
        }),
{
    assert((channel.pending + first) + second =~= channel.pending + (first + second));
}

/// The connection is lost by a read that fails and by a read that brings no
/// bytes, which is how the controller's closing shows. Either leaves the
/// policy as it is, applied or not by then, and it stays so through every
/// later poll.
pub proof fn lemma_connection_loss_keeps_policy(
    channel: ChannelState,
    policy: TimeConfig,
    input: PollInput,
    real_now: u64,
    reads: Seq<Arrival>,
)
    requires
        input is Lost || input == PollInput::Data(Seq::empty()),
    ensures
        poll_step(channel, policy, input, real_now).policy == policy,
        !poll_step(channel, policy, input, real_now).channel.online,
        poll_run(
            poll_step(channel, policy, input, real_now).channel,
            poll_step(channel, policy, input, real_now).policy,
            reads,
        ).1 == policy,
{
    let after = poll_step(channel, policy, input, real_now);
    lemma_offline_is_final(after.channel, policy, reads);
}

/// A channel that is not online takes nothing in.
pub proof fn lemma_offline_is_final(channel: ChannelState, policy: TimeConfig, reads: Seq<Arrival>)
    requires
        !channel.online,
    ensures
        poll_run(channel, policy, reads) == (channel, policy),
    decreases reads.len(),
{
    if reads.len() > 0 {
        lemma_offline_is_final(channel, policy, reads.skip(1));
    }
}

} // verus!
