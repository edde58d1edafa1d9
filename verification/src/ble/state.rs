//! Connectivity state and the channel that carries it to its readers.
//!
//! The channel holds the single latest state that was sent to it, and counts
//! the sends. A send overwrites what was there, never waits, and wakes every
//! reader that waits for a change; a reader that looks only ever sees the
//! latest state, however many sends it missed. The channel itself is
//! `embassy_sync::watch::Watch`. This module holds its one writing end, and
//! hands out its reading ends.

use embassy_sync::blocking_mutex::raw::NoopRawMutex;
use embassy_sync::watch::{Receiver, Watch};
use vstd::prelude::*;

verus! {

/// Current state of the connection to a central.
#[derive(Debug, Clone, Copy, PartialEq, Eq)]
pub struct State {
    /// Whether a connection is active.
    pub connection_status: bool,
    /// Received signal strength, where it is known.
    pub rssi: Option<i8>,
}

impl Default for State {
    fn default() -> (state: State)
        ensures
            state == (State { connection_status: false, rssi: None }),
    {
        State { connection_status: false, rssi: None }
    }
}

/// How many readers a channel admits at a time.
pub const WATCH_BUFFER_SIZE: usize = 4;

/// What a channel holds, as mathematics: the value that was sent last, and
/// the number of values sent since the channel was made.
pub ghost struct ChannelState {
    pub latest: Option<State>,
    pub generation: nat,
}

impl ChannelState {
    /// A channel that was never sent anything.
    pub open spec fn fresh() -> ChannelState {
        ChannelState { latest: None, generation: 0 }
    }

    /// The channel after one send: the value sent replaces what was there.
    pub open spec fn sent(self, value: State) -> ChannelState {
        ChannelState { latest: Some(value), generation: self.generation + 1 }
    }

    /// Whether the channel can still count one more send.
    pub open spec fn can_send(self) -> bool {
        self.generation < u64::MAX
    }

    /// The channel after publishing a value: a send, unless the channel has
    /// counted as many sends as it can, which leaves it as it was.
    pub open spec fn published(self, value: State) -> ChannelState {
        if self.can_send() {
            self.sent(value)
        } else {
            self
        }
    }

    /// The channel after publishing a run of values, in order.
    pub open spec fn published_all(self, values: Seq<State>) -> ChannelState
        decreases values.len(),
    {
        if values.len() == 0 {
            self
        } else {
            self.published_all(values.drop_last()).published(values.last())
        }
    }
}

/// The latest value wins. After any run of sends with no read in between,
/// the channel holds exactly the value that was sent last, never an older
/// one, and has counted every one of the sends. This holds while the channel
/// can count: a channel stops taking values after `u64::MAX` sends.
pub proof fn lemma_latest_value_wins(channel: ChannelState, values: Seq<State>)
    requires
        values.len() > 0,
        channel.generation + values.len() <= u64::MAX,
    ensures
        channel.published_all(values).latest == Some(values.last()),
        channel.published_all(values).generation == channel.generation + values.len(),
    decreases values.len(),
{
    if values.len() > 1 {
        lemma_latest_value_wins(channel, values.drop_last());
    } else {
        assert(channel.published_all(values.drop_last()) == channel);
    }
}

/// The one writing end of the connectivity channel. It holds the channel,
/// an `embassy_sync::watch::Watch`, for as long as the program runs. There
/// is no second writing end, and the reading ends cannot write, so the
/// channel holds what this end sent last.
#[verifier::external_body]
pub struct BleStateTx {
    watch: &'static Watch<NoopRawMutex, State, WATCH_BUFFER_SIZE>,
}

/// A reading end of the connectivity channel, an
/// `embassy_sync::watch::Receiver`, to be awaited by the task that owns it.
#[verifier::external_body]
pub struct BleStateRx {
    pub receiver: Receiver<'static, NoopRawMutex, State, WATCH_BUFFER_SIZE>,
}

/// The value that the channel behind `tx` holds: the one sent last, if any.
pub uninterp spec fn channel_latest(tx: BleStateTx) -> Option<State>;

/// The number of values sent to the channel behind `tx` since it was made.
pub uninterp spec fn channel_generation(tx: BleStateTx) -> u64;

/// The number of sends that the reading end `rx` has marked as seen: the
/// count that its channel had reached when the reading end last took a value.
/// A reading end finds a change whenever its channel has counted more sends
/// than that.
pub uninterp spec fn reader_seen(rx: BleStateRx) -> u64;

/// `Watch::new`: a channel that holds no value and has counted no send. The
/// channel is placed on the heap and never freed, so that its reading ends may
/// outlive any scope.
#[verifier::external_body]
fn channel_open() -> (tx: BleStateTx)
    ensures
        channel_latest(tx) == None::<State>,
        channel_generation(tx) == 0,
{
    BleStateTx { watch: Box::leak(Box::new(Watch::new())) }
}

/// `Sender::send`: the value replaces what the channel held, the count of
/// sends goes up by one, and all waiting readers are woken. The count is a
/// `u64` that the channel increments unchecked, so it must not be at its
/// maximum.
#[verifier::external_body]
fn channel_send(tx: &mut BleStateTx, value: State)
    requires
        channel_generation(*old(tx)) < u64::MAX,
    ensures
        channel_latest(*final(tx)) == Some(value),
        channel_generation(*final(tx)) == channel_generation(*old(tx)) + 1,
{
    tx.watch.sender().send(value)
}

/// `Watch::try_get`: a copy of the value that the channel holds, without
/// marking it as seen by anyone.
#[verifier::external_body]
fn channel_try_get(tx: &BleStateTx) -> (value: Option<State>)
    ensures
        value == channel_latest(*tx),
{
    tx.watch.try_get()
}

/// `Watch::get_msg_id`: the number of values sent to the channel so far.
#[verifier::external_body]
fn channel_msg_id(tx: &BleStateTx) -> (id: u64)
    ensures
        id == channel_generation(*tx),
{
    tx.watch.get_msg_id()
}

/// `Watch::receiver`: a new reading end, or none where the channel already
/// has as many as it admits. A new reading end has marked no send as seen,
/// whatever the channel has counted. How many reading ends there are changes
/// whenever one is dropped, so nothing is told of when one is given.
#[verifier::external_body]
fn channel_receiver(tx: &BleStateTx) -> (reader: Option<BleStateRx>)
    ensures
        reader matches Some(rx) ==> reader_seen(rx) == 0,
{
    tx.watch.receiver().map(|receiver| BleStateRx { receiver })
}

impl BleStateRx {
    /// The number of sends that this reading end has marked as seen.
    pub open spec fn seen(&self) -> nat {
        reader_seen(*self) as nat
    }
}

impl View for BleStateTx {
    type V = ChannelState;

    open spec fn view(&self) -> ChannelState {
        ChannelState { latest: channel_latest(*self), generation: channel_generation(*self) as nat }
    }
}

impl BleStateTx {
    /// Makes a channel and returns its writing end.
    pub fn new() -> (tx: BleStateTx)
        ensures
            tx@ == ChannelState::fresh(),
    {
        channel_open()
    }

    /// Sends a value: it replaces the one before and wakes every waiting
    /// reader. Returns whether the value was sent; it is not only where the
    /// channel has counted as many sends as it can.
    pub fn send(&mut self, value: State) -> (sent: bool)
        ensures
            sent == old(self)@.can_send(),
            final(self)@ == old(self)@.published(value),
    {
        if channel_msg_id(self) < u64::MAX {
            channel_send(self, value);
            true
        } else {
            false
        }
    }

    /// Reads the latest value without waiting and without marking it as seen.
    pub fn try_get(&self) -> (value: Option<State>)
        ensures
            value == self@.latest,
    {
        channel_try_get(self)
    }

    /// Adds a reading end. A new reader has seen nothing, so it finds the
    /// current value at its first look for a change, however many sends the
    /// channel has counted. None is added where the channel already has as
    /// many readers as it admits.
    pub fn subscribe(&self) -> (reader: Option<BleStateRx>)
        ensures
            reader matches Some(rx) ==> rx.seen() == 0,
    {
        channel_receiver(self)
    }
}

/// Keeps the connectivity state and publishes every change of it.
pub struct StateController {
    state: State,
    sender: BleStateTx,
}

impl StateController {
    /// The state as the controller knows it.
    pub closed spec fn state(&self) -> State {
        self.state
    }

    /// The channel that the controller publishes to.
    pub closed spec fn channel(&self) -> ChannelState {
        self.sender@
    }

    /// Makes a channel, and publishes on it that nothing is connected.
    pub fn new() -> (controller: StateController)
        ensures
            controller.state() == (State { connection_status: false, rssi: None }),
            controller.channel() == ChannelState::fresh().sent(controller.state()),
    {
        let state = State::default();
        let mut sender = BleStateTx::new();
        sender.send(state);
        StateController { state, sender }
    }

    /// Records that a connection is active, and publishes the state.
    pub fn set_connected(&mut self)
        ensures
            final(self).state() == (State {
                connection_status: true,
                rssi: old(self).state().rssi,
            }),
            final(self).channel() == old(self).channel().published(final(self).state()),
    {
        self.state.connection_status = true;
        self.sender.send(self.state);
    }

    /// Records that no connection is active and no signal strength is known,
    /// and publishes the state.
    pub fn set_disconnected(&mut self)
        ensures
            final(self).state() == (State { connection_status: false, rssi: None }),
            final(self).channel() == old(self).channel().published(final(self).state()),
    {
        self.state.connection_status = false;
        self.state.rssi = None;
        self.sender.send(self.state);
    }

    /// Reads back the latest published state.
    pub fn try_get(&self) -> (state: Option<State>)
        ensures
            state == self.channel().latest,
    {
        self.sender.try_get()
    }

    /// Adds a reading end to the channel, if it admits one more. The new
    /// reader has seen nothing, so it finds the state that was published last
    /// at its first look for a change.
    pub fn subscribe(&self) -> (reader: Option<BleStateRx>)
        ensures
            reader matches Some(rx) ==> rx.seen() == 0,
    {
        self.sender.subscribe()
    }
}

} // verus!
