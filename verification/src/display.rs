//! What the display shows: the seconds since the world was last modified,
//! added to the seconds its player had played by then.

use std::time::{Duration, SystemTime};
use vstd::prelude::*;
use crate::clock::{convert_seconds_to_hh_mm_ss, hh_mm_ss};
use crate::message::Message;
use crate::stats::{seconds_of_ticks, ticks_to_seconds};

verus! {

/// The characters of a text that may be absent.
pub open spec fn text_view(text: Option<String>) -> Option<Seq<char>> {
    match text {
        Some(t) => Some(t@),
        None => None,
    }
}

/// The time to show when `elapsed` seconds have passed since a file with
/// `ticks` game ticks on its counter was written. There is none where the
/// elapsed time is unknown or the sum does not fit in 64 bits.
pub open spec fn time_text(elapsed: Option<u64>, ticks: u64) -> Option<Seq<char>> {
    match elapsed {
        Some(e) => if e + seconds_of_ticks(ticks as nat) <= u64::MAX {
            Some(hh_mm_ss(e as nat + seconds_of_ticks(ticks as nat)))
        } else {
            None
        },
        None => None,
    }
}

/// Asks the system clock how long ago `time` was, with
/// `SystemTime::elapsed`. The answer changes from call to call, so nothing
/// is promised of it. There is none where the clock stands before `time`.
#[verifier::external_body]
fn elapsed_since(time: &SystemTime) -> (span: Option<Duration>) {
    time.elapsed().ok()
}

/// The whole seconds in a span of time, from `Duration::as_secs`. Nothing
/// is promised of the number.
#[verifier::external_body]
fn whole_seconds(span: &Duration) -> (seconds: u64) {
    span.as_secs()
}

/// The whole seconds from `time` to now, by the system clock; none where
/// the clock stands before `time`.
fn seconds_since(time: &SystemTime) -> (elapsed: Option<u64>) {
    match elapsed_since(time) {
        Some(span) => Some(whole_seconds(&span)),
        None => None,
    }
}

/// Renders the time played `elapsed` seconds after a stats file with
/// `ticks` on its counter was written: the elapsed seconds plus one second
/// for every twenty ticks, as `HH:MM:SS`.
pub fn time_difference_after(elapsed: Option<u64>, ticks: u64) -> (text: Option<String>)
    ensures
        text_view(text) == time_text(elapsed, ticks),
{
    match elapsed {
        Some(e) => {
            let played: u64 = ticks_to_seconds(ticks);
            if e > u64::MAX - played {
                None
            } else {
                Some(convert_seconds_to_hh_mm_ss(e + played))
            }
        },
        None => None,
    }
}

/// Renders the time played by now, given that the counter stood at `ticks`
/// at `time`. The elapsed seconds come from the system clock, so the result
/// is the text for some elapsed time; there is none where the clock stands
/// before `time`.
pub fn get_time_difference(time: SystemTime, ticks: u64) -> (text: Option<String>)
    ensures
        exists|elapsed: Option<u64>| text_view(text) == time_text(elapsed, ticks),
{
    let elapsed = seconds_since(&time);
    let text = time_difference_after(elapsed, ticks);
    assert(text_view(text) == time_text(elapsed, ticks));
    text
}

/// What the display remembers between two updates: the last message it
/// received, and nothing else.
#[derive(Clone, Copy, Debug, PartialEq, Eq)]
pub struct DisplayState {
    /// The last message received, if any came yet.
    pub last_message: Option<Message>,
}

impl DisplayState {
    /// The state after `message` has come in: only the newest message counts.
    pub open spec fn received(self, message: Message) -> DisplayState {
        DisplayState { last_message: Some(message) }
    }

    /// The tick count to show: that of the last message's player, and zero
    /// where there is none.
    pub open spec fn ticks(self) -> u64 {
        match self.last_message {
            Some(Message { player: Some(p), .. }) => p.ticks_played,
            _ => 0,
        }
    }

    /// Whether the time shown runs on with the clock: it does once a
    /// message with a modification time has come in.
    pub open spec fn running(self) -> bool {
        self.last_message matches Some(m) && m.world is Some
    }

    /// The text to show when `elapsed` seconds have passed since the last
    /// modification: `00:00:00` before any message, the played seconds
    /// alone for a message without a modification time, else the two added.
    pub open spec fn text_at(self, elapsed: Option<u64>) -> Option<Seq<char>> {
        if self.last_message is None {
            Some(hh_mm_ss(0))
        } else if self.running() {
            time_text(elapsed, self.ticks())
        } else {
            time_text(Some(0), self.ticks())
        }
    }

    /// The state before any message: the display shows `00:00:00`.
    pub fn new() -> (state: DisplayState)
        ensures
            state.last_message is None,
            state.text_at(None) == Some(hh_mm_ss(0)),
    {
        DisplayState { last_message: None }
    }

    /// Takes in a message from the channel. It replaces whatever was there.
    pub fn receive(&mut self, message: Message)
        ensures
            *final(self) == old(self).received(message),
            final(self).last_message == Some(message),
    {
        self.last_message = Some(message);
    }

    /// The text to show `elapsed` seconds after the last modification.
    pub fn text_after(&self, elapsed: Option<u64>) -> (text: Option<String>)
        ensures
            text_view(text) == self.text_at(elapsed),
    {
        match self.last_message {
            None => Some(convert_seconds_to_hh_mm_ss(0)),
            Some(message) => {
                let ticks: u64 = match message.player {
                    Some(player) => player.ticks_played,
                    None => 0,
                };
                match message.world {
                    Some(_) => time_difference_after(elapsed, ticks),
                    None => time_difference_after(Some(0), ticks),
                }
            },
        }
    }

    /// The text to show now. The elapsed seconds come from the system
    /// clock, so the result is the text for some elapsed time.
    pub fn text(&self) -> (text: Option<String>)
        ensures
            exists|elapsed: Option<u64>| text_view(text) == self.text_at(elapsed),
    {
        let elapsed = match self.last_message {
            Some(Message { world: Some(world), .. }) => seconds_since(&world.last_modified),
            _ => Some(0),
        };
        let text = self.text_after(elapsed);
        assert(text_view(text) == self.text_at(elapsed));
        text
    }
}

/// Delivering the same message twice leaves the display as delivering it
/// once does.
pub proof fn lemma_receive_idempotent(state: DisplayState, message: Message)
    ensures
        state.received(message).received(message) == state.received(message),
        forall|elapsed: Option<u64>|
            state.received(message).received(message).text_at(elapsed) == state.received(
                message,
            ).text_at(elapsed),
{
}

/// The last message wins: what was received before it leaves no trace.
pub proof fn lemma_last_message_wins(state: DisplayState, earlier: Message, later: Message)
    ensures
        state.received(earlier).received(later) == state.received(later),
        state.received(later) == (DisplayState { last_message: None }).received(later),
{
}

} // verus!
