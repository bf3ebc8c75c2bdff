//! The message that the watcher publishes for each event it acts on.

use std::time::SystemTime;
use vstd::prelude::*;
use crate::events::Classified;
use crate::stats::{get_ticks_played_from_stats, play_time_pattern, regex_group, ticks_of_capture};

verus! {

/// A point in time as the filesystem reports it. The library carries such a
/// value through and never looks inside.
#[verifier::external_type_specification]
#[verifier::external_body]
pub struct ExSystemTime(std::time::SystemTime);

/// What a stats file says of its player.
#[derive(Clone, Copy, Debug, PartialEq, Eq)]
pub struct Player {
    /// Time played, in game ticks: twenty to the second.
    pub ticks_played: u64,
}

/// What the filesystem says of a world.
#[derive(Clone, Copy, Debug, PartialEq, Eq)]
pub struct World {
    /// When the world folder, or the stats file in it, was last modified.
    pub last_modified: SystemTime,
}

/// One update from the watcher to the display.
#[derive(Clone, Copy, Debug, PartialEq, Eq)]
pub struct Message {
    /// Present only when a stats file was read.
    pub player: Option<Player>,
    /// Present when the event carried a modification time.
    pub world: Option<World>,
}

impl Message {
    /// A message that is sent says something: at least one of its two parts
    /// is there.
    pub open spec fn wf(&self) -> bool {
        self.player is Some || self.world is Some
    }

    /// The message for a world folder that appeared at `last_modified`:
    /// nothing played yet.
    pub fn new_world(last_modified: SystemTime) -> (message: Message)
        ensures
            message == (Message { player: None, world: Some(World { last_modified }) }),
            message.wf(),
    {
        Message { player: None, world: Some(World { last_modified }) }
    }

    /// The message for a stats file that was written at `last_modified` and
    /// counts `ticks_played` ticks.
    pub fn stats_written(ticks_played: u64, last_modified: SystemTime) -> (message: Message)
        ensures
            message == (Message {
                player: Some(Player { ticks_played }),
                world: Some(World { last_modified }),
            }),
            message.wf(),
    {
        Message { player: Some(Player { ticks_played }), world: Some(World { last_modified }) }
    }
}

/// The message that an event gives rise to, from what was read for it: the
/// modification time of its path and, for a stats file, the tick count
/// found in it. An event for which either could not be had gives none.
pub open spec fn event_message(
    event: Classified,
    last_modified: Option<SystemTime>,
    ticks: Option<u64>,
) -> Option<Message> {
    match event {
        Classified::NewWorld => match last_modified {
            Some(t) => Some(Message { player: None, world: Some(World { last_modified: t }) }),
            None => None,
        },
        Classified::StatsWritten => match (last_modified, ticks) {
            (Some(t), Some(n)) => Some(
                Message {
                    player: Some(Player { ticks_played: n }),
                    world: Some(World { last_modified: t }),
                },
            ),
            _ => None,
        },
        Classified::Ignored => None,
    }
}

/// The tick count that the text of a stats file holds, where the file could
/// be read.
pub open spec fn content_ticks(content: Option<Seq<char>>) -> Option<u64> {
    match content {
        Some(text) => ticks_of_capture(regex_group(play_time_pattern(), text, 2)),
        None => None,
    }
}

/// Every message that an event gives rise to is well formed, and it carries
/// a player exactly when the event was a stats write.
pub proof fn lemma_event_message_valid(
    event: Classified,
    last_modified: Option<SystemTime>,
    ticks: Option<u64>,
)
    ensures
        event_message(event, last_modified, ticks) matches Some(m) ==> m.wf() && m.world is Some
            && (m.player is Some <==> event == Classified::StatsWritten),
{
}

/// Builds the message for a classified event from the modification time of
/// its path and the tick count found in its file. There is a message
/// exactly for a new world whose time is known, and for a stats write whose
/// time and tick count are both known.
pub fn message_from(event: Classified, last_modified: Option<SystemTime>, ticks: Option<u64>) -> (message:
    Option<Message>)
    ensures
        message == event_message(event, last_modified, ticks),
        message matches Some(m) ==> m.wf(),
{
    match event {
        Classified::NewWorld => match last_modified {
            Some(t) => Some(Message::new_world(t)),
            None => None,
        },
        Classified::StatsWritten => match last_modified {
            Some(t) => match ticks {
                Some(n) => Some(Message::stats_written(n, t)),
                None => None,
            },
            None => None,
        },
        Classified::Ignored => None,
    }
}

/// One step of the watcher: from a classified event and what could be read
/// for it, the message to publish, if any. `last_modified` is the
/// modification time of the event's path and `content` the text of the
/// file, each absent where reading failed. A stats write whose file holds
/// no play-time counter gives no message; nothing here fails.
pub fn message_for(event: Classified, last_modified: Option<SystemTime>, content: Option<&str>) -> (message:
    Option<Message>)
    ensures
        message == event_message(
            event,
            last_modified,
            content_ticks(
                match content {
                    Some(text) => Some(text@),
                    None => None,
                },
            ),
        ),
        message matches Some(m) ==> m.wf(),
{
    match event {
        Classified::StatsWritten => {
            let ticks = match content {
                Some(text) => get_ticks_played_from_stats(text),
                None => None,
            };
            message_from(event, last_modified, ticks)
        },
        _ => message_from(event, last_modified, None),
    }
}

} // verus!
