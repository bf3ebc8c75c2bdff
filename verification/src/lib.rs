//! Played-time tracking for a Minecraft saves folder: filesystem events are
//! classified by the shape of their path, the play-time counter is taken out
//! of a stats file's text, and the time played so far is rendered as
//! `HH:MM:SS`.

pub mod clock;
pub mod display;
pub mod events;
pub mod message;
pub mod stats;

pub use clock::convert_seconds_to_hh_mm_ss;
pub use display::{get_time_difference, DisplayState};
pub use events::{classify, is_new_world, is_stat_file, Classified, EventKind};
pub use message::{message_for, Message, Player, World};
pub use stats::get_ticks_played_from_stats;
