//! A desktop helper's library. For the status daemon it resolves the current
//! activity of a daily timetable, renders the status line that is published
//! for readers and decodes it again, decides when to sound the notification
//! cue, and paces the cue's streaming playback. For the launchers it reads
//! key/value lists from the JSON configuration, builds the selector's menu,
//! maps the selector's answer back to a value, and reads monitor geometries.

pub mod clock;
pub mod timetable;
pub mod status;
pub mod scheduler;
pub mod playback;
pub mod paths;
pub mod config;
pub mod menu;
pub mod geometry;
