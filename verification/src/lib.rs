//! Verified core of a menubar utility that runs shell scripts on a timer and shows
//! their JSON output as a tray title and menu.

pub mod hash;
pub mod script;
pub mod time_parse;
pub mod output_hash;
pub mod menu;
pub mod plugin;
pub mod manager;
