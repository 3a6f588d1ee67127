//! A low-overhead event recorder for a Flash player, and the bookkeeping that
//! goes with it: what a frame draws and where, readable payloads, cached event
//! handlers, benchmark counters and heap growth.

pub mod amf;
pub mod amf_laws;
pub mod amf_text_laws;
pub mod command_laws;
pub mod commands;
pub mod handler_laws;
pub mod handlers;
pub mod heap;
pub mod idle_pick_stats;
pub mod idle_profiler;
pub mod ieee;
pub mod json;
pub mod pick_stats;
pub mod profiler;
pub mod profiler_laws;
pub mod recorder_laws;
pub mod render;
pub mod render_laws;
pub mod render_text_laws;
pub mod screen;
pub mod screen_laws;
pub mod text;
pub mod text_laws;
