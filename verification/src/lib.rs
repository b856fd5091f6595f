//! Verified core of the recording web service: path and name validation,
//! HLS helpers, session timelines, channel-mix planning, permission
//! resolution, and the small state machines behind idempotent jobs.

pub mod text;
pub mod errors;
pub mod names;
pub mod session;
pub mod mix;
pub mod mix_plan;
pub mod mix_render;
pub mod silence_jobs;
pub mod silence;
pub mod session_jobs;
pub mod order;
pub mod timeline;
pub mod compose;
pub mod manifest;
pub mod progress;
pub mod hls;
pub mod permissions;
pub mod members;
pub mod voice_settings;
pub mod agent_registry;
pub mod cors;
pub mod archive;
pub mod clip_exports;
pub mod cookies;
pub mod media_cli;
pub mod ws_session;
