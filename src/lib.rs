//! Advertisement moderation for invite-only promotion channels: invite-link
//! extraction, the ordered check pipeline and the time-windowed history store.

pub mod config;
pub mod history;
pub mod invite;
pub mod pipeline;
