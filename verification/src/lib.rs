//! Reading VRChat's log as it grows: who joins and leaves the instance, the
//! world entered, videos played, screenshots taken and invites received, and
//! what is sent for them to XSOverlay, Discord and an SDMS server.

pub mod text;
pub mod function;
pub mod log_read;
pub mod xsoverlay;
pub mod analyze;
pub mod webhook;
pub mod idms;
pub mod image;
