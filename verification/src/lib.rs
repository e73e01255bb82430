//! Verified core of a headless remote-desktop host server.
use vstd::prelude::*;

pub mod server;
pub mod text;
pub mod pattern;
pub mod platform;
pub mod core_main;
pub mod rendezvous_mediator;
pub mod auth_2fa;
pub mod ui_interface;
pub mod keyboard;

verus! {

} // verus!
