//! A tiling window manager core: clients, workspaces, screens, layouts, and
//! the event-driven state machine that keeps them consistent.
//!
//! The library is the pure core. It never touches an X connection: every
//! event handler and user command mutates the manager state and returns the
//! list of X requests ([`data_types::XRequest`]) that a driver must submit to
//! the X server.

pub mod client;
pub mod config;
pub mod data_types;
pub mod laws;
pub mod layout;
pub mod manager;
pub mod screen;
pub mod workspace;
