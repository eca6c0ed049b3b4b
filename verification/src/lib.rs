//! Teams for a hackathon on a chat platform: the events and their teams, the
//! menus that offer them, and the workflow by which a user joins a team.
//!
//! Every function of this library is verified against its contract. What
//! talks to the platform or to the disk is left to the caller.

pub mod decimal;
pub mod events;
pub mod ids;
pub mod join;
pub mod menu;
pub mod participant;
pub mod preference;
pub mod team;
