//! Identifiers of the chat platform's objects and of teams.

use crate::decimal::{decimal, to_decimal};
use vstd::prelude::*;

verus! {

/// A user of the chat platform.
#[derive(Clone, Copy, Debug, PartialEq, Eq, Hash, Structural)]
pub struct UserId(pub u64);

/// A text or voice channel.
#[derive(Clone, Copy, Debug, PartialEq, Eq, Hash, Structural)]
pub struct ChannelId(pub u64);

/// A guild: the server in which events and channels live.
#[derive(Clone, Copy, Debug, PartialEq, Eq, Hash, Structural)]
pub struct GuildId(pub u64);

/// A scheduled event of the platform's calendar.
#[derive(Clone, Copy, Debug, PartialEq, Eq, Hash, Structural)]
pub struct ScheduledEventId(pub u64);

/// A team within one event.
#[derive(Clone, Copy, Debug, PartialEq, Eq, Hash, Structural)]
pub struct TeamId(pub u64);

impl TeamId {
    /// The identifier in decimal, as it stands in a menu.
    pub fn to_string(&self) -> (s: String)
        ensures
            s@ == decimal(self.0 as nat),
    {
        to_decimal(self.0)
    }
}

impl ScheduledEventId {
    /// The identifier in decimal, as it stands in a menu.
    pub fn to_string(&self) -> (s: String)
        ensures
            s@ == decimal(self.0 as nat),
    {
        to_decimal(self.0)
    }
}

} // verus!
