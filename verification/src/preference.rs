//! The guild's settings for the gathering: where it is announced and under
//! which category the teams' channels are made.

use crate::ids::ChannelId;
use vstd::prelude::*;

verus! {

/// The settings, each unset until it is first edited.
#[derive(Clone, Copy, Debug)]
pub struct Preference {
    hackathon_channel: Option<ChannelId>,
    hackathon_category: Option<ChannelId>,
}

/// The mathematical value of a [`Preference`].
pub struct PreferenceView {
    pub hackathon_channel: Option<ChannelId>,
    pub hackathon_category: Option<ChannelId>,
}

impl View for Preference {
    type V = PreferenceView;

    closed spec fn view(&self) -> PreferenceView {
        PreferenceView {
            hackathon_channel: self.hackathon_channel,
            hackathon_category: self.hackathon_category,
        }
    }
}

impl Preference {
    /// The settings with the given channel and category.
    pub fn new(hackathon_channel: Option<ChannelId>, hackathon_category: Option<ChannelId>) -> (p:
        Preference)
        ensures
            p@ == (PreferenceView { hackathon_channel, hackathon_category }),
    {
        Preference { hackathon_channel, hackathon_category }
    }

    /// The channel of the gathering, if it was set.
    pub fn get_hackathon_channel(&self) -> (channel: Option<ChannelId>)
        ensures
            channel == self@.hackathon_channel,
    {
        self.hackathon_channel
    }

    /// Sets the channel of the gathering; the category stays.
    pub fn edit_hackathon_channel(&mut self, new_hackathon_channel: ChannelId)
        ensures
            final(self)@ == (PreferenceView {
                hackathon_channel: Some(new_hackathon_channel),
                ..old(self)@
            }),
    {
        self.hackathon_channel = Some(new_hackathon_channel);
    }

    /// The category of the teams' channels, if it was set.
    pub fn get_hackathon_category(&self) -> (category: Option<ChannelId>)
        ensures
            category == self@.hackathon_category,
    {
        self.hackathon_category
    }

    /// Sets the category of the teams' channels; the channel stays.
    pub fn edit_hackathon_category(&mut self, new_hackathon_category: ChannelId)
        ensures
            final(self)@ == (PreferenceView {
                hackathon_category: Some(new_hackathon_category),
                ..old(self)@
            }),
    {
        self.hackathon_category = Some(new_hackathon_category);
    }
}

impl Default for Preference {
    /// The settings with nothing set.
    fn default() -> (p: Preference)
        ensures
            p@ == (PreferenceView { hackathon_channel: None, hackathon_category: None }),
    {
        Preference { hackathon_channel: None, hackathon_category: None }
    }
}

} // verus!
