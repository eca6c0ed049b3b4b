//! A user who joined a team.

use crate::ids::UserId;
use vstd::prelude::*;
use vstd::std_specs::cmp::PartialEqSpecImpl;

verus! {

/// A user as a team records them: who they are and how they are shown.
#[derive(Debug)]
pub struct Participant {
    pub id: UserId,
    pub display: String,
}

/// The mathematical value of a [`Participant`].
pub struct ParticipantView {
    pub id: UserId,
    pub display: Seq<char>,
}

impl View for Participant {
    type V = ParticipantView;

    open spec fn view(&self) -> ParticipantView {
        ParticipantView { id: self.id, display: self.display@ }
    }
}

impl Participant {
    /// Records the user `id` under the name `display`.
    pub fn new(id: UserId, display: &str) -> (p: Participant)
        ensures
            p@ == (ParticipantView { id, display: display@ }),
    {
        Participant { id, display: display.to_owned() }
    }

    /// The text that stands for the participant in listings: the display name.
    pub fn to_string(&self) -> (s: String)
        ensures
            s@ == self@.display,
    {
        self.display.clone()
    }
}

impl Clone for Participant {
    fn clone(&self) -> (p: Participant)
        ensures
            p@ == self@,
    {
        Participant { id: self.id, display: self.display.clone() }
    }
}

impl PartialEq for Participant {
    /// Two records are equal when they are of the same user.
    fn eq(&self, other: &Participant) -> (r: bool) {
        self.id == other.id
    }
}

impl PartialEqSpecImpl for Participant {
    open spec fn obeys_eq_spec() -> bool {
        true
    }

    open spec fn eq_spec(&self, other: &Participant) -> bool {
        self.id == other.id
    }
}

impl Eq for Participant {

}

} // verus!
