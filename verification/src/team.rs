//! Teams and the collection of teams under one event.

use crate::decimal::{decimal, lemma_parse_inverts_decimal, to_decimal};
use crate::ids::{ChannelId, TeamId, UserId};
use crate::menu::{menu_of, options_view, select_menu, SelectOption, SelectOptionView};
use crate::participant::{Participant, ParticipantView};
use serenity::builder::CreateSelectMenu;
use std::collections::HashMap;
use vstd::prelude::*;
use vstd::std_specs::hash::spec_keys_iter;
use vstd::std_specs::iter::IteratorSpec;
use vstd::string::*;

verus! {

broadcast use vstd::std_specs::hash::group_hash_axioms;

/// A named group of participants with its two channels.
#[derive(Debug)]
pub struct Team {
    pub name: String,
    pub description: String,
    pub members: Vec<Participant>,
    pub text_channel: ChannelId,
    pub vocal_channel: ChannelId,
}

/// The mathematical value of a [`Team`].
pub struct TeamView {
    pub name: Seq<char>,
    pub description: Seq<char>,
    pub members: Seq<ParticipantView>,
    pub text_channel: ChannelId,
    pub vocal_channel: ChannelId,
}

/// The values of a run of participants, in order.
pub open spec fn members_view(members: Seq<Participant>) -> Seq<ParticipantView> {
    members.map_values(|p: Participant| p@)
}

impl View for Team {
    type V = TeamView;

    open spec fn view(&self) -> TeamView {
        TeamView {
            name: self.name@,
            description: self.description@,
            members: members_view(self.members@),
            text_channel: self.text_channel,
            vocal_channel: self.vocal_channel,
        }
    }
}

impl TeamView {
    /// Whether `user` is among the members.
    pub open spec fn contains(self, user: UserId) -> bool {
        exists|i: int| 0 <= i < self.members.len() && (#[trigger] self.members[i]).id == user
    }

    /// Whether no user is a member twice.
    pub open spec fn distinct_members(self) -> bool {
        forall|i: int, j: int|
            0 <= i < j < self.members.len() ==> (#[trigger] self.members[i]).id != (
            #[trigger] self.members[j]).id
    }

    /// The team with `p` added at the end of its members.
    pub open spec fn with_member(self, p: ParticipantView) -> TeamView {
        TeamView { members: self.members.push(p), ..self }
    }

    /// The team without any member that is `user`.
    pub open spec fn without_user(self, user: UserId) -> TeamView {
        TeamView { members: self.members.filter(|p: ParticipantView| p.id != user), ..self }
    }

    /// The line that announces the team: `**name**: description`.
    pub open spec fn header(self) -> Seq<char> {
        "**"@ + self.name + "**: "@ + self.description
    }

    /// The team in a listing: its header on one line, its members on the
    /// next.
    pub open spec fn listing(self) -> Seq<char> {
        self.header() + "\n"@ + "Participants: "@ + roster(self.members) + "\n"@
    }
}

/// The display names of `members`, each followed by a space.
pub open spec fn roster(members: Seq<ParticipantView>) -> Seq<char>
    decreases members.len(),
{
    if members.len() == 0 {
        Seq::empty()
    } else {
        roster(members.drop_last()) + members.last().display + " "@
    }
}

/// Copies a run of participants.
fn copy_members(members: &Vec<Participant>) -> (copy: Vec<Participant>)
    ensures
        members_view(copy@) == members_view(members@),
{
    let mut copy: Vec<Participant> = Vec::new();
    let mut i: usize = 0;
    while i < members.len()
        invariant
            i <= members.len(),
            copy.len() == i,
            forall|j: int| 0 <= j < i ==> copy@[j]@ == members@[j]@,
        decreases members.len() - i,
    {
        copy.push(members[i].clone());
        i = i + 1;
    }
    assert(members_view(copy@) =~= members_view(members@));
    copy
}

impl Team {
    /// A team with the given name, description, members and channels.
    pub fn new(
        name: &str,
        description: &str,
        members: Vec<Participant>,
        text_channel: ChannelId,
        vocal_channel: ChannelId,
    ) -> (team: Team)
        ensures
            team@ == (TeamView {
                name: name@,
                description: description@,
                members: members_view(members@),
                text_channel,
                vocal_channel,
            }),
    {
        Team {
            name: name.to_owned(),
            description: description.to_owned(),
            members,
            text_channel,
            vocal_channel,
        }
    }

    /// Whether `user_id` is a member of the team.
    pub fn contains(&self, user_id: UserId) -> (found: bool)
        ensures
            found == self@.contains(user_id),
    {
        let mut i: usize = 0;
        while i < self.members.len()
            invariant
                i <= self.members.len(),
                forall|j: int| 0 <= j < i ==> self@.members[j].id != user_id,
            decreases self.members.len() - i,
        {
            if self.members[i].id == user_id {
                assert(self@.members[i as int].id == user_id);
                return true;
            }
            i = i + 1;
        }
        false
    }

    /// The team without any member that is `user_id`; the others keep their
    /// order.
    pub fn without(self, user_id: UserId) -> (team: Team)
        ensures
            team@ == self@.without_user(user_id),
    {
        let mut kept: Vec<Participant> = Vec::new();
        let mut i: usize = 0;
        let ghost keep = |p: ParticipantView| p.id != user_id;
        while i < self.members.len()
            invariant
                i <= self.members.len(),
                keep == |p: ParticipantView| p.id != user_id,
                members_view(kept@) == self@.members.take(i as int).filter(keep),
            decreases self.members.len() - i,
        {
            let ghost seen = self@.members.take(i as int);
            proof {
                assert(self@.members.take(i + 1) =~= seen.push(self@.members[i as int]));
                seen.lemma_filter_push(self@.members[i as int], keep);
            }
            if self.members[i].id != user_id {
                let ghost before = kept@;
                kept.push(self.members[i].clone());
                assert(members_view(kept@) =~= members_view(before).push(self@.members[i as int]));
            }
            i = i + 1;
        }
        assert(self@.members.take(i as int) =~= self@.members);
        Team {
            name: self.name,
            description: self.description,
            members: kept,
            text_channel: self.text_channel,
            vocal_channel: self.vocal_channel,
        }
    }

    /// The team as it stands in a listing: its header on one line, then
    /// `Participants: ` and each member's name followed by a space.
    pub fn listing(&self) -> (s: String)
        ensures
            s@ == self@.listing(),
    {
        let mut names = String::new();
        let mut i: usize = 0;
        while i < self.members.len()
            invariant
                i <= self.members.len(),
                names@ == roster(self@.members.take(i as int)),
            decreases self.members.len() - i,
        {
            assert(self@.members.take(i + 1).drop_last() =~= self@.members.take(i as int));
            names.append(self.members[i].display.as_str());
            names.append(" ");
            i = i + 1;
        }
        assert(self@.members.take(i as int) =~= self@.members);
        let mut s = self.to_string();
        s.append("\n");
        s.append("Participants: ");
        s.append(names.as_str());
        s.append("\n");
        s
    }

    /// The line that announces the team.
    pub fn to_string(&self) -> (s: String)
        ensures
            s@ == self@.header(),
    {
        let mut s = "**".to_owned();
        s.append(self.name.as_str());
        s.append("**: ");
        s.append(self.description.as_str());
        s
    }
}

impl Clone for Team {
    fn clone(&self) -> (team: Team)
        ensures
            team@ == self@,
    {
        Team {
            name: self.name.clone(),
            description: self.description.clone(),
            members: copy_members(&self.members),
            text_channel: self.text_channel,
            vocal_channel: self.vocal_channel,
        }
    }
}

/// Why a participant could not be added to a team.
#[derive(Clone, Copy, Debug, PartialEq, Eq, Structural)]
pub enum TeamError {
    /// The team already has as many members as the collection allows.
    CapacityReached,
}

impl TeamError {
    /// The sentence shown to the user.
    pub fn message(&self) -> (s: &'static str)
        ensures
            s@ == "L'équipe a atteint sa capacité maximale"@,
    {
        "L'équipe a atteint sa capacité maximale"
    }

    /// The sentence shown to the user, as owned text.
    pub fn to_string(&self) -> (s: String)
        ensures
            s@ == "L'équipe a atteint sa capacité maximale"@,
    {
        self.message().to_owned()
    }
}

/// The teams of one event, each under its identifier, with an optional limit
/// on the members of any one team.
#[derive(Debug)]
pub struct Teams {
    teams: HashMap<u64, Team>,
    capacity: Option<u32>,
}

/// The mathematical value of a [`Teams`] collection.
pub struct TeamsView {
    /// The teams, keyed by the number of their identifier.
    pub entries: Map<u64, TeamView>,
    /// The most members a team may have, where there is a limit.
    pub capacity: Option<u32>,
}

impl TeamsView {
    /// Whether a team with `members` members has no room left.
    pub open spec fn full_at(self, members: nat) -> bool {
        self.capacity matches Some(c) && members >= c
    }

    /// Whether adding a participant to team `id` is refused: the team exists
    /// and is full.
    pub open spec fn rejects(self, id: u64) -> bool {
        self.entries.contains_key(id) && self.full_at(self.entries[id].members.len())
    }

    /// Whether every team is within the limit.
    pub open spec fn within_capacity(self) -> bool {
        forall|id: u64| #[trigger]
            self.entries.contains_key(id) ==> (self.capacity matches Some(c)
                ==> self.entries[id].members.len() <= c)
    }

    /// The identifiers of the teams that `user` is not a member of; of all
    /// teams where `user` is `None`.
    pub open spec fn open_to(self, user: Option<UserId>) -> Set<u64> {
        Set::new(
            |id: u64|
                self.entries.contains_key(id) && (user matches Some(u) ==> !self.entries[id].contains(
                    u,
                )),
        )
    }

    /// The choice that stands for team `id` in a menu: its name as the label,
    /// the decimal text of `id` as the value.
    pub open spec fn option_of(self, id: u64) -> SelectOptionView {
        SelectOptionView { label: self.entries[id].name, value: decimal(id as nat) }
    }

    /// The listings of the teams `order`, one after the other.
    pub open spec fn listings(self, order: Seq<u64>) -> Seq<char>
        decreases order.len(),
    {
        if order.len() == 0 {
            Seq::empty()
        } else {
            self.listings(order.drop_last()) + self.entries[order.last()].listing()
        }
    }

    /// Whether `teams` holds the teams `order` with their identifiers, in
    /// that order.
    pub open spec fn holds(self, order: Seq<u64>, teams: Seq<(TeamId, Team)>) -> bool {
        &&& teams.len() == order.len()
        &&& forall|i: int|
            0 <= i < order.len() ==> (#[trigger] teams[i]).0.0 == order[i] && teams[i].1@
                == self.entries[order[i]]
    }

    /// Whether `options` offers the teams `order`, in that order.
    pub open spec fn offers(self, order: Seq<u64>, options: Seq<SelectOptionView>) -> bool {
        options == order.map_values(|id: u64| self.option_of(id))
    }

    /// Whether `options` offers each team of `shown` once, and nothing else.
    /// The order is left open.
    pub open spec fn lists(self, options: Seq<SelectOptionView>, shown: Set<u64>) -> bool {
        exists|order: Seq<u64>|
            order.no_duplicates() && order.to_set() == shown && #[trigger] self.offers(
                order,
                options,
            )
    }

    /// Whether `menu` is a select menu with the custom id `team` that offers
    /// each team of `shown` once, and nothing else.
    pub open spec fn is_menu(self, menu: CreateSelectMenu, shown: Set<u64>) -> bool {
        exists|options: Seq<SelectOptionView>| #[trigger]
            self.lists(options, shown) && menu == menu_of("team"@, options)
    }

    /// The collection with `team` added under the number of teams held.
    pub open spec fn add_team(self, team: TeamView) -> TeamsView {
        TeamsView { entries: self.entries.insert(self.entries.len() as u64, team), ..self }
    }

    /// The collection after an attempt to add `p` to team `id`: unchanged
    /// where the team is missing or full, else with `p` at the end of the
    /// team's members.
    pub open spec fn add_participant(self, id: u64, p: ParticipantView) -> TeamsView {
        if self.entries.contains_key(id) && !self.rejects(id) {
            TeamsView { entries: self.entries.insert(id, self.entries[id].with_member(p)), ..self }
        } else {
            self
        }
    }

    /// The collection after `user` left team `id`: unchanged where the team
    /// is missing.
    pub open spec fn remove_participant(self, id: u64, user: UserId) -> TeamsView {
        if self.entries.contains_key(id) {
            TeamsView { entries: self.entries.insert(id, self.entries[id].without_user(user)), ..self }
        } else {
            self
        }
    }
}

impl View for Teams {
    type V = TeamsView;

    closed spec fn view(&self) -> TeamsView {
        TeamsView { entries: self.teams@.map_values(|t: Team| t@), capacity: self.capacity }
    }
}

impl Teams {
    /// An empty collection whose teams may have at most `capacity` members
    /// each, or any number where `capacity` is `None`.
    pub fn new(capacity: Option<u32>) -> (teams: Teams)
        ensures
            teams@.entries == Map::<u64, TeamView>::empty(),
            teams@.capacity == capacity,
    {
        let teams = Teams { teams: HashMap::new(), capacity };
        assert(teams@.entries =~= Map::<u64, TeamView>::empty());
        teams
    }

    /// The collection with the limit `capacity` that holds the teams of
    /// `teams` under their identifiers; where an identifier occurs twice,
    /// the later team stands.
    pub fn restore(capacity: Option<u32>, teams: Vec<(TeamId, Team)>) -> (restored: Teams)
        ensures
            restored@.entries == entries_of(teams@),
            restored@.capacity == capacity,
    {
        let mut map: HashMap<u64, Team> = HashMap::new();
        let mut teams = teams;
        let ghost all = teams@;
        let mut rest: Vec<(TeamId, Team)> = Vec::new();
        // Teams are taken from the end, so they are put back in order first.
        while teams.len() > 0
            invariant
                teams@.len() + rest@.len() == all.len(),
                forall|i: int| 0 <= i < teams@.len() ==> teams@[i] == all[i],
                forall|i: int|
                    0 <= i < rest@.len() ==> rest@[i] == all[all.len() - 1 - i],
            decreases teams.len(),
        {
            let last = teams.pop().unwrap();
            rest.push(last);
        }
        let ghost mut done: Seq<(TeamId, Team)> = Seq::empty();
        while rest.len() > 0
            invariant
                done.len() + rest@.len() == all.len(),
                done == all.take(done.len() as int),
                forall|i: int|
                    0 <= i < rest@.len() ==> rest@[i] == all[all.len() - 1 - i],
                map@.map_values(|t: Team| t@) == entries_of(done),
            decreases rest.len(),
        {
            let (id, team) = rest.pop().unwrap();
            proof {
                let n = done.len() as int;
                assert(all.take(n + 1).drop_last() =~= all.take(n));
                done = all.take(n + 1);
            }
            map.insert(id.0, team);
            assert(map@.map_values(|t: Team| t@) =~= entries_of(done));
        }
        assert(done =~= all);
        Teams { teams: map, capacity }
    }

    /// The limit on the members of a team, if there is one.
    pub fn capacity(&self) -> (capacity: Option<u32>)
        ensures
            capacity == self@.capacity,
    {
        self.capacity
    }

    /// The collection always holds finitely many teams.
    pub proof fn lemma_finite(&self)
        ensures
            self@.entries.dom().finite(),
    {
        assert(self@.entries.dom() =~= self.teams@.dom());
    }

    /// Adds `team` under the identifier that is the number of teams held. A
    /// team already under that identifier is replaced.
    pub fn add_team(&mut self, team: Team)
        ensures
            final(self)@ == old(self)@.add_team(team@),
    {
        assert(self@.entries.dom() =~= self.teams@.dom());
        let id = self.teams.len() as u64;
        self.teams.insert(id, team);
        assert(self@.entries =~= old(self)@.entries.insert(id, team@));
    }

    /// A copy of the team under `id`, if there is one.
    pub fn get_team(&self, id: &TeamId) -> (team: Option<Team>)
        ensures
            team is Some == self@.entries.contains_key(id.0),
            team matches Some(t) ==> t@ == self@.entries[id.0],
    {
        match self.teams.get(&id.0) {
            Some(team) => Some(team.clone()),
            None => None,
        }
    }

    /// The number of teams.
    pub fn len(&self) -> (n: usize)
        ensures
            n == self@.entries.len(),
    {
        assert(self@.entries.dom() =~= self.teams@.dom());
        self.teams.len()
    }

    /// Whether there is no team.
    pub fn is_empty(&self) -> (empty: bool)
        ensures
            empty == (self@.entries.len() == 0),
    {
        self.len() == 0
    }

    /// Removes the team under `team_id` and returns it.
    pub fn delete(&mut self, team_id: &TeamId) -> (team: Option<Team>)
        ensures
            final(self)@.entries == old(self)@.entries.remove(team_id.0),
            final(self)@.capacity == old(self)@.capacity,
            team is Some == old(self)@.entries.contains_key(team_id.0),
            team matches Some(t) ==> t@ == old(self)@.entries[team_id.0],
    {
        let team = self.teams.remove(&team_id.0);
        assert(self@.entries =~= old(self)@.entries.remove(team_id.0));
        team
    }

    /// The identifiers of the teams that `without` is not a member of (of all
    /// teams where `without` is `None`), each once.
    fn ids_open_to(&self, without: Option<UserId>) -> (ids: Vec<u64>)
        ensures
            ids@.no_duplicates(),
            ids@.to_set() == self@.open_to(without),
    {
        let mut ids: Vec<u64> = Vec::new();
        let ghost all = spec_keys_iter(&self.teams).remaining().unref();
        for k in it: self.teams.keys()
            invariant
                it.seq().unref() == all,
                all.no_duplicates(),
                all.to_set() == self.teams@.dom(),
                ids@.no_duplicates(),
                forall|j: int|
                    0 <= j < ids@.len() ==> self@.open_to(without).contains(#[trigger] ids@[j])
                        && all.take(it.index() as int).contains(ids@[j]),
                forall|j: int|
                    0 <= j < it.index() && self@.open_to(without).contains(#[trigger] all[j])
                        ==> ids@.contains(all[j]),
        {
            let ghost at = it.index() as int;
            let ghost before = ids@;
            assert(all[at] == *k);
            assert(all.to_set().contains(all[at]));
            let team = self.teams.get(k).unwrap();
            let hidden = match without {
                Some(user) => team.contains(user),
                None => false,
            };
            assert(hidden == !self@.open_to(without).contains(*k));
            if !hidden {
                ids.push(*k);
                assert(ids@[before.len() as int] == *k);
                assert(!before.contains(*k)) by {
                    if before.contains(*k) {
                        let j = choose|j: int| 0 <= j < before.len() && before[j] == *k;
                        assert(all.take(at).contains(before[j]));
                    }
                }
                assert forall|j: int| 0 <= j < at + 1 && self@.open_to(without).contains(
                    #[trigger] all[j],
                ) implies ids@.contains(all[j]) by {
                    if j < at {
                        let i = choose|i: int| 0 <= i < before.len() && before[i] == all[j];
                        assert(ids@[i] == all[j]);
                    }
                }
            }
            assert forall|j: int| 0 <= j < ids@.len() implies all.take(at + 1).contains(
                #[trigger] ids@[j],
            ) by {
                if j < before.len() {
                    let i = choose|i: int| 0 <= i < at && all.take(at)[i] == before[j];
                    assert(all.take(at + 1)[i] == ids@[j]);
                } else {
                    assert(all.take(at + 1)[at] == ids@[j]);
                }
            }
        }
        assert(ids@.to_set() =~= self@.open_to(without)) by {
            assert forall|id: u64| self@.open_to(without).contains(id) implies ids@.contains(
                id,
            ) by {
                assert(all.to_set().contains(id));
                let j = choose|j: int| 0 <= j < all.len() && all[j] == id;
                assert(ids@.contains(all[j]));
            }
        }
        ids
    }

    /// The choices that stand for the teams `ids`, in that order.
    fn options_of(&self, ids: &Vec<u64>) -> (options: Vec<SelectOption>)
        requires
            forall|j: int| 0 <= j < ids@.len() ==> self@.entries.contains_key(#[trigger] ids@[j]),
        ensures
            self@.offers(ids@, options_view(options@)),
    {
        let mut options: Vec<SelectOption> = Vec::new();
        let mut i: usize = 0;
        while i < ids.len()
            invariant
                i <= ids.len(),
                options.len() == i,
                forall|j: int|
                    0 <= j < ids@.len() ==> self@.entries.contains_key(#[trigger] ids@[j]),
                forall|j: int| 0 <= j < i ==> (#[trigger] options@[j])@ == self@.option_of(ids@[j]),
            decreases ids.len() - i,
        {
            let id = ids[i];
            assert(self@.entries.contains_key(ids@[i as int]));
            let team = self.teams.get(&id).unwrap();
            options.push(SelectOption { label: team.name.clone(), value: to_decimal(id) });
            i = i + 1;
        }
        assert(options_view(options@) =~= ids@.map_values(|id: u64| self@.option_of(id)));
        options
    }

    /// Every team with its identifier, each once. The order is that in which
    /// the collection hands the teams out.
    pub fn iter(&self) -> (teams: Vec<(TeamId, Team)>)
        ensures
            exists|order: Seq<u64>|
                order.no_duplicates() && order.to_set() == self@.entries.dom()
                    && #[trigger] self@.holds(order, teams@),
    {
        let ids = self.ids_open_to(None);
        assert(self@.open_to(None) =~= self@.entries.dom());
        let mut teams: Vec<(TeamId, Team)> = Vec::new();
        let mut i: usize = 0;
        while i < ids.len()
            invariant
                i <= ids.len(),
                ids@.to_set() == self@.entries.dom(),
                self@.holds(ids@.take(i as int), teams@),
            decreases ids.len() - i,
        {
            let id = ids[i];
            assert(ids@.to_set().contains(ids@[i as int]));
            let team = self.teams.get(&id).unwrap();
            teams.push((TeamId(id), team.clone()));
            i = i + 1;
        }
        assert(ids@.take(i as int) =~= ids@);
        teams
    }

    /// The listing of every team: for each, its header on one line and
    /// `Participants: ` with the members' names on the next. The order is
    /// that in which the collection hands the teams out.
    pub fn to_string(&self) -> (s: String)
        ensures
            exists|order: Seq<u64>|
                order.no_duplicates() && order.to_set() == self@.entries.dom() && s@
                    == #[trigger] self@.listings(order),
    {
        let ids = self.ids_open_to(None);
        assert(self@.open_to(None) =~= self@.entries.dom());
        let mut s = String::new();
        let mut i: usize = 0;
        while i < ids.len()
            invariant
                i <= ids.len(),
                ids@.to_set() == self@.entries.dom(),
                s@ == self@.listings(ids@.take(i as int)),
            decreases ids.len() - i,
        {
            let id = ids[i];
            assert(ids@.to_set().contains(ids@[i as int]));
            assert(ids@.take(i + 1).drop_last() =~= ids@.take(i as int));
            let team = self.teams.get(&id).unwrap();
            let listing = team.listing();
            s.append(listing.as_str());
            i = i + 1;
        }
        assert(ids@.take(i as int) =~= ids@);
        s
    }

    /// One choice for each team: the team's name as the label, the decimal
    /// text of its identifier as the value. The order is that in which the
    /// collection hands the teams out.
    pub fn menu_options(&self) -> (options: Vec<SelectOption>)
        ensures
            self@.lists(options_view(options@), self@.entries.dom()),
    {
        let ids = self.ids_open_to(None);
        assert(self@.open_to(None) =~= self@.entries.dom());
        assert forall|j: int| 0 <= j < ids@.len() implies self@.entries.contains_key(
            #[trigger] ids@[j],
        ) by {
            assert(ids@.to_set().contains(ids@[j]));
        }
        self.options_of(&ids)
    }

    /// One choice for each team that `user_id` is not a member of, and none
    /// for the teams that `user_id` is a member of.
    pub fn menu_options_without_user(&self, user_id: UserId) -> (options: Vec<SelectOption>)
        ensures
            self@.lists(options_view(options@), self@.open_to(Some(user_id))),
    {
        let ids = self.ids_open_to(Some(user_id));
        assert forall|j: int| 0 <= j < ids@.len() implies self@.entries.contains_key(
            #[trigger] ids@[j],
        ) by {
            assert(ids@.to_set().contains(ids@[j]));
        }
        self.options_of(&ids)
    }

    /// The select menu with the custom id `team` that offers every team.
    pub fn menu(&self) -> (menu: CreateSelectMenu)
        ensures
            self@.is_menu(menu, self@.entries.dom()),
    {
        let options = self.menu_options();
        select_menu("team", &options)
    }

    /// The select menu with the custom id `team` that offers the teams that
    /// `user_id` is not a member of.
    pub fn menu_without_user(&self, user_id: UserId) -> (menu: CreateSelectMenu)
        ensures
            self@.is_menu(menu, self@.open_to(Some(user_id))),
    {
        let options = self.menu_options_without_user(user_id);
        select_menu("team", &options)
    }

    /// Adds `participant` at the end of the members of team `team_id`.
    ///
    /// Fails, and changes nothing, where the team exists and is full. Where
    /// no team is under `team_id` the call succeeds and changes nothing.
    /// Whether the user is already a member is not looked at.
    pub fn add_participant(&mut self, team_id: TeamId, participant: Participant) -> (r: Result<
        (),
        TeamError,
    >)
        ensures
            r is Err == old(self)@.rejects(team_id.0),
            r is Err ==> r == Err::<(), TeamError>(TeamError::CapacityReached),
            final(self)@ == old(self)@.add_participant(team_id.0, participant@),
            old(self)@.within_capacity() ==> final(self)@.within_capacity(),
    {
        let id = team_id.0;
        match self.teams.remove(&id) {
            None => {
                assert(self@.entries =~= old(self)@.entries);
                Ok(())
            },
            Some(mut team) => {
                let full = match self.capacity {
                    Some(c) => team.members.len() >= c as usize,
                    None => false,
                };
                let r = if full {
                    Err(TeamError::CapacityReached)
                } else {
                    let ghost before = team@;
                    team.members.push(participant);
                    assert(team@ == before.with_member(participant@)) by {
                        assert(team@.members =~= before.members.push(participant@));
                    }
                    Ok(())
                };
                self.teams.insert(id, team);
                assert(self@.entries =~= old(self)@.add_participant(id, participant@).entries);
                r
            },
        }
    }

    /// Takes `user_id` out of the members of team `team_id`, wherever it
    /// occurs. Changes nothing where no team is under `team_id`.
    pub fn remove_participant(&mut self, team_id: TeamId, user_id: UserId)
        ensures
            final(self)@ == old(self)@.remove_participant(team_id.0, user_id),
    {
        let id = team_id.0;
        match self.teams.remove(&id) {
            None => {
                assert(self@.entries =~= old(self)@.entries);
            },
            Some(team) => {
                let team = team.without(user_id);
                self.teams.insert(id, team);
                assert(self@.entries =~= old(self)@.remove_participant(id, user_id).entries);
            },
        }
    }
}

impl Clone for Teams {
    fn clone(&self) -> (teams: Teams)
        ensures
            teams@ == self@,
    {
        Teams { teams: self.teams.clone(), capacity: self.capacity }
    }
}

impl Default for Teams {
    /// An empty collection without a limit.
    fn default() -> (teams: Teams)
        ensures
            teams@.entries == Map::<u64, TeamView>::empty(),
            teams@.capacity == None::<u32>,
    {
        Teams::new(None)
    }
}

/// The teams of `teams` under their identifiers; where an identifier occurs
/// twice, the later team stands.
pub open spec fn entries_of(teams: Seq<(TeamId, Team)>) -> Map<u64, TeamView>
    decreases teams.len(),
{
    if teams.len() == 0 {
        Map::empty()
    } else {
        entries_of(teams.drop_last()).insert(teams.last().0.0, teams.last().1@)
    }
}

/// What [`Teams::iter`] hands out gives the collection back: the teams under
/// their identifiers are the collection's entries.
pub proof fn lemma_restore_inverts_iter(teams: TeamsView, order: Seq<u64>, held: Seq<(TeamId, Team)>)
    requires
        order.to_set() == teams.entries.dom(),
        teams.holds(order, held),
    ensures
        entries_of(held) == teams.entries,
{
    lemma_entries_of_held(teams, order, held);
    assert(entries_of(held) =~= teams.entries) by {
        assert forall|id: u64| teams.entries.contains_key(id) implies order.contains(id) by {
            assert(order.to_set().contains(id));
        }
    }
}

/// The entries of what holds the teams `order` are those teams.
proof fn lemma_entries_of_held(teams: TeamsView, order: Seq<u64>, held: Seq<(TeamId, Team)>)
    requires
        teams.holds(order, held),
    ensures
        forall|id: u64| #[trigger] entries_of(held).contains_key(id) <==> order.contains(id),
        forall|id: u64| #[trigger]
            entries_of(held).contains_key(id) ==> entries_of(held)[id] == teams.entries[id],
    decreases held.len(),
{
    if held.len() > 0 {
        let n = held.len() - 1;
        let fewer = order.drop_last();
        let rest = held.drop_last();
        assert(teams.holds(fewer, rest)) by {
            assert forall|i: int| 0 <= i < fewer.len() implies (#[trigger] rest[i]).0.0 == fewer[i]
                && rest[i].1@ == teams.entries[fewer[i]] by {
                assert(held[i].0.0 == order[i]);
            }
        }
        lemma_entries_of_held(teams, fewer, rest);
        assert(held[n].0.0 == order[n] && held[n].1@ == teams.entries[order[n]]);
        assert(entries_of(held) == entries_of(rest).insert(order[n], teams.entries[order[n]]));
        assert forall|id: u64| #[trigger] entries_of(held).contains_key(id) <==> order.contains(
            id,
        ) by {
            if order.contains(id) && id != order[n] {
                let i = choose|i: int| 0 <= i < order.len() && order[i] == id;
                assert(fewer[i] == id);
                assert(fewer.contains(id));
                assert(entries_of(rest).contains_key(id));
            }
            if entries_of(held).contains_key(id) && id != order[n] {
                assert(entries_of(rest).contains_key(id));
                assert(fewer.contains(id));
                let i = choose|i: int| 0 <= i < fewer.len() && fewer[i] == id;
                assert(order[i] == id);
            }
            if id == order[n] {
                assert(order[n] == id);
            }
        }
        assert forall|id: u64| #[trigger] entries_of(held).contains_key(id) implies entries_of(
            held,
        )[id] == teams.entries[id] by {
            if id != order[n] {
                assert(entries_of(rest).contains_key(id));
            }
        }
    } else {
        assert(order.len() == 0);
    }
}

/// The collection after the attempts `calls` to add a participant, in order:
/// each is a team's identifier and the participant.
pub open spec fn after_adds(teams: TeamsView, calls: Seq<(u64, ParticipantView)>) -> TeamsView
    decreases calls.len(),
{
    if calls.len() == 0 {
        teams
    } else {
        after_adds(teams, calls.drop_last()).add_participant(calls.last().0, calls.last().1)
    }
}

/// One attempt to add a participant leaves every team within the limit.
pub proof fn lemma_add_keeps_capacity(teams: TeamsView, id: u64, p: ParticipantView)
    requires
        teams.within_capacity(),
    ensures
        teams.add_participant(id, p).within_capacity(),
{
    let after = teams.add_participant(id, p);
    assert forall|k: u64| #[trigger] after.entries.contains_key(k) implies (after.capacity matches Some(
        c,
    ) ==> after.entries[k].members.len() <= c) by {
        assert(teams.entries.contains_key(k));
    }
}

/// Whatever participants are added to whatever teams, in whatever order, no
/// team ever has more members than the limit: the collection is within the
/// limit after each of the attempts.
pub proof fn lemma_adds_keep_capacity(teams: TeamsView, calls: Seq<(u64, ParticipantView)>)
    requires
        teams.within_capacity(),
    ensures
        forall|n: int|
            0 <= n <= calls.len() ==> (#[trigger] after_adds(teams, calls.take(n))).within_capacity(),
    decreases calls.len(),
{
    if calls.len() > 0 {
        lemma_adds_keep_capacity(teams, calls.drop_last());
        assert forall|n: int| 0 <= n <= calls.len() implies (#[trigger] after_adds(
            teams,
            calls.take(n),
        )).within_capacity() by {
            if n < calls.len() {
                assert(calls.take(n) =~= calls.drop_last().take(n));
            } else {
                assert(calls.take(n) =~= calls);
                assert(calls.drop_last() =~= calls.drop_last().take(n - 1));
                lemma_add_keeps_capacity(
                    after_adds(teams, calls.drop_last()),
                    calls.last().0,
                    calls.last().1,
                );
            }
        }
    } else {
        assert forall|n: int| 0 <= n <= calls.len() implies (#[trigger] after_adds(
            teams,
            calls.take(n),
        )).within_capacity() by {
            assert(calls.take(n) =~= calls);
        }
    }
}

/// A team that is within the limit may be added to a collection that is
/// within the limit: the collection stays so.
pub proof fn lemma_add_team_keeps_capacity(teams: TeamsView, team: TeamView)
    requires
        teams.within_capacity(),
        teams.capacity matches Some(c) ==> team.members.len() <= c,
    ensures
        teams.add_team(team).within_capacity(),
{
}

/// Taking a user out of a team leaves every team within the limit.
pub proof fn lemma_remove_keeps_capacity(teams: TeamsView, id: u64, user: UserId)
    requires
        teams.within_capacity(),
    ensures
        teams.remove_participant(id, user).within_capacity(),
{
    let after = teams.remove_participant(id, user);
    assert forall|k: u64| #[trigger] after.entries.contains_key(k) implies (after.capacity matches Some(
        c,
    ) ==> after.entries[k].members.len() <= c) by {
        assert(teams.entries.contains_key(k));
        if k == id {
            teams.entries[id].members.lemma_filter_len(|p: ParticipantView| p.id != user);
        }
    }
}

/// Adding a participant to a team that does not exist is accepted and leaves
/// the collection as it was.
pub proof fn lemma_add_to_missing_team(teams: TeamsView, id: u64, p: ParticipantView)
    requires
        !teams.entries.contains_key(id),
    ensures
        !teams.rejects(id),
        teams.add_participant(id, p) == teams,
{
}

/// Adding a participant to a team that has exactly as many members as the
/// limit is refused and leaves the collection as it was.
pub proof fn lemma_full_team_rejects(teams: TeamsView, id: u64, p: ParticipantView)
    requires
        teams.entries.contains_key(id),
        teams.capacity matches Some(c) && teams.entries[id].members.len() == c,
    ensures
        teams.rejects(id),
        teams.add_participant(id, p) == teams,
{
}

/// Taking a user out of a team twice is the same as taking them out once.
pub proof fn lemma_remove_is_idempotent(teams: TeamsView, id: u64, user: UserId)
    ensures
        teams.remove_participant(id, user).remove_participant(id, user) == teams.remove_participant(
            id,
            user,
        ),
{
    if teams.entries.contains_key(id) {
        let keep = |p: ParticipantView| p.id != user;
        let members = teams.entries[id].members;
        lemma_filter_twice(members, keep);
        let once = teams.remove_participant(id, user);
        assert(once.remove_participant(id, user).entries =~= once.entries);
    }
}

/// Filtering a second time by the same test changes nothing.
proof fn lemma_filter_twice<A>(s: Seq<A>, keep: spec_fn(A) -> bool)
    ensures
        s.filter(keep).filter(keep) == s.filter(keep),
    decreases s.len(),
{
    reveal(Seq::filter);
    if s.len() > 0 {
        lemma_filter_twice(s.drop_last(), keep);
        if keep(s.last()) {
            s.drop_last().filter(keep).lemma_filter_push(s.last(), keep);
        }
    }
}

/// After a user is taken out of a team, the team does not contain them.
pub proof fn lemma_removed_is_absent(team: TeamView, user: UserId)
    ensures
        !team.without_user(user).contains(user),
{
    let keep = |p: ParticipantView| p.id != user;
    let left = team.without_user(user).members;
    assert forall|i: int| 0 <= i < left.len() implies (#[trigger] left[i]).id != user by {
        team.members.lemma_filter_pred(keep, i);
    }
}

/// Where the user is not yet a member of the team, the team contains the
/// user after the attempt to add them exactly if the team exists and was not
/// full.
pub proof fn lemma_member_after_add(teams: TeamsView, id: u64, p: ParticipantView)
    requires
        teams.entries.contains_key(id) ==> !teams.entries[id].contains(p.id),
    ensures
        ({
            let after = teams.add_participant(id, p);
            after.entries.contains_key(id) && after.entries[id].contains(p.id)
        }) <==> teams.entries.contains_key(id) && !teams.rejects(id),
{
    if teams.entries.contains_key(id) && !teams.rejects(id) {
        let team = teams.entries[id].with_member(p);
        assert(team.members[team.members.len() - 1].id == p.id);
    }
}

/// Adding a user who is not yet a member keeps the members distinct.
pub proof fn lemma_add_keeps_distinct(team: TeamView, p: ParticipantView)
    requires
        team.distinct_members(),
        !team.contains(p.id),
    ensures
        team.with_member(p).distinct_members(),
{
    let grown = team.with_member(p).members;
    assert forall|i: int, j: int| 0 <= i < j < grown.len() implies (#[trigger] grown[i]).id != (
    #[trigger] grown[j]).id by {
        if j == team.members.len() {
            assert(team.members[i].id != p.id);
        } else {
            assert(team.members[i].id != team.members[j].id);
        }
    }
}

/// Taking a user out keeps the members distinct.
pub proof fn lemma_remove_keeps_distinct(team: TeamView, user: UserId)
    requires
        team.distinct_members(),
    ensures
        team.without_user(user).distinct_members(),
{
    lemma_filter_keeps_distinct(team.members, |p: ParticipantView| p.id != user);
}

/// Among members that are distinct, those that pass a test are distinct.
proof fn lemma_filter_keeps_distinct(members: Seq<ParticipantView>, keep: spec_fn(ParticipantView) -> bool)
    requires
        forall|i: int, j: int|
            0 <= i < j < members.len() ==> (#[trigger] members[i]).id != (#[trigger] members[j]).id,
    ensures
        forall|i: int, j: int|
            0 <= i < j < members.filter(keep).len() ==> (#[trigger] members.filter(keep)[i]).id != (
            #[trigger] members.filter(keep)[j]).id,
        forall|i: int|
            0 <= i < members.filter(keep).len() ==> members.contains(
                #[trigger] members.filter(keep)[i],
            ),
    decreases members.len(),
{
    reveal(Seq::filter);
    if members.len() > 0 {
        let rest = members.drop_last();
        let last = members.last();
        lemma_filter_keeps_distinct(rest, keep);
        let kept = members.filter(keep);
        let before = rest.filter(keep);
        assert forall|i: int| 0 <= i < before.len() implies members.contains(
            #[trigger] before[i],
        ) && before[i].id != last.id by {
            assert(rest.contains(before[i]));
            let k = choose|k: int| 0 <= k < rest.len() && rest[k] == before[i];
            assert(members[k] == before[i]);
            assert(members[k].id != members[members.len() - 1].id);
        }
        assert forall|i: int| 0 <= i < kept.len() implies members.contains(#[trigger] kept[i]) by {
            if i < before.len() {
                assert(kept[i] == before[i]);
            } else {
                assert(kept[i] == members[members.len() - 1]);
            }
        }
        assert forall|i: int, j: int| 0 <= i < j < kept.len() implies (#[trigger] kept[i]).id != (
        #[trigger] kept[j]).id by {
            if j < before.len() {
                assert(kept[i] == before[i] && kept[j] == before[j]);
            } else {
                assert(kept[i] == before[i]);
            }
        }
    }
}

/// Whether `option` stands for one of the teams `shown`.
pub open spec fn stands_for_one_of(teams: TeamsView, option: SelectOptionView, shown: Set<u64>) -> bool {
    exists|id: u64| shown.contains(id) && option == #[trigger] teams.option_of(id)
}

/// Whether one of `options` stands for team `id`.
pub open spec fn has_option_for(teams: TeamsView, options: Seq<SelectOptionView>, id: u64) -> bool {
    exists|i: int| 0 <= i < options.len() && #[trigger] options[i] == teams.option_of(id)
}

/// A menu has one option for each team it shows: as many options as teams,
/// every option stands for a team shown, and every team shown has its option.
pub proof fn lemma_one_option_per_team(
    teams: TeamsView,
    options: Seq<SelectOptionView>,
    shown: Set<u64>,
)
    requires
        teams.lists(options, shown),
    ensures
        options.len() == shown.len(),
        forall|i: int|
            0 <= i < options.len() ==> stands_for_one_of(teams, #[trigger] options[i], shown),
        forall|id: u64| shown.contains(id) ==> #[trigger] has_option_for(teams, options, id),
{
    let order = choose|order: Seq<u64>|
        order.no_duplicates() && order.to_set() == shown && #[trigger] teams.offers(order, options);
    order.unique_seq_to_set();
    assert forall|i: int| 0 <= i < options.len() implies stands_for_one_of(
        teams,
        #[trigger] options[i],
        shown,
    ) by {
        assert(order.to_set().contains(order[i]));
        assert(shown.contains(order[i]) && options[i] == teams.option_of(order[i]));
    }
    assert forall|id: u64| shown.contains(id) implies #[trigger] has_option_for(
        teams,
        options,
        id,
    ) by {
        assert(order.to_set().contains(id));
        let i = choose|i: int| 0 <= i < order.len() && order[i] == id;
        assert(options[i] == teams.option_of(id));
    }
}

/// A menu made for a user offers a team exactly if the user is not a member
/// of it: among the options, one carries the team's identifier as its value
/// if and only if the team does not contain the user.
pub proof fn lemma_menu_omits_members(
    teams: TeamsView,
    options: Seq<SelectOptionView>,
    user: UserId,
    id: u64,
)
    requires
        teams.lists(options, teams.open_to(Some(user))),
        teams.entries.contains_key(id),
    ensures
        (exists|i: int| 0 <= i < options.len() && (#[trigger] options[i]).value == decimal(id as nat))
            <==> !teams.entries[id].contains(user),
{
    let order = choose|order: Seq<u64>|
        order.no_duplicates() && order.to_set() == teams.open_to(Some(user))
            && #[trigger] teams.offers(order, options);
    if !teams.entries[id].contains(user) {
        assert(teams.open_to(Some(user)).contains(id));
        assert(order.to_set().contains(id));
        let i = choose|i: int| 0 <= i < order.len() && order[i] == id;
        assert(options[i].value == decimal(id as nat));
    }
    if exists|i: int| 0 <= i < options.len() && (#[trigger] options[i]).value == decimal(id as nat) {
        let i = choose|i: int|
            0 <= i < options.len() && (#[trigger] options[i]).value == decimal(id as nat);
        lemma_parse_inverts_decimal(order[i]);
        lemma_parse_inverts_decimal(id);
        assert(order[i] == id);
        assert(order.to_set().contains(order[i]));
    }
}

} // verus!
