//! Scheduled events and the registry that owns them.

use crate::decimal::{decimal, to_decimal};
use crate::ids::{GuildId, ScheduledEventId};
use crate::menu::{menu_of, options_view, select_menu, SelectOption, SelectOptionView};
use crate::team::{Teams, TeamsView};
use serenity::builder::CreateSelectMenu;
use std::collections::HashMap;
use vstd::prelude::*;
use vstd::std_specs::hash::spec_keys_iter;
use vstd::std_specs::iter::IteratorSpec;

verus! {

broadcast use vstd::std_specs::hash::group_hash_axioms;

/// A scheduled event of one guild, with the teams that take part in it.
#[derive(Debug)]
pub struct Event {
    pub id: ScheduledEventId,
    pub guild_id: GuildId,
    pub name: String,
    pub teams: Teams,
}

/// The mathematical value of an [`Event`].
pub struct EventView {
    pub id: ScheduledEventId,
    pub guild_id: GuildId,
    pub name: Seq<char>,
    pub teams: TeamsView,
}

impl View for Event {
    type V = EventView;

    open spec fn view(&self) -> EventView {
        EventView { id: self.id, guild_id: self.guild_id, name: self.name@, teams: self.teams@ }
    }
}

impl Event {
    /// The event `id` of `guild_id`, titled `name`, with the given teams.
    pub fn new(id: ScheduledEventId, guild_id: GuildId, name: &str, teams: Teams) -> (event: Event)
        ensures
            event@ == (EventView { id, guild_id, name: name@, teams: teams@ }),
    {
        Event { id, guild_id, name: name.to_owned(), teams }
    }
}

impl Clone for Event {
    fn clone(&self) -> (event: Event)
        ensures
            event@ == self@,
    {
        Event {
            id: self.id,
            guild_id: self.guild_id,
            name: self.name.clone(),
            teams: self.teams.clone(),
        }
    }
}

/// The events of every guild. An event is held under its guild and its own
/// identifier.
#[derive(Debug)]
pub struct Events {
    guilds: HashMap<u64, HashMap<u64, Event>>,
}

/// The mathematical value of an [`Events`] registry: the events, keyed by
/// guild and event identifier.
pub struct EventsView {
    pub events: Map<(GuildId, ScheduledEventId), EventView>,
}

impl EventsView {
    /// Whether every event is held under its own identifier.
    pub open spec fn keyed_by_id(self) -> bool {
        forall|guild_id: GuildId, event_id: ScheduledEventId| #[trigger]
            self.events.contains_key((guild_id, event_id)) ==> self.events[(
                guild_id,
                event_id,
            )].id == event_id
    }

    /// The event `event_id` of `guild_id`, if the registry holds it.
    pub open spec fn get(self, guild_id: GuildId, event_id: ScheduledEventId) -> Option<EventView> {
        if self.events.contains_key((guild_id, event_id)) {
            Some(self.events[(guild_id, event_id)])
        } else {
            None
        }
    }

    /// The events of `guild_id` that have at least one team, by the number of
    /// their identifier.
    pub open spec fn joinable(self, guild_id: GuildId) -> Set<u64> {
        Set::new(
            |id: u64|
                self.events.contains_key((guild_id, ScheduledEventId(id))) && self.events[(
                    guild_id,
                    ScheduledEventId(id),
                )].teams.entries.len() > 0,
        )
    }

    /// The guilds that have an event, by the number of their identifier.
    pub open spec fn guilds(self) -> Set<u64> {
        Set::new(
            |g: u64|
                exists|event_id: ScheduledEventId| #[trigger]
                    self.events.contains_key((GuildId(g), event_id)),
        )
    }

    /// The events of `guild_id`, by the number of their identifier.
    pub open spec fn events_of(self, guild_id: GuildId) -> Set<u64> {
        Set::new(|id: u64| self.events.contains_key((guild_id, ScheduledEventId(id))))
    }

    /// Whether `guild_id` has an event with at least one team.
    pub open spec fn has_joinable(self, guild_id: GuildId) -> bool {
        exists|id: u64| self.joinable(guild_id).contains(id)
    }

    /// The choice that stands for event `id` of `guild_id` in a menu: its
    /// title as the label, the decimal text of `id` as the value.
    pub open spec fn option_of(self, guild_id: GuildId, id: u64) -> SelectOptionView {
        SelectOptionView {
            label: self.events[(guild_id, ScheduledEventId(id))].name,
            value: decimal(id as nat),
        }
    }

    /// Whether `options` offers the events `order` of `guild_id`, in that
    /// order.
    pub open spec fn offers(
        self,
        guild_id: GuildId,
        order: Seq<u64>,
        options: Seq<SelectOptionView>,
    ) -> bool {
        options == order.map_values(|id: u64| self.option_of(guild_id, id))
    }

    /// Whether `options` offers each event of `guild_id` that has a team
    /// once, and nothing else. The order is left open.
    pub open spec fn lists_joinable(self, guild_id: GuildId, options: Seq<SelectOptionView>) -> bool {
        exists|order: Seq<u64>|
            order.no_duplicates() && order.to_set() == self.joinable(guild_id)
                && #[trigger] self.offers(guild_id, order, options)
    }

    /// Whether `menu` is a select menu with the custom id `event` that offers
    /// each event of `guild_id` that has a team once, and nothing else.
    pub open spec fn is_menu(self, guild_id: GuildId, menu: CreateSelectMenu) -> bool {
        exists|options: Seq<SelectOptionView>| #[trigger]
            self.lists_joinable(guild_id, options) && menu == menu_of("event"@, options)
    }
}

impl View for Events {
    type V = EventsView;

    closed spec fn view(&self) -> EventsView {
        EventsView {
            events: Map::new(
                |k: (GuildId, ScheduledEventId)|
                    self.guilds@.contains_key(k.0.0) && self.guilds@[k.0.0]@.contains_key(k.1.0),
                |k: (GuildId, ScheduledEventId)| self.guilds@[k.0.0]@[k.1.0]@,
            ),
        }
    }
}

/// The keys of `map`, each once.
fn keys_of<V>(map: &HashMap<u64, V>) -> (keys: Vec<u64>)
    ensures
        keys@.no_duplicates(),
        keys@.to_set() == map@.dom(),
{
    let mut keys: Vec<u64> = Vec::new();
    let ghost all = spec_keys_iter(map).remaining().unref();
    for k in it: map.keys()
        invariant
            it.seq().unref() == all,
            keys@ == all.take(it.index() as int),
    {
        keys.push(*k);
    }
    assert(keys@ =~= all);
    keys
}

impl Events {
    /// Every event is held under its own identifier, and no guild is kept
    /// without an event.
    #[verifier::type_invariant]
    pub closed spec fn well_formed(self) -> bool {
        &&& forall|g: u64, e: u64| #[trigger]
            self.guilds@.contains_key(g) && #[trigger] self.guilds@[g]@.contains_key(e)
                ==> self.guilds@[g]@[e].id.0 == e
        &&& forall|g: u64| #[trigger]
            self.guilds@.contains_key(g) ==> exists|e: u64| #[trigger]
                self.guilds@[g]@.contains_key(e)
    }

    /// In a well-formed registry every event is held under its own
    /// identifier.
    pub proof fn lemma_keyed_by_id(self)
        requires
            self.well_formed(),
        ensures
            self@.keyed_by_id(),
    {
    }

    /// A registry without events.
    pub fn new() -> (events: Events)
        ensures
            events@.events == Map::<(GuildId, ScheduledEventId), EventView>::empty(),
            events@.keyed_by_id(),
    {
        let events = Events { guilds: HashMap::new() };
        assert(events@.events =~= Map::<(GuildId, ScheduledEventId), EventView>::empty());
        events
    }

    /// A copy of the event `event_id` of `guild_id`, if the registry holds
    /// it.
    pub fn get(&self, guild_id: GuildId, event_id: &ScheduledEventId) -> (event: Option<Event>)
        ensures
            event is Some == self@.events.contains_key((guild_id, *event_id)),
            event matches Some(e) ==> e@ == self@.events[(guild_id, *event_id)] && e.id
                == *event_id,
            self@.keyed_by_id(),
    {
        proof {
            use_type_invariant(self);
        }
        match self.guilds.get(&guild_id.0) {
            None => None,
            Some(events) => match events.get(&event_id.0) {
                None => None,
                Some(event) => Some(event.clone()),
            },
        }
    }

    /// The guilds that have an event, each once.
    pub fn guild_ids(&self) -> (ids: Vec<GuildId>)
        ensures
            ids@.no_duplicates(),
            ids@.map_values(|g: GuildId| g.0).to_set() == self@.guilds(),
    {
        proof {
            use_type_invariant(self);
        }
        let keys = keys_of(&self.guilds);
        let mut ids: Vec<GuildId> = Vec::new();
        let mut i: usize = 0;
        while i < keys.len()
            invariant
                i <= keys.len(),
                ids.len() == i,
                forall|j: int| 0 <= j < i ==> (#[trigger] ids@[j]).0 == keys@[j],
            decreases keys.len() - i,
        {
            ids.push(GuildId(keys[i]));
            i = i + 1;
        }
        proof {
            let numbers = ids@.map_values(|g: GuildId| g.0);
            assert(numbers =~= keys@);
            assert forall|a: int, b: int| 0 <= a < ids@.len() && 0 <= b < ids@.len() && a
                != b implies ids@[a] != ids@[b] by {
                assert(keys@[a] != keys@[b]);
            }
            assert forall|g: u64| self.guilds@.contains_key(g) implies self@.guilds().contains(
                g,
            ) by {
                let e = choose|e: u64| #[trigger] self.guilds@[g]@.contains_key(e);
                assert(self@.events.contains_key((GuildId(g), ScheduledEventId(e))));
            }
            assert(keys@.to_set() =~= self@.guilds());
        }
        ids
    }

    /// The events of `guild_id`, each once.
    pub fn event_ids(&self, guild_id: GuildId) -> (ids: Vec<ScheduledEventId>)
        ensures
            ids@.no_duplicates(),
            ids@.map_values(|e: ScheduledEventId| e.0).to_set() == self@.events_of(guild_id),
    {
        let mut ids: Vec<ScheduledEventId> = Vec::new();
        match self.guilds.get(&guild_id.0) {
            None => {
                assert(ids@.map_values(|e: ScheduledEventId| e.0).to_set() =~= self@.events_of(
                    guild_id,
                ));
            },
            Some(events) => {
                let keys = keys_of(events);
                let mut i: usize = 0;
                while i < keys.len()
                    invariant
                        i <= keys.len(),
                        ids.len() == i,
                        forall|j: int| 0 <= j < i ==> (#[trigger] ids@[j]).0 == keys@[j],
                    decreases keys.len() - i,
                {
                    ids.push(ScheduledEventId(keys[i]));
                    i = i + 1;
                }
                proof {
                    let numbers = ids@.map_values(|e: ScheduledEventId| e.0);
                    assert(numbers =~= keys@);
                    assert forall|a: int, b: int| 0 <= a < ids@.len() && 0 <= b < ids@.len() && a
                        != b implies ids@[a] != ids@[b] by {
                        assert(keys@[a] != keys@[b]);
                    }
                    assert(keys@.to_set() =~= self@.events_of(guild_id));
                }
            },
        }
        ids
    }

    /// The identifiers of the events of `guild_id` that have at least one
    /// team, each once.
    fn joinable_ids(&self, guild_id: GuildId) -> (ids: Vec<u64>)
        ensures
            ids@.no_duplicates(),
            ids@.to_set() == self@.joinable(guild_id),
    {
        let mut ids: Vec<u64> = Vec::new();
        match self.guilds.get(&guild_id.0) {
            None => {
                assert(ids@.to_set() =~= self@.joinable(guild_id));
            },
            Some(events) => {
                let all = keys_of(events);
                let mut i: usize = 0;
                while i < all.len()
                    invariant
                        i <= all.len(),
                        self.guilds@.contains_key(guild_id.0),
                        self.guilds@[guild_id.0] == *events,
                        all@.no_duplicates(),
                        all@.to_set() == events@.dom(),
                        ids@.no_duplicates(),
                        forall|j: int|
                            0 <= j < ids@.len() ==> self@.joinable(guild_id).contains(
                                #[trigger] ids@[j],
                            ) && all@.take(i as int).contains(ids@[j]),
                        forall|j: int|
                            0 <= j < i && self@.joinable(guild_id).contains(#[trigger] all@[j])
                                ==> ids@.contains(all@[j]),
                    decreases all.len() - i,
                {
                    let id = all[i];
                    let ghost at = i as int;
                    let ghost before = ids@;
                    assert(all@.to_set().contains(all@[at]));
                    let event = events.get(&id).unwrap();
                    let joinable = !event.teams.is_empty();
                    assert(joinable == self@.joinable(guild_id).contains(id));
                    if joinable {
                        ids.push(id);
                        assert(ids@[before.len() as int] == id);
                        assert(!before.contains(id)) by {
                            if before.contains(id) {
                                let j = choose|j: int| 0 <= j < before.len() && before[j] == id;
                                assert(all@.take(at).contains(before[j]));
                            }
                        }
                        assert forall|j: int|
                            0 <= j < at + 1 && self@.joinable(guild_id).contains(
                                #[trigger] all@[j],
                            ) implies ids@.contains(all@[j]) by {
                            if j < at {
                                let k = choose|k: int| 0 <= k < before.len() && before[k] == all@[j];
                                assert(ids@[k] == all@[j]);
                            }
                        }
                    }
                    assert forall|j: int| 0 <= j < ids@.len() implies all@.take(at + 1).contains(
                        #[trigger] ids@[j],
                    ) by {
                        if j < before.len() {
                            let k = choose|k: int| 0 <= k < at && all@.take(at)[k] == before[j];
                            assert(all@.take(at + 1)[k] == ids@[j]);
                        } else {
                            assert(all@.take(at + 1)[at] == ids@[j]);
                        }
                    }
                    i = i + 1;
                }
                assert(ids@.to_set() =~= self@.joinable(guild_id)) by {
                    assert forall|id: u64| self@.joinable(guild_id).contains(id) implies ids@.contains(
                        id,
                    ) by {
                        assert(all@.to_set().contains(id));
                        let j = choose|j: int| 0 <= j < all@.len() && all@[j] == id;
                        assert(ids@.contains(all@[j]));
                    }
                }
            },
        }
        ids
    }

    /// One choice for each event of `guild_id` that has at least one team:
    /// the event's title as the label, the decimal text of its identifier as
    /// the value. The order is that in which the registry hands the events
    /// out.
    pub fn joinable_options(&self, guild_id: GuildId) -> (options: Vec<SelectOption>)
        ensures
            self@.lists_joinable(guild_id, options_view(options@)),
            (options@.len() > 0) == self@.has_joinable(guild_id),
    {
        let ids = self.joinable_ids(guild_id);
        let mut options: Vec<SelectOption> = Vec::new();
        let mut i: usize = 0;
        while i < ids.len()
            invariant
                i <= ids.len(),
                options.len() == i,
                ids@.to_set() == self@.joinable(guild_id),
                forall|j: int|
                    0 <= j < i ==> (#[trigger] options@[j])@ == self@.option_of(guild_id, ids@[j]),
            decreases ids.len() - i,
        {
            let id = ids[i];
            assert(ids@.to_set().contains(ids@[i as int]));
            let event = self.guilds.get(&guild_id.0).unwrap().get(&id).unwrap();
            options.push(SelectOption { label: event.name.clone(), value: to_decimal(id) });
            i = i + 1;
        }
        proof {
            assert(options_view(options@) =~= ids@.map_values(
                |id: u64| self@.option_of(guild_id, id),
            ));
            assert(self@.offers(guild_id, ids@, options_view(options@)));
            if ids@.len() > 0 {
                assert(ids@.to_set().contains(ids@[0]));
            }
        }
        options
    }

    /// The select menu with the custom id `event` that offers the events of
    /// `guild_id` that have at least one team; `None` where there is no such
    /// event.
    pub fn menu_nonzero_team(&self, guild_id: GuildId) -> (menu: Option<CreateSelectMenu>)
        ensures
            menu is Some == self@.has_joinable(guild_id),
            menu matches Some(m) ==> self@.is_menu(guild_id, m),
    {
        let options = self.joinable_options(guild_id);
        if options.len() == 0 {
            None
        } else {
            Some(select_menu("event", &options))
        }
    }

    /// Stores a copy of `event` under `guild_id` and the event's own
    /// identifier, in place of what was held there. Storing the same event
    /// again changes nothing.
    pub fn refresh_event(&mut self, guild_id: GuildId, event: &Event)
        ensures
            final(self)@.events == old(self)@.events.insert((guild_id, event.id), event@),
            final(self)@.keyed_by_id(),
    {
        proof {
            use_type_invariant(&*self);
        }
        let mut guilds = HashMap::new();
        core::mem::swap(&mut self.guilds, &mut guilds);
        let mut events = match guilds.remove(&guild_id.0) {
            Some(events) => events,
            None => HashMap::new(),
        };
        events.insert(event.id.0, event.clone());
        guilds.insert(guild_id.0, events);
        proof {
            let before = old(self).guilds@;
            assert forall|g: u64| #[trigger] guilds@.contains_key(g) implies exists|e: u64| #[trigger]
                guilds@[g]@.contains_key(e) by {
                if g == guild_id.0 {
                    assert(guilds@[g]@.contains_key(event.id.0));
                } else {
                    assert(before.contains_key(g));
                    let e = choose|e: u64| #[trigger] before[g]@.contains_key(e);
                    assert(guilds@[g]@.contains_key(e));
                }
            }
        }
        self.guilds = guilds;
        assert(self@.events =~= old(self)@.events.insert((guild_id, event.id), event@));
    }

    /// Takes the event `event_id` of `guild_id` out of the registry and
    /// returns it.
    pub fn remove(&mut self, guild_id: GuildId, event_id: &ScheduledEventId) -> (event: Option<
        Event,
    >)
        ensures
            final(self)@.events == old(self)@.events.remove((guild_id, *event_id)),
            final(self)@.keyed_by_id(),
            event is Some == old(self)@.events.contains_key((guild_id, *event_id)),
            event matches Some(e) ==> e@ == old(self)@.events[(guild_id, *event_id)] && e.id
                == *event_id,
    {
        proof {
            use_type_invariant(&*self);
        }
        let mut guilds = HashMap::new();
        core::mem::swap(&mut self.guilds, &mut guilds);
        let event = match guilds.remove(&guild_id.0) {
            None => None,
            Some(mut events) => {
                let event = events.remove(&event_id.0);
                if !events.is_empty() {
                    assert(events@.contains_key(events@.dom().choose())) by {
                        assert(events@.dom().len() > 0);
                    }
                    guilds.insert(guild_id.0, events);
                }
                event
            },
        };
        proof {
            let before = old(self).guilds@;
            assert forall|g: u64| #[trigger] guilds@.contains_key(g) implies exists|e: u64| #[trigger]
                guilds@[g]@.contains_key(e) by {
                if g == guild_id.0 {
                    assert(guilds@[g]@.contains_key(guilds@[g]@.dom().choose()));
                } else {
                    assert(before.contains_key(g));
                    let e = choose|e: u64| #[trigger] before[g]@.contains_key(e);
                    assert(guilds@[g]@.contains_key(e));
                }
            }
        }
        self.guilds = guilds;
        assert(self@.events =~= old(self)@.events.remove((guild_id, *event_id)));
        event
    }
}

/// A registry without events has nothing to join, in any guild.
pub proof fn lemma_empty_registry_offers_nothing(registry: EventsView, guild_id: GuildId)
    requires
        registry.events == Map::<(GuildId, ScheduledEventId), EventView>::empty(),
    ensures
        !registry.has_joinable(guild_id),
{
}

/// A guild whose events all lack teams has nothing to join.
pub proof fn lemma_teamless_events_offer_nothing(registry: EventsView, guild_id: GuildId)
    requires
        forall|id: ScheduledEventId| #[trigger]
            registry.events.contains_key((guild_id, id)) ==> registry.events[(
                guild_id,
                id,
            )].teams.entries.len() == 0,
    ensures
        !registry.has_joinable(guild_id),
{
    assert forall|id: u64| !registry.joinable(guild_id).contains(id) by {
        if registry.events.contains_key((guild_id, ScheduledEventId(id))) {
        }
    }
}

/// Storing the same event twice is the same as storing it once.
pub proof fn lemma_refresh_is_idempotent(registry: EventsView, guild_id: GuildId, event: EventView)
    ensures
        registry.events.insert((guild_id, event.id), event).insert((guild_id, event.id), event)
            == registry.events.insert((guild_id, event.id), event),
{
    assert(registry.events.insert((guild_id, event.id), event).insert((guild_id, event.id), event)
        =~= registry.events.insert((guild_id, event.id), event));
}

/// What was stored is what is found.
pub proof fn lemma_get_after_refresh(registry: EventsView, guild_id: GuildId, event: EventView)
    ensures
        (EventsView { events: registry.events.insert((guild_id, event.id), event) }).get(
            guild_id,
            event.id,
        ) == Some(event),
{
}

} // verus!
