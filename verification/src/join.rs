//! The `/join` workflow: a user picks an event, then a team, is let into the
//! team's channels and becomes a member.
//!
//! The workflow talks to the chat platform and waits for the user between its
//! decisions. The decisions are [`JoinState::step`]: it takes what the platform
//! answered and says what to ask of the platform next. The caller carries out
//! each [`JoinAction`] and hands back the [`JoinInput`] that answers it.

use crate::decimal::{parse_decimal, parsed};
use crate::events::{Event, EventView, Events, EventsView};
use crate::ids::{ChannelId, GuildId, ScheduledEventId, TeamId, UserId};
use crate::participant::{Participant, ParticipantView};
use crate::team::{Team, TeamError};
use serenity::builder::CreateSelectMenu;
use vstd::prelude::*;
use vstd::string::*;

verus! {

/// The platform's error type. Nothing of its inside is visible here: the
/// workflow only hands such an error on.
#[verifier::external_type_specification]
#[verifier::external_body]
pub struct ExPlatformError(serenity::Error);

/// The platform's error `Error::Other` that carries `message`.
pub uninterp spec fn other_error(message: Seq<char>) -> serenity::Error;

/// Makes the variant `Error::Other` of the platform's error type, which holds
/// the message and nothing else.
#[verifier::external_body]
fn new_other_error(message: &'static str) -> (error: serenity::Error)
    ensures
        error == other_error(message@),
{
    serenity::Error::Other(message)
}

/// The bit that stands for the permission to see a channel.
pub const VIEW_CHANNEL: u64 = 1024;

/// The name of the slash command.
pub fn command_name() -> (name: &'static str)
    ensures
        name@ == "join"@,
{
    "join"
}

/// The description of the slash command.
pub fn command_description() -> (description: &'static str)
    ensures
        description@ == "Join a team."@,
{
    "Join a team."
}

/// What is said where no event has a team to join.
pub open spec fn no_teams_message() -> Seq<char> {
    "Veuillez créer une équipe avant d'essayer de rejoindre une équipe."@
}

/// What is said above the menu of events.
pub open spec fn event_prompt() -> Seq<char> {
    "Sélectionnez l'événement que vous voulez rejoindre."@
}

/// What is said above the menu of teams.
pub open spec fn team_prompt() -> Seq<char> {
    "Sélectionnez l'équipe que vous voulez rejoindre."@
}

/// What is said to a user who became a member of the team `name`.
pub open spec fn joined_message(name: Seq<char>) -> Seq<char> {
    "Vous avez été rajouté à l'équipe: "@ + name
}

/// What is said to a user who did not become a member, for the reason
/// `reason`.
pub open spec fn refused_message(reason: Seq<char>) -> Seq<char> {
    "Vous n'avez pas été rajouté à l'équipe: "@ + reason
}

/// The two menus of the workflow.
#[derive(Clone, Copy, Debug, PartialEq, Eq, Structural)]
pub enum Stage {
    /// The menu of events.
    Event,
    /// The menu of teams.
    Team,
}

impl Stage {
    /// The sentence that reports a failed selection at this stage.
    pub fn message(&self) -> (s: &'static str)
        ensures
            s@ == match *self {
                Stage::Event => "Event selection failed."@,
                Stage::Team => "Team selection failed."@,
            },
    {
        match self {
            Stage::Event => "Event selection failed.",
            Stage::Team => "Team selection failed.",
        }
    }
}

/// Why the workflow stopped without an answer to the user.
#[derive(Debug)]
pub enum JoinError {
    /// The user's choice did not arrive, was no string select, or did not
    /// name an identifier.
    SelectionFailed(Stage),
    /// The chosen event or team is no longer there.
    LookupFailed,
    /// The platform failed; its error is handed on as it came.
    Platform(serenity::Error),
    /// The input does not answer what the workflow asked for.
    OutOfOrder,
}

impl JoinError {
    /// The error as the platform's error type: the platform's own error as
    /// it came, any other as `Error::Other` with its sentence.
    pub fn into_error(self) -> (error: serenity::Error)
        ensures
            error == match self {
                JoinError::SelectionFailed(Stage::Event) => other_error("Event selection failed."@),
                JoinError::SelectionFailed(Stage::Team) => other_error("Team selection failed."@),
                JoinError::LookupFailed => other_error("Event joining failed."@),
                JoinError::Platform(e) => e,
                JoinError::OutOfOrder => other_error("Event joining went out of order."@),
            },
    {
        match self {
            JoinError::SelectionFailed(stage) => new_other_error(stage.message()),
            JoinError::LookupFailed => new_other_error("Event joining failed."),
            JoinError::Platform(error) => error,
            JoinError::OutOfOrder => new_other_error("Event joining went out of order."),
        }
    }
}

/// The record that lets one member see a channel.
#[derive(Clone, Copy, Debug, PartialEq, Eq, Structural)]
pub struct PermissionOverwrite {
    /// The permission bits granted.
    pub allow: u64,
    /// The permission bits taken away.
    pub deny: u64,
    /// The member the record is for.
    pub member: UserId,
}

impl PermissionOverwrite {
    /// The record that grants `member` the sight of a channel and takes
    /// nothing away.
    pub fn view_channel(member: UserId) -> (overwrite: PermissionOverwrite)
        ensures
            overwrite == (PermissionOverwrite { allow: VIEW_CHANNEL, deny: 0, member }),
    {
        PermissionOverwrite { allow: VIEW_CHANNEL, deny: 0, member }
    }
}

/// What a component interaction carries besides its user.
#[derive(Debug)]
pub enum ComponentKind {
    /// A string select, with the values of the chosen options.
    StringSelect { values: Vec<String> },
    /// Any other component.
    Other,
}

/// A user's action on a menu.
#[derive(Debug)]
pub struct Component {
    /// The user who acted.
    pub user: Participant,
    /// What was acted on.
    pub kind: ComponentKind,
}

/// The number that a collected component chose: the first value of a string
/// select, read as decimal text. `None` where nothing was collected, the
/// component is no string select, it has no value, or the value is no number.
pub open spec fn chosen_number(component: Option<Component>) -> Option<u64> {
    match component {
        Some(Component { user: _, kind: ComponentKind::StringSelect { values } }) => if values@.len()
            > 0 {
            parsed(values@[0]@)
        } else {
            None
        },
        _ => None,
    }
}

/// The event that a collected component chose: the chosen number, which must
/// not be zero.
pub open spec fn chosen_event(component: Option<Component>) -> Option<ScheduledEventId> {
    match chosen_number(component) {
        Some(n) => if n != 0 {
            Some(ScheduledEventId(n))
        } else {
            None
        },
        None => None,
    }
}

/// The team that a collected component chose: the chosen number.
pub open spec fn chosen_team(component: Option<Component>) -> Option<TeamId> {
    match chosen_number(component) {
        Some(n) => Some(TeamId(n)),
        None => None,
    }
}

/// Reads the number that a collected component chose.
pub fn read_choice(component: &Option<Component>) -> (number: Option<u64>)
    ensures
        number == chosen_number(*component),
{
    match component {
        Some(c) => match &c.kind {
            ComponentKind::StringSelect { values } => {
                if values.len() > 0 {
                    parse_decimal(values[0].as_str())
                } else {
                    None
                }
            },
            ComponentKind::Other => None,
        },
        None => None,
    }
}

/// Reads the event that a collected component chose.
pub fn read_event_choice(component: &Option<Component>) -> (choice: Result<
    ScheduledEventId,
    JoinError,
>)
    ensures
        match choice {
            Ok(id) => chosen_event(*component) == Some(id),
            Err(e) => chosen_event(*component) is None && e == JoinError::SelectionFailed(
                Stage::Event,
            ),
        },
{
    match read_choice(component) {
        Some(n) => {
            if n != 0 {
                Ok(ScheduledEventId(n))
            } else {
                Err(JoinError::SelectionFailed(Stage::Event))
            }
        },
        None => Err(JoinError::SelectionFailed(Stage::Event)),
    }
}

/// Reads the team that a collected component chose.
pub fn read_team_choice(component: &Option<Component>) -> (choice: Result<TeamId, JoinError>)
    ensures
        match choice {
            Ok(id) => chosen_team(*component) == Some(id),
            Err(e) => chosen_team(*component) is None && e == JoinError::SelectionFailed(
                Stage::Team,
            ),
        },
{
    match read_choice(component) {
        Some(n) => Ok(TeamId(n)),
        None => Err(JoinError::SelectionFailed(Stage::Team)),
    }
}

/// What the caller hands to the workflow: the answer to the last action.
#[derive(Debug)]
pub enum JoinInput {
    /// The slash command was invoked.
    Invoked,
    /// How the platform took the last response, edit, permission change or
    /// refresh.
    Platform(Result<(), serenity::Error>),
    /// What the collector yielded: a component interaction, or nothing.
    Component(Option<Component>),
}

/// What the workflow asks the caller to do next.
#[derive(Debug)]
pub enum JoinAction {
    /// Answer the interaction with `content` and, if there is one, the menu.
    Respond { content: String, ephemeral: bool, menu: Option<CreateSelectMenu> },
    /// Replace the answer by `content` with the menu as its only component,
    /// or without components where there is none.
    Edit { content: String, menu: Option<CreateSelectMenu> },
    /// Wait for the next component interaction.
    AwaitComponent,
    /// Apply `overwrite` to `channel`.
    Permit { channel: ChannelId, overwrite: PermissionOverwrite },
    /// Persist `event`, which the registry now holds, and render it anew.
    Refresh { event: Event },
    /// Stop, with this result.
    Finish(Result<(), JoinError>),
}

/// The six stages of the workflow.
#[derive(Clone, Copy, Debug, PartialEq, Eq, Structural)]
pub enum Phase {
    Start,
    AwaitingEventChoice,
    AwaitingTeamChoice,
    Applying,
    Done,
    Aborted,
}

/// The kind of input that a state waits for.
#[derive(Clone, Copy, Debug, PartialEq, Eq, Structural)]
pub enum Awaited {
    Invocation,
    PlatformAnswer,
    Component,
    Nothing,
}

/// Where the workflow stands.
#[derive(Debug)]
pub enum JoinState {
    /// Nothing has happened yet.
    Start,
    /// The hint to create a team first is on its way.
    Declining,
    /// The menu of events is on its way.
    OfferingEvents,
    /// The user is choosing an event.
    AwaitingEventChoice,
    /// The menu of the teams of `event_id` is on its way.
    OfferingTeams { event_id: ScheduledEventId },
    /// The user is choosing a team of `event_id`.
    AwaitingTeamChoice { event_id: ScheduledEventId },
    /// The user is being let into the text channel of `team`.
    GrantingText { event: Event, team_id: TeamId, team: Team, participant: Participant },
    /// The user is being let into the voice channel of `team`.
    GrantingVoice { event: Event, team_id: TeamId, team: Team, participant: Participant },
    /// The event is being persisted; `message` waits to be shown.
    Refreshing { message: String },
    /// The final message is on its way.
    Reporting,
    /// The workflow ended and the user has an answer.
    Done,
    /// The workflow ended with an error.
    Aborted,
}

impl JoinState {
    /// The stage that the state belongs to.
    pub open spec fn phase(self) -> Phase {
        match self {
            JoinState::Start => Phase::Start,
            JoinState::Declining => Phase::Start,
            JoinState::OfferingEvents => Phase::AwaitingEventChoice,
            JoinState::AwaitingEventChoice => Phase::AwaitingEventChoice,
            JoinState::OfferingTeams { .. } => Phase::AwaitingTeamChoice,
            JoinState::AwaitingTeamChoice { .. } => Phase::AwaitingTeamChoice,
            JoinState::GrantingText { .. } => Phase::Applying,
            JoinState::GrantingVoice { .. } => Phase::Applying,
            JoinState::Refreshing { .. } => Phase::Applying,
            JoinState::Reporting => Phase::Applying,
            JoinState::Done => Phase::Done,
            JoinState::Aborted => Phase::Aborted,
        }
    }

    /// The kind of input that the state waits for.
    pub open spec fn awaits(self) -> Awaited {
        match self {
            JoinState::Start => Awaited::Invocation,
            JoinState::AwaitingEventChoice => Awaited::Component,
            JoinState::AwaitingTeamChoice { .. } => Awaited::Component,
            JoinState::Done => Awaited::Nothing,
            JoinState::Aborted => Awaited::Nothing,
            _ => Awaited::PlatformAnswer,
        }
    }
}

impl JoinInput {
    /// The kind of input that this is.
    pub open spec fn kind(self) -> Awaited {
        match self {
            JoinInput::Invoked => Awaited::Invocation,
            JoinInput::Platform(_) => Awaited::PlatformAnswer,
            JoinInput::Component(_) => Awaited::Component,
        }
    }
}

/// Whether the workflow stops in `next` with `action`, reporting `error`.
pub open spec fn aborts(next: JoinState, action: JoinAction, error: JoinError) -> bool {
    next == JoinState::Aborted && action == JoinAction::Finish(Err(error))
}

/// Whether `action` replaces the answer by `content` and `menu`.
pub open spec fn edits(action: JoinAction, content: Seq<char>) -> bool {
    action matches JoinAction::Edit { content: c, menu: None } && c@ == content
}

/// The event `event` with `participant` added to team `team_id`, as far as
/// the team's capacity allows.
pub open spec fn event_joined(
    event: EventView,
    team_id: TeamId,
    participant: ParticipantView,
) -> EventView {
    EventView { teams: event.teams.add_participant(team_id.0, participant), ..event }
}

/// The message for a user who asked to join team `team_id` of `event`, whose
/// name was `name` when the user chose it.
pub open spec fn outcome_message(event: EventView, team_id: TeamId, name: Seq<char>) -> Seq<char> {
    if event.teams.rejects(team_id.0) {
        refused_message("L'équipe a atteint sa capacité maximale"@)
    } else {
        joined_message(name)
    }
}

/// One step of the workflow: from `state`, with the registry as `before`, on
/// `input`, the workflow goes to `next`, asks for `action` and leaves the
/// registry as `after`.
pub open spec fn transition(
    state: JoinState,
    guild_id: GuildId,
    before: EventsView,
    input: JoinInput,
    next: JoinState,
    action: JoinAction,
    after: EventsView,
) -> bool {
    if state.awaits() != input.kind() {
        after == before && aborts(next, action, JoinError::OutOfOrder)
    } else {
        match (state, input) {
            (_, JoinInput::Platform(Err(e))) => after == before && aborts(
                next,
                action,
                JoinError::Platform(e),
            ),
            (JoinState::Start, _) => {
                &&& after == before
                &&& if before.has_joinable(guild_id) {
                    &&& next == JoinState::OfferingEvents
                    &&& action matches JoinAction::Respond { content, ephemeral, menu: Some(m) }
                    &&& content@ == event_prompt()
                    &&& ephemeral
                    &&& before.is_menu(guild_id, m)
                } else {
                    &&& next == JoinState::Declining
                    &&& action matches JoinAction::Respond { content, ephemeral, menu: None }
                    &&& content@ == no_teams_message()
                    &&& ephemeral
                }
            },
            (JoinState::Declining, _) => {
                &&& after == before
                &&& next == JoinState::Done
                &&& action == JoinAction::Finish(Ok(()))
            },
            (JoinState::OfferingEvents, _) => {
                &&& after == before
                &&& next == JoinState::AwaitingEventChoice
                &&& action == JoinAction::AwaitComponent
            },
            (JoinState::AwaitingEventChoice, JoinInput::Component(c)) => {
                &&& after == before
                &&& match chosen_event(c) {
                    None => aborts(next, action, JoinError::SelectionFailed(Stage::Event)),
                    Some(event_id) => match before.get(guild_id, event_id) {
                        None => aborts(next, action, JoinError::LookupFailed),
                        Some(event) => {
                            &&& next == JoinState::OfferingTeams { event_id }
                            &&& action matches JoinAction::Edit { content, menu: Some(m) }
                            &&& content@ == team_prompt()
                            &&& event.teams.is_menu(m, event.teams.entries.dom())
                        },
                    },
                }
            },
            (JoinState::OfferingTeams { event_id }, _) => {
                &&& after == before
                &&& next == JoinState::AwaitingTeamChoice { event_id }
                &&& action == JoinAction::AwaitComponent
            },
            (JoinState::AwaitingTeamChoice { event_id }, JoinInput::Component(c)) => {
                &&& after == before
                &&& match chosen_team(c) {
                    None => aborts(next, action, JoinError::SelectionFailed(Stage::Team)),
                    Some(team_id) => match before.get(guild_id, event_id) {
                        None => aborts(next, action, JoinError::LookupFailed),
                        Some(found) => if !found.teams.entries.contains_key(team_id.0) {
                            aborts(next, action, JoinError::LookupFailed)
                        } else {
                            &&& next matches JoinState::GrantingText {
                                event,
                                team_id: t,
                                team,
                                participant,
                            }
                            &&& event@ == found
                            &&& t == team_id
                            &&& team@ == found.teams.entries[team_id.0]
                            &&& participant@ == c->0.user@
                            &&& action == JoinAction::Permit {
                                channel: team.text_channel,
                                overwrite: PermissionOverwrite {
                                    allow: VIEW_CHANNEL,
                                    deny: 0,
                                    member: participant.id,
                                },
                            }
                        },
                    },
                }
            },
            (JoinState::GrantingText { event, team_id, team, participant }, _) => {
                &&& after == before
                &&& next matches JoinState::GrantingVoice {
                    event: e,
                    team_id: t,
                    team: tm,
                    participant: p,
                }
                &&& e@ == event@
                &&& t == team_id
                &&& tm@ == team@
                &&& p@ == participant@
                &&& action == JoinAction::Permit {
                    channel: team.vocal_channel,
                    overwrite: PermissionOverwrite {
                        allow: VIEW_CHANNEL,
                        deny: 0,
                        member: participant.id,
                    },
                }
            },
            (JoinState::GrantingVoice { event, team_id, team, participant }, _) => {
                let stored = event_joined(event@, team_id, participant@);
                &&& after.events == before.events.insert((guild_id, event.id), stored)
                &&& next matches JoinState::Refreshing { message }
                &&& message@ == outcome_message(event@, team_id, team@.name)
                &&& action matches JoinAction::Refresh { event: e }
                &&& e@ == stored
            },
            (JoinState::Refreshing { message }, _) => {
                &&& after == before
                &&& next == JoinState::Reporting
                &&& edits(action, message@)
            },
            (JoinState::Reporting, _) => {
                &&& after == before
                &&& next == JoinState::Done
                &&& action == JoinAction::Finish(Ok(()))
            },
            _ => after == before && aborts(next, action, JoinError::OutOfOrder),
        }
    }
}

/// The workflow stopped with `error`.
fn abort(error: JoinError) -> (r: (JoinState, JoinAction))
    ensures
        aborts(r.0, r.1, error),
{
    (JoinState::Aborted, JoinAction::Finish(Err(error)))
}

/// The message for the outcome `added` of adding a user to the team `name`.
fn message_for(added: Result<(), TeamError>, name: &String) -> (message: String)
    ensures
        message@ == match added {
            Ok(_) => joined_message(name@),
            Err(_) => refused_message("L'équipe a atteint sa capacité maximale"@),
        },
{
    match added {
        Ok(_) => {
            let mut message = "Vous avez été rajouté à l'équipe: ".to_owned();
            message.append(name.as_str());
            message
        },
        Err(error) => {
            let mut message = "Vous n'avez pas été rajouté à l'équipe: ".to_owned();
            message.append(error.message());
            message
        },
    }
}

impl JoinState {
    /// A workflow that has not begun.
    pub fn new() -> (state: JoinState)
        ensures
            state == JoinState::Start,
    {
        JoinState::Start
    }

    /// Whether the workflow has ended.
    pub fn is_finished(&self) -> (finished: bool)
        ensures
            finished == (self.awaits() == Awaited::Nothing),
    {
        match self {
            JoinState::Done => true,
            JoinState::Aborted => true,
            _ => false,
        }
    }

    /// Takes one step: given the answer `input` to the last action, decides
    /// the next state and the next action, and updates `registry` where the
    /// user became a member.
    ///
    /// An input of another kind than the state waits for ends the workflow
    /// with [`JoinError::OutOfOrder`]. A failure of the platform ends it with
    /// the platform's error.
    pub fn step(self, guild_id: GuildId, registry: &mut Events, input: JoinInput) -> (r: (
        JoinState,
        JoinAction,
    ))
        ensures
            transition(self, guild_id, old(registry)@, input, r.0, r.1, final(registry)@),
            old(registry)@.keyed_by_id(),
            final(registry)@.keyed_by_id(),
    {
        proof {
            use_type_invariant(&*registry);
            registry.lemma_keyed_by_id();
        }
        match (self, input) {
            (JoinState::Start, JoinInput::Invoked) => {
                match registry.menu_nonzero_team(guild_id) {
                    None => (
                        JoinState::Declining,
                        JoinAction::Respond {
                            content:
                                "Veuillez créer une équipe avant d'essayer de rejoindre une équipe.".to_owned(),
                            ephemeral: true,
                            menu: None,
                        },
                    ),
                    Some(menu) => (
                        JoinState::OfferingEvents,
                        JoinAction::Respond {
                            content: "Sélectionnez l'événement que vous voulez rejoindre.".to_owned(),
                            ephemeral: true,
                            menu: Some(menu),
                        },
                    ),
                }
            },
            (JoinState::Declining, JoinInput::Platform(Ok(_))) => (
                JoinState::Done,
                JoinAction::Finish(Ok(())),
            ),
            (JoinState::OfferingEvents, JoinInput::Platform(Ok(_))) => (
                JoinState::AwaitingEventChoice,
                JoinAction::AwaitComponent,
            ),
            (JoinState::AwaitingEventChoice, JoinInput::Component(component)) => {
                match read_event_choice(&component) {
                    Err(error) => abort(error),
                    Ok(event_id) => match registry.get(guild_id, &event_id) {
                        None => abort(JoinError::LookupFailed),
                        Some(event) => (
                            JoinState::OfferingTeams { event_id },
                            JoinAction::Edit {
                                content: "Sélectionnez l'équipe que vous voulez rejoindre.".to_owned(),
                                menu: Some(event.teams.menu()),
                            },
                        ),
                    },
                }
            },
            (JoinState::OfferingTeams { event_id }, JoinInput::Platform(Ok(_))) => (
                JoinState::AwaitingTeamChoice { event_id },
                JoinAction::AwaitComponent,
            ),
            (JoinState::AwaitingTeamChoice { event_id }, JoinInput::Component(component)) => {
                match read_team_choice(&component) {
                    Err(error) => abort(error),
                    Ok(team_id) => match registry.get(guild_id, &event_id) {
                        None => abort(JoinError::LookupFailed),
                        Some(event) => match event.teams.get_team(&team_id) {
                            None => abort(JoinError::LookupFailed),
                            Some(team) => {
                                let participant = component.unwrap().user;
                                let action = JoinAction::Permit {
                                    channel: team.text_channel,
                                    overwrite: PermissionOverwrite::view_channel(participant.id),
                                };
                                (
                                    JoinState::GrantingText { event, team_id, team, participant },
                                    action,
                                )
                            },
                        },
                    },
                }
            },
            (
                JoinState::GrantingText { event, team_id, team, participant },
                JoinInput::Platform(Ok(_)),
            ) => {
                let action = JoinAction::Permit {
                    channel: team.vocal_channel,
                    overwrite: PermissionOverwrite::view_channel(participant.id),
                };
                (JoinState::GrantingVoice { event, team_id, team, participant }, action)
            },
            (
                JoinState::GrantingVoice { event, team_id, team, participant },
                JoinInput::Platform(Ok(_)),
            ) => {
                let mut event = event;
                let added = event.teams.add_participant(team_id, participant);
                let message = message_for(added, &team.name);
                registry.refresh_event(guild_id, &event);
                (JoinState::Refreshing { message }, JoinAction::Refresh { event })
            },
            (JoinState::Refreshing { message }, JoinInput::Platform(Ok(_))) => (
                JoinState::Reporting,
                JoinAction::Edit { content: message, menu: None },
            ),
            (JoinState::Reporting, JoinInput::Platform(Ok(_))) => (
                JoinState::Done,
                JoinAction::Finish(Ok(())),
            ),
            (JoinState::Declining, JoinInput::Platform(Err(error))) => abort(
                JoinError::Platform(error),
            ),
            (JoinState::OfferingEvents, JoinInput::Platform(Err(error))) => abort(
                JoinError::Platform(error),
            ),
            (JoinState::OfferingTeams { .. }, JoinInput::Platform(Err(error))) => abort(
                JoinError::Platform(error),
            ),
            (JoinState::GrantingText { .. }, JoinInput::Platform(Err(error))) => abort(
                JoinError::Platform(error),
            ),
            (JoinState::GrantingVoice { .. }, JoinInput::Platform(Err(error))) => abort(
                JoinError::Platform(error),
            ),
            (JoinState::Refreshing { .. }, JoinInput::Platform(Err(error))) => abort(
                JoinError::Platform(error),
            ),
            (JoinState::Reporting, JoinInput::Platform(Err(error))) => abort(
                JoinError::Platform(error),
            ),
            _ => abort(JoinError::OutOfOrder),
        }
    }
}

impl Phase {
    /// The place of the stage in the course of the workflow.
    pub open spec fn rank(self) -> nat {
        match self {
            Phase::Start => 0,
            Phase::AwaitingEventChoice => 1,
            Phase::AwaitingTeamChoice => 2,
            Phase::Applying => 3,
            Phase::Done => 4,
            Phase::Aborted => 5,
        }
    }
}

/// The workflow never goes back to an earlier stage.
pub proof fn lemma_phase_advances(
    state: JoinState,
    guild_id: GuildId,
    before: EventsView,
    input: JoinInput,
    next: JoinState,
    action: JoinAction,
    after: EventsView,
)
    requires
        transition(state, guild_id, before, input, next, action, after),
    ensures
        state.phase().rank() <= next.phase().rank(),
{
}

impl JoinState {
    /// How far the workflow has come.
    pub open spec fn progress(self) -> nat {
        match self {
            JoinState::Start => 0,
            JoinState::Declining => 1,
            JoinState::OfferingEvents => 1,
            JoinState::AwaitingEventChoice => 2,
            JoinState::OfferingTeams { .. } => 3,
            JoinState::AwaitingTeamChoice { .. } => 4,
            JoinState::GrantingText { .. } => 5,
            JoinState::GrantingVoice { .. } => 6,
            JoinState::Refreshing { .. } => 7,
            JoinState::Reporting => 8,
            JoinState::Done => 9,
            JoinState::Aborted => 10,
        }
    }
}

/// Every step takes the workflow further, until it has aborted: no state is
/// reached twice, so nothing is asked of the platform twice, and the workflow
/// ends after at most ten steps.
pub proof fn lemma_step_makes_progress(
    state: JoinState,
    guild_id: GuildId,
    before: EventsView,
    input: JoinInput,
    next: JoinState,
    action: JoinAction,
    after: EventsView,
)
    requires
        transition(state, guild_id, before, input, next, action, after),
    ensures
        state != JoinState::Aborted ==> state.progress() < next.progress(),
        next.progress() <= 10,
{
}

/// What is asked of the platform goes with the state that is entered: a
/// channel is opened on entering the two granting states only, the text
/// channel first, and the event is refreshed on entering the refreshing state
/// only, after both channels.
pub proof fn lemma_action_goes_with_state(
    state: JoinState,
    guild_id: GuildId,
    before: EventsView,
    input: JoinInput,
    next: JoinState,
    action: JoinAction,
    after: EventsView,
)
    requires
        transition(state, guild_id, before, input, next, action, after),
    ensures
        action is Permit <==> next is GrantingText || next is GrantingVoice,
        next matches JoinState::GrantingText { team, .. } ==> action matches JoinAction::Permit {
            channel,
            ..
        } && channel == team.text_channel,
        next matches JoinState::GrantingVoice { team, .. } ==> action matches JoinAction::Permit {
            channel,
            ..
        } && channel == team.vocal_channel,
        action is Refresh <==> next is Refreshing,
        action is Respond <==> next is Declining || next is OfferingEvents,
        action is Edit <==> next is OfferingTeams || next is Reporting,
        action is AwaitComponent <==> next is AwaitingEventChoice || next is AwaitingTeamChoice,
{
}

/// The registry changes in one step only: when the platform has let the user
/// into the voice channel. Every other step leaves it as it was.
pub proof fn lemma_registry_changes_once(
    state: JoinState,
    guild_id: GuildId,
    before: EventsView,
    input: JoinInput,
    next: JoinState,
    action: JoinAction,
    after: EventsView,
)
    requires
        transition(state, guild_id, before, input, next, action, after),
        !(state is GrantingVoice && input matches JoinInput::Platform(Ok(_))),
    ensures
        after == before,
{
}

/// The workflow ends exactly where it asks to finish: it asks for
/// [`JoinAction::Finish`] if and only if the next state waits for nothing.
pub proof fn lemma_finishes_at_the_end(
    state: JoinState,
    guild_id: GuildId,
    before: EventsView,
    input: JoinInput,
    next: JoinState,
    action: JoinAction,
    after: EventsView,
)
    requires
        transition(state, guild_id, before, input, next, action, after),
    ensures
        action is Finish <==> next.awaits() == Awaited::Nothing,
        action matches JoinAction::Finish(r) ==> (r is Ok <==> next == JoinState::Done),
{
}

/// Invoked where no event of the guild has a team, the workflow answers with
/// the hint to create a team first, and offers no menu.
pub proof fn lemma_nothing_to_join_declines(
    guild_id: GuildId,
    before: EventsView,
    next: JoinState,
    action: JoinAction,
    after: EventsView,
)
    requires
        transition(JoinState::Start, guild_id, before, JoinInput::Invoked, next, action, after),
        !before.has_joinable(guild_id),
    ensures
        next == JoinState::Declining,
        action matches JoinAction::Respond { content, ephemeral, menu } && content@
            == no_teams_message() && ephemeral && menu is None,
        after == before,
{
}

/// Where the chosen team is full, the user is told so, the event is stored
/// and refreshed with its members unchanged, and the workflow goes on.
pub proof fn lemma_full_team_is_reported(
    event: Event,
    team_id: TeamId,
    team: Team,
    participant: Participant,
    guild_id: GuildId,
    before: EventsView,
    next: JoinState,
    action: JoinAction,
    after: EventsView,
)
    requires
        transition(
            JoinState::GrantingVoice { event, team_id, team, participant },
            guild_id,
            before,
            JoinInput::Platform(Ok(())),
            next,
            action,
            after,
        ),
        event@.teams.rejects(team_id.0),
    ensures
        next matches JoinState::Refreshing { message } && message@ == refused_message(
            "L'équipe a atteint sa capacité maximale"@,
        ),
        action matches JoinAction::Refresh { event: e } && e@ == event@,
        after.events == before.events.insert((guild_id, event.id), event@),
{
}

/// The event that the workflow carries after the user chose a team is the
/// event that the user chose before: it has the chosen identifier, so the
/// member is later stored under it.
pub proof fn lemma_carries_chosen_event(
    event_id: ScheduledEventId,
    guild_id: GuildId,
    before: EventsView,
    input: JoinInput,
    next: JoinState,
    action: JoinAction,
    after: EventsView,
)
    requires
        before.keyed_by_id(),
        transition(
            JoinState::AwaitingTeamChoice { event_id },
            guild_id,
            before,
            input,
            next,
            action,
            after,
        ),
    ensures
        next matches JoinState::GrantingText { event, .. } ==> event.id == event_id
            && before.get(guild_id, event_id) == Some(event@),
{
}

} // verus!
