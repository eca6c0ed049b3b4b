use hackathon_teams::events::{Event, Events};
use hackathon_teams::ids::{ChannelId, GuildId, ScheduledEventId, TeamId, UserId};
use hackathon_teams::join::{
    command_description, command_name, read_choice, read_event_choice, read_team_choice, Component,
    ComponentKind, JoinAction, JoinError, JoinInput, JoinState, PermissionOverwrite, Stage,
    VIEW_CHANNEL,
};
use hackathon_teams::participant::Participant;
use hackathon_teams::team::{Team, Teams};
use serenity::builder::{CreateSelectMenu, CreateSelectMenuKind, CreateSelectMenuOption};
use serenity::model::Permissions;

const GUILD: GuildId = GuildId(9);
const E1: ScheduledEventId = ScheduledEventId(1);

fn pick(user: u64, value: &str) -> JoinInput {
    JoinInput::Component(Some(Component {
        user: Participant::new(UserId(user), "user"),
        kind: ComponentKind::StringSelect { values: vec![value.to_string()] },
    }))
}

fn ok() -> JoinInput {
    JoinInput::Platform(Ok(()))
}

fn registry_with(capacity: Option<u32>, members: &[u64]) -> Events {
    let mut teams = Teams::new(capacity);
    let members = members.iter().map(|id| Participant::new(UserId(*id), "m")).collect();
    teams.add_team(Team::new("T0", "first team", members, ChannelId(100), ChannelId(200)));
    let mut registry = Events::new();
    registry.refresh_event(GUILD, &Event::new(E1, GUILD, "E1", teams));
    registry
}

fn members_of_t0(registry: &Events) -> Vec<u64> {
    let event = registry.get(GUILD, &E1).unwrap();
    event.teams.get_team(&TeamId(0)).unwrap().members.iter().map(|p| p.id.0).collect()
}

fn menu(custom_id: &str, label: &str, value: &str) -> CreateSelectMenu {
    CreateSelectMenu::new(
        custom_id,
        CreateSelectMenuKind::String { options: vec![CreateSelectMenuOption::new(label, value)] },
    )
}

/// Runs the workflow for `user` up to the moment the text channel is asked for.
fn until_text_channel(registry: &mut Events, user: u64) -> JoinState {
    let (state, _) = JoinState::new().step(GUILD, registry, JoinInput::Invoked);
    let (state, _) = state.step(GUILD, registry, ok());
    let (state, _) = state.step(GUILD, registry, pick(user, "1"));
    let (state, _) = state.step(GUILD, registry, ok());
    let (state, action) = state.step(GUILD, registry, pick(user, "0"));
    assert!(matches!(action, JoinAction::Permit { .. }));
    state
}

#[test]
fn command_surface() {
    assert_eq!(command_name(), "join");
    assert_eq!(command_description(), "Join a team.");
}

#[test]
fn view_channel_is_the_platforms_bit() {
    assert_eq!(VIEW_CHANNEL, Permissions::VIEW_CHANNEL.bits());
    assert_eq!(
        PermissionOverwrite::view_channel(UserId(3)),
        PermissionOverwrite { allow: 1 << 10, deny: 0, member: UserId(3) }
    );
}

#[test]
fn happy_path() {
    let mut registry = registry_with(Some(4), &[]);

    let (state, action) = JoinState::new().step(GUILD, &mut registry, JoinInput::Invoked);
    assert!(matches!(state, JoinState::OfferingEvents));
    match action {
        JoinAction::Respond { content, ephemeral, menu: offered } => {
            assert_eq!(content, "Sélectionnez l'événement que vous voulez rejoindre.");
            assert!(ephemeral);
            assert_eq!(offered, Some(menu("event", "E1", "1")));
        },
        other => panic!("{:?}", other),
    }

    let (state, action) = state.step(GUILD, &mut registry, ok());
    assert!(matches!(state, JoinState::AwaitingEventChoice));
    assert!(matches!(action, JoinAction::AwaitComponent));

    let (state, action) = state.step(GUILD, &mut registry, pick(42, "1"));
    assert!(matches!(state, JoinState::OfferingTeams { event_id } if event_id == E1));
    match action {
        JoinAction::Edit { content, menu: offered } => {
            assert_eq!(content, "Sélectionnez l'équipe que vous voulez rejoindre.");
            assert_eq!(offered, Some(menu("team", "T0", "0")));
        },
        other => panic!("{:?}", other),
    }

    let (state, action) = state.step(GUILD, &mut registry, ok());
    assert!(matches!(state, JoinState::AwaitingTeamChoice { event_id } if event_id == E1));
    assert!(matches!(action, JoinAction::AwaitComponent));

    let (state, action) = state.step(GUILD, &mut registry, pick(42, "0"));
    assert!(matches!(state, JoinState::GrantingText { .. }));
    match action {
        JoinAction::Permit { channel, overwrite } => {
            assert_eq!(channel, ChannelId(100));
            assert_eq!(overwrite, PermissionOverwrite { allow: 1024, deny: 0, member: UserId(42) });
        },
        other => panic!("{:?}", other),
    }
    assert_eq!(members_of_t0(&registry), Vec::<u64>::new());

    let (state, action) = state.step(GUILD, &mut registry, ok());
    assert!(matches!(state, JoinState::GrantingVoice { .. }));
    match action {
        JoinAction::Permit { channel, overwrite } => {
            assert_eq!(channel, ChannelId(200));
            assert_eq!(overwrite, PermissionOverwrite { allow: 1024, deny: 0, member: UserId(42) });
        },
        other => panic!("{:?}", other),
    }
    assert_eq!(members_of_t0(&registry), Vec::<u64>::new());

    let (state, action) = state.step(GUILD, &mut registry, ok());
    assert!(matches!(state, JoinState::Refreshing { .. }));
    match action {
        JoinAction::Refresh { event } => {
            assert_eq!(event.id, E1);
            assert!(event.teams.get_team(&TeamId(0)).unwrap().contains(UserId(42)));
        },
        other => panic!("{:?}", other),
    }
    assert_eq!(members_of_t0(&registry), vec![42]);

    let (state, action) = state.step(GUILD, &mut registry, ok());
    assert!(matches!(state, JoinState::Reporting));
    match action {
        JoinAction::Edit { content, menu: offered } => {
            assert_eq!(content, "Vous avez été rajouté à l'équipe: T0");
            assert_eq!(offered, None);
        },
        other => panic!("{:?}", other),
    }

    let (state, action) = state.step(GUILD, &mut registry, ok());
    assert!(matches!(state, JoinState::Done));
    assert!(state.is_finished());
    assert!(matches!(action, JoinAction::Finish(Ok(()))));
    assert_eq!(members_of_t0(&registry), vec![42]);
}

#[test]
fn no_teams() {
    let mut registry = Events::new();
    let (state, action) = JoinState::new().step(GUILD, &mut registry, JoinInput::Invoked);
    assert!(matches!(state, JoinState::Declining));
    assert!(!state.is_finished());
    match action {
        JoinAction::Respond { content, ephemeral, menu: offered } => {
            assert_eq!(content, "Veuillez créer une équipe avant d'essayer de rejoindre une équipe.");
            assert!(ephemeral);
            assert_eq!(offered, None);
        },
        other => panic!("{:?}", other),
    }
    let (state, action) = state.step(GUILD, &mut registry, ok());
    assert!(matches!(state, JoinState::Done));
    assert!(matches!(action, JoinAction::Finish(Ok(()))));
}

#[test]
fn no_teams_when_events_have_none() {
    let mut registry = Events::new();
    registry.refresh_event(GUILD, &Event::new(E1, GUILD, "E1", Teams::default()));
    let (state, action) = JoinState::new().step(GUILD, &mut registry, JoinInput::Invoked);
    assert!(matches!(state, JoinState::Declining));
    assert!(matches!(action, JoinAction::Respond { menu: None, .. }));
}

#[test]
fn capacity_reached() {
    let mut registry = registry_with(Some(2), &[1, 2]);
    let state = until_text_channel(&mut registry, 7);
    let (state, action) = state.step(GUILD, &mut registry, ok());
    assert!(matches!(action, JoinAction::Permit { channel, .. } if channel == ChannelId(200)));
    let (state, action) = state.step(GUILD, &mut registry, ok());
    match action {
        JoinAction::Refresh { event } => {
            assert!(!event.teams.get_team(&TeamId(0)).unwrap().contains(UserId(7)));
        },
        other => panic!("{:?}", other),
    }
    assert_eq!(members_of_t0(&registry), vec![1, 2]);
    let (state, action) = state.step(GUILD, &mut registry, ok());
    match action {
        JoinAction::Edit { content, menu: offered } => {
            assert_eq!(
                content,
                "Vous n'avez pas été rajouté à l'équipe: L'équipe a atteint sa capacité maximale"
            );
            assert_eq!(offered, None);
        },
        other => panic!("{:?}", other),
    }
    let (state, action) = state.step(GUILD, &mut registry, ok());
    assert!(matches!(state, JoinState::Done));
    assert!(matches!(action, JoinAction::Finish(Ok(()))));
}

#[test]
fn team_vanished_between_steps() {
    let mut registry = registry_with(Some(4), &[]);
    let (state, _) = JoinState::new().step(GUILD, &mut registry, JoinInput::Invoked);
    let (state, _) = state.step(GUILD, &mut registry, ok());
    let (state, _) = state.step(GUILD, &mut registry, pick(42, "1"));
    let (state, _) = state.step(GUILD, &mut registry, ok());
    let mut event = registry.get(GUILD, &E1).unwrap();
    event.teams.delete(&TeamId(0));
    registry.refresh_event(GUILD, &event);
    let (state, action) = state.step(GUILD, &mut registry, pick(42, "0"));
    assert!(matches!(state, JoinState::Aborted));
    assert!(state.is_finished());
    assert!(matches!(action, JoinAction::Finish(Err(JoinError::LookupFailed))));
}

#[test]
fn event_vanished_between_steps() {
    let mut registry = registry_with(Some(4), &[]);
    let (state, _) = JoinState::new().step(GUILD, &mut registry, JoinInput::Invoked);
    let (state, _) = state.step(GUILD, &mut registry, ok());
    registry.remove(GUILD, &E1);
    let (state, action) = state.step(GUILD, &mut registry, pick(42, "1"));
    assert!(matches!(state, JoinState::Aborted));
    assert!(matches!(action, JoinAction::Finish(Err(JoinError::LookupFailed))));
}

#[test]
fn collector_timeout_on_team_stage() {
    let mut registry = registry_with(Some(4), &[]);
    let (state, _) = JoinState::new().step(GUILD, &mut registry, JoinInput::Invoked);
    let (state, _) = state.step(GUILD, &mut registry, ok());
    let (state, _) = state.step(GUILD, &mut registry, pick(42, "1"));
    let (state, _) = state.step(GUILD, &mut registry, ok());
    let (state, action) = state.step(GUILD, &mut registry, JoinInput::Component(None));
    assert!(matches!(state, JoinState::Aborted));
    match action {
        JoinAction::Finish(Err(error)) => {
            assert!(matches!(error, JoinError::SelectionFailed(Stage::Team)));
            assert!(matches!(error.into_error(), serenity::Error::Other("Team selection failed.")));
        },
        other => panic!("{:?}", other),
    }
    assert_eq!(members_of_t0(&registry), Vec::<u64>::new());
}

#[test]
fn collector_timeout_on_event_stage() {
    let mut registry = registry_with(Some(4), &[]);
    let (state, _) = JoinState::new().step(GUILD, &mut registry, JoinInput::Invoked);
    let (state, _) = state.step(GUILD, &mut registry, ok());
    let (state, action) = state.step(GUILD, &mut registry, JoinInput::Component(None));
    assert!(matches!(state, JoinState::Aborted));
    match action {
        JoinAction::Finish(Err(error)) => {
            assert!(matches!(error.into_error(), serenity::Error::Other("Event selection failed.")));
        },
        other => panic!("{:?}", other),
    }
}

#[test]
fn event_choice_must_be_a_nonzero_number() {
    for value in ["0", "abc", "", "-1", "1.5"] {
        let mut registry = registry_with(Some(4), &[]);
        let (state, action) = JoinState::AwaitingEventChoice.step(GUILD, &mut registry, pick(42, value));
        assert!(matches!(state, JoinState::Aborted), "{:?}", value);
        assert!(matches!(action, JoinAction::Finish(Err(JoinError::SelectionFailed(Stage::Event)))));
    }
}

#[test]
fn team_choice_must_be_a_number() {
    for value in ["abc", "", "-1", "18446744073709551616"] {
        let mut registry = registry_with(Some(4), &[]);
        let state = JoinState::AwaitingTeamChoice { event_id: E1 };
        let (state, action) = state.step(GUILD, &mut registry, pick(42, value));
        assert!(matches!(state, JoinState::Aborted), "{:?}", value);
        assert!(matches!(action, JoinAction::Finish(Err(JoinError::SelectionFailed(Stage::Team)))));
    }
}

#[test]
fn other_components_fail_the_selection() {
    let mut registry = registry_with(Some(4), &[]);
    let other = |user: u64| {
        JoinInput::Component(Some(Component {
            user: Participant::new(UserId(user), "user"),
            kind: ComponentKind::Other,
        }))
    };
    let (_, action) = JoinState::AwaitingEventChoice.step(GUILD, &mut registry, other(1));
    assert!(matches!(action, JoinAction::Finish(Err(JoinError::SelectionFailed(Stage::Event)))));
    let state = JoinState::AwaitingTeamChoice { event_id: E1 };
    let (_, action) = state.step(GUILD, &mut registry, other(1));
    assert!(matches!(action, JoinAction::Finish(Err(JoinError::SelectionFailed(Stage::Team)))));
}

#[test]
fn a_select_without_values_fails_the_selection() {
    let mut registry = registry_with(Some(4), &[]);
    let empty = JoinInput::Component(Some(Component {
        user: Participant::new(UserId(1), "user"),
        kind: ComponentKind::StringSelect { values: vec![] },
    }));
    let (state, action) = JoinState::AwaitingEventChoice.step(GUILD, &mut registry, empty);
    assert!(matches!(state, JoinState::Aborted));
    assert!(matches!(action, JoinAction::Finish(Err(JoinError::SelectionFailed(Stage::Event)))));
}

#[test]
fn only_the_first_value_counts() {
    let two = Some(Component {
        user: Participant::new(UserId(1), "user"),
        kind: ComponentKind::StringSelect { values: vec!["12".to_string(), "x".to_string()] },
    });
    assert_eq!(read_choice(&two), Some(12));
    assert!(matches!(read_event_choice(&two), Ok(ScheduledEventId(12))));
    assert!(matches!(read_team_choice(&two), Ok(TeamId(12))));
    assert_eq!(read_choice(&None), None);
}

#[test]
fn unknown_team_is_a_failed_lookup() {
    let mut registry = registry_with(Some(4), &[]);
    let state = JoinState::AwaitingTeamChoice { event_id: E1 };
    let (state, action) = state.step(GUILD, &mut registry, pick(42, "5"));
    assert!(matches!(state, JoinState::Aborted));
    match action {
        JoinAction::Finish(Err(error)) => {
            assert!(matches!(error, JoinError::LookupFailed));
            assert!(matches!(error.into_error(), serenity::Error::Other("Event joining failed.")));
        },
        other => panic!("{:?}", other),
    }
}

#[test]
fn platform_errors_are_handed_on_unchanged() {
    let mut registry = registry_with(Some(4), &[]);
    let state = until_text_channel(&mut registry, 42);
    let failure = JoinInput::Platform(Err(serenity::Error::Other("boom")));
    let (state, action) = state.step(GUILD, &mut registry, failure);
    assert!(matches!(state, JoinState::Aborted));
    match action {
        JoinAction::Finish(Err(JoinError::Platform(error))) => {
            assert!(matches!(error, serenity::Error::Other("boom")));
        },
        other => panic!("{:?}", other),
    }
    assert_eq!(members_of_t0(&registry), Vec::<u64>::new());
}

#[test]
fn voice_failure_leaves_membership_alone() {
    let mut registry = registry_with(Some(4), &[]);
    let state = until_text_channel(&mut registry, 42);
    let (state, _) = state.step(GUILD, &mut registry, ok());
    let failure = JoinInput::Platform(Err(serenity::Error::Url("bad".to_string())));
    let (state, action) = state.step(GUILD, &mut registry, failure);
    assert!(matches!(state, JoinState::Aborted));
    match action {
        JoinAction::Finish(Err(error)) => {
            assert!(matches!(error.into_error(), serenity::Error::Url(text) if text == "bad"));
        },
        other => panic!("{:?}", other),
    }
    assert_eq!(members_of_t0(&registry), Vec::<u64>::new());
}

#[test]
fn failed_first_response_aborts() {
    let mut registry = Events::new();
    let (state, _) = JoinState::new().step(GUILD, &mut registry, JoinInput::Invoked);
    let failure = JoinInput::Platform(Err(serenity::Error::Other("down")));
    let (state, action) = state.step(GUILD, &mut registry, failure);
    assert!(matches!(state, JoinState::Aborted));
    assert!(matches!(action, JoinAction::Finish(Err(JoinError::Platform(_)))));
}

#[test]
fn inputs_out_of_order_abort() {
    let mut registry = registry_with(Some(4), &[]);
    let (state, action) = JoinState::new().step(GUILD, &mut registry, ok());
    assert!(matches!(state, JoinState::Aborted));
    match action {
        JoinAction::Finish(Err(error)) => {
            assert!(matches!(error, JoinError::OutOfOrder));
            assert!(matches!(
                error.into_error(),
                serenity::Error::Other("Event joining went out of order.")
            ));
        },
        other => panic!("{:?}", other),
    }
    let (state, action) = JoinState::AwaitingEventChoice.step(GUILD, &mut registry, JoinInput::Invoked);
    assert!(matches!(state, JoinState::Aborted));
    assert!(matches!(action, JoinAction::Finish(Err(JoinError::OutOfOrder))));
    let (state, action) = JoinState::Done.step(GUILD, &mut registry, ok());
    assert!(matches!(state, JoinState::Aborted));
    assert!(matches!(action, JoinAction::Finish(Err(JoinError::OutOfOrder))));
    let (_, action) = JoinState::Reporting.step(GUILD, &mut registry, pick(1, "1"));
    assert!(matches!(action, JoinAction::Finish(Err(JoinError::OutOfOrder))));
}

#[test]
fn stage_messages() {
    assert_eq!(Stage::Event.message(), "Event selection failed.");
    assert_eq!(Stage::Team.message(), "Team selection failed.");
}

#[test]
fn joining_twice_adds_the_user_twice() {
    let mut registry = registry_with(None, &[42]);
    let state = until_text_channel(&mut registry, 42);
    let (state, _) = state.step(GUILD, &mut registry, ok());
    let (_, _) = state.step(GUILD, &mut registry, ok());
    assert_eq!(members_of_t0(&registry), vec![42, 42]);
}
