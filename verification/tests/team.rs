use hackathon_teams::ids::{ChannelId, TeamId, UserId};
use hackathon_teams::menu::{select_menu, SelectOption};
use hackathon_teams::participant::Participant;
use hackathon_teams::team::{Team, TeamError, Teams};
use serenity::builder::{CreateSelectMenu, CreateSelectMenuKind, CreateSelectMenuOption};

fn member(id: u64, name: &str) -> Participant {
    Participant::new(UserId(id), name)
}

fn team(name: &str, members: Vec<Participant>) -> Team {
    Team::new(name, "desc", members, ChannelId(100), ChannelId(200))
}

fn ids_of(team: &Team) -> Vec<u64> {
    team.members.iter().map(|p| p.id.0).collect()
}

#[test]
fn participant_keeps_id_and_name() {
    let p = member(42, "Ada");
    assert_eq!(p.id, UserId(42));
    assert_eq!(p.display, "Ada");
    assert_eq!(p.to_string(), "Ada");
    let q = p.clone();
    assert_eq!(q.id, UserId(42));
    assert_eq!(q.display, "Ada");
}

#[test]
fn participants_are_equal_by_id() {
    assert!(member(1, "a") == member(1, "b"));
    assert!(member(1, "a") != member(2, "a"));
}

#[test]
fn team_new_keeps_fields() {
    let t = Team::new("Rust", "systems", vec![member(1, "a"), member(2, "b")], ChannelId(10), ChannelId(20));
    assert_eq!(t.name, "Rust");
    assert_eq!(t.description, "systems");
    assert_eq!(ids_of(&t), vec![1, 2]);
    assert_eq!(t.text_channel, ChannelId(10));
    assert_eq!(t.vocal_channel, ChannelId(20));
}

#[test]
fn team_contains_its_members_only() {
    let t = team("T", vec![member(1, "a"), member(2, "b")]);
    assert!(t.contains(UserId(1)));
    assert!(t.contains(UserId(2)));
    assert!(!t.contains(UserId(3)));
    assert!(!team("E", vec![]).contains(UserId(1)));
}

#[test]
fn team_header_and_listing() {
    let t = Team::new("Rust", "systems", vec![member(1, "Ada"), member(2, "Bob")], ChannelId(1), ChannelId(2));
    assert_eq!(t.to_string(), "**Rust**: systems");
    assert_eq!(t.listing(), "**Rust**: systems\nParticipants: Ada Bob \n");
    assert_eq!(team("E", vec![]).listing(), "**E**: desc\nParticipants: \n");
}

#[test]
fn team_without_drops_every_record_of_the_user() {
    let t = team("T", vec![member(1, "a"), member(2, "b"), member(1, "c"), member(3, "d")]);
    let t = t.without(UserId(1));
    assert_eq!(ids_of(&t), vec![2, 3]);
    assert_eq!(t.name, "T");
    assert_eq!(t.text_channel, ChannelId(100));
}

#[test]
fn team_clone_is_a_copy() {
    let t = team("T", vec![member(1, "a")]);
    let c = t.clone();
    assert_eq!(c.name, "T");
    assert_eq!(c.description, "desc");
    assert_eq!(ids_of(&c), vec![1]);
    assert_eq!(c.vocal_channel, ChannelId(200));
}

#[test]
fn default_teams_are_empty_and_unlimited() {
    let teams = Teams::default();
    assert!(teams.is_empty());
    assert_eq!(teams.len(), 0);
    assert_eq!(teams.capacity(), None);
    assert!(teams.get_team(&TeamId(0)).is_none());
    assert_eq!(teams.to_string(), "");
    assert!(teams.iter().is_empty());
}

#[test]
fn add_team_numbers_teams_by_size() {
    let mut teams = Teams::new(Some(3));
    teams.add_team(team("A", vec![]));
    teams.add_team(team("B", vec![]));
    assert_eq!(teams.len(), 2);
    assert!(!teams.is_empty());
    assert_eq!(teams.capacity(), Some(3));
    assert_eq!(teams.get_team(&TeamId(0)).unwrap().name, "A");
    assert_eq!(teams.get_team(&TeamId(1)).unwrap().name, "B");
    assert!(teams.get_team(&TeamId(2)).is_none());
}

#[test]
fn add_team_after_delete_reuses_an_identifier() {
    let mut teams = Teams::default();
    teams.add_team(team("A", vec![]));
    teams.add_team(team("B", vec![]));
    teams.add_team(team("C", vec![]));
    assert_eq!(teams.delete(&TeamId(0)).unwrap().name, "A");
    teams.add_team(team("D", vec![]));
    assert_eq!(teams.len(), 2);
    assert_eq!(teams.get_team(&TeamId(2)).unwrap().name, "D");
    assert_eq!(teams.get_team(&TeamId(1)).unwrap().name, "B");
}

#[test]
fn delete_returns_the_team_once() {
    let mut teams = Teams::default();
    teams.add_team(team("A", vec![member(1, "a")]));
    let gone = teams.delete(&TeamId(0)).unwrap();
    assert_eq!(gone.name, "A");
    assert_eq!(ids_of(&gone), vec![1]);
    assert!(teams.delete(&TeamId(0)).is_none());
    assert!(teams.is_empty());
}

#[test]
fn add_participant_appends_in_order() {
    let mut teams = Teams::new(Some(4));
    teams.add_team(team("A", vec![]));
    assert_eq!(teams.add_participant(TeamId(0), member(42, "x")), Ok(()));
    assert_eq!(teams.add_participant(TeamId(0), member(7, "y")), Ok(()));
    let t = teams.get_team(&TeamId(0)).unwrap();
    assert_eq!(ids_of(&t), vec![42, 7]);
    assert!(t.contains(UserId(42)));
}

#[test]
fn add_participant_at_capacity_is_refused() {
    let mut teams = Teams::new(Some(2));
    teams.add_team(team("A", vec![member(1, "a"), member(2, "b")]));
    assert_eq!(teams.add_participant(TeamId(0), member(7, "c")), Err(TeamError::CapacityReached));
    let t = teams.get_team(&TeamId(0)).unwrap();
    assert_eq!(ids_of(&t), vec![1, 2]);
    assert!(!t.contains(UserId(7)));
}

#[test]
fn add_participant_just_below_capacity_is_accepted() {
    let mut teams = Teams::new(Some(2));
    teams.add_team(team("A", vec![member(1, "a")]));
    assert_eq!(teams.add_participant(TeamId(0), member(2, "b")), Ok(()));
    assert_eq!(teams.add_participant(TeamId(0), member(3, "c")), Err(TeamError::CapacityReached));
    assert_eq!(ids_of(&teams.get_team(&TeamId(0)).unwrap()), vec![1, 2]);
}

#[test]
fn capacity_zero_refuses_every_member() {
    let mut teams = Teams::new(Some(0));
    teams.add_team(team("A", vec![]));
    assert_eq!(teams.add_participant(TeamId(0), member(1, "a")), Err(TeamError::CapacityReached));
}

#[test]
fn membership_never_exceeds_capacity() {
    let mut teams = Teams::new(Some(3));
    teams.add_team(team("A", vec![]));
    teams.add_team(team("B", vec![]));
    for n in 0..20u64 {
        let _ = teams.add_participant(TeamId(n % 3), member(n + 1, "m"));
        for (_, t) in teams.iter() {
            assert!(t.members.len() <= 3);
        }
    }
    assert_eq!(teams.get_team(&TeamId(0)).unwrap().members.len(), 3);
    assert_eq!(teams.get_team(&TeamId(1)).unwrap().members.len(), 3);
}

#[test]
fn add_participant_to_missing_team_changes_nothing() {
    let mut teams = Teams::new(Some(1));
    teams.add_team(team("A", vec![member(1, "a")]));
    assert_eq!(teams.add_participant(TeamId(9), member(2, "b")), Ok(()));
    assert_eq!(teams.len(), 1);
    assert!(teams.get_team(&TeamId(9)).is_none());
    assert_eq!(ids_of(&teams.get_team(&TeamId(0)).unwrap()), vec![1]);
}

#[test]
fn add_participant_does_not_look_for_duplicates() {
    let mut teams = Teams::default();
    teams.add_team(team("A", vec![]));
    assert_eq!(teams.add_participant(TeamId(0), member(1, "a")), Ok(()));
    assert_eq!(teams.add_participant(TeamId(0), member(1, "a")), Ok(()));
    assert_eq!(ids_of(&teams.get_team(&TeamId(0)).unwrap()), vec![1, 1]);
}

#[test]
fn remove_participant_is_idempotent() {
    let mut teams = Teams::default();
    teams.add_team(team("A", vec![member(1, "a"), member(2, "b"), member(1, "c")]));
    teams.remove_participant(TeamId(0), UserId(1));
    assert_eq!(ids_of(&teams.get_team(&TeamId(0)).unwrap()), vec![2]);
    teams.remove_participant(TeamId(0), UserId(1));
    assert_eq!(ids_of(&teams.get_team(&TeamId(0)).unwrap()), vec![2]);
    teams.remove_participant(TeamId(5), UserId(2));
    assert_eq!(teams.len(), 1);
    assert_eq!(ids_of(&teams.get_team(&TeamId(0)).unwrap()), vec![2]);
}

#[test]
fn capacity_error_message() {
    assert_eq!(TeamError::CapacityReached.message(), "L'équipe a atteint sa capacité maximale");
    assert_eq!(TeamError::CapacityReached.to_string(), "L'équipe a atteint sa capacité maximale");
}

#[test]
fn iter_hands_out_every_team_once() {
    let mut teams = Teams::default();
    teams.add_team(team("A", vec![]));
    teams.add_team(team("B", vec![member(1, "a")]));
    teams.add_team(team("C", vec![]));
    let mut seen: Vec<(u64, String)> = teams.iter().into_iter().map(|(id, t)| (id.0, t.name)).collect();
    seen.sort();
    assert_eq!(seen, vec![(0, "A".to_string()), (1, "B".to_string()), (2, "C".to_string())]);
}

#[test]
fn menu_options_name_each_team() {
    let mut teams = Teams::default();
    teams.add_team(team("A", vec![]));
    teams.add_team(team("B", vec![]));
    let mut options: Vec<(String, String)> =
        teams.menu_options().into_iter().map(|o| (o.label, o.value)).collect();
    options.sort();
    assert_eq!(options, vec![("A".to_string(), "0".to_string()), ("B".to_string(), "1".to_string())]);
}

#[test]
fn menu_without_user_omits_exactly_the_users_teams() {
    let mut teams = Teams::default();
    teams.add_team(team("A", vec![member(1, "a")]));
    teams.add_team(team("B", vec![member(2, "b")]));
    teams.add_team(team("C", vec![member(1, "a"), member(2, "b")]));
    teams.add_team(team("D", vec![]));
    let mut values: Vec<String> =
        teams.menu_options_without_user(UserId(1)).into_iter().map(|o| o.value).collect();
    values.sort();
    assert_eq!(values, vec!["1".to_string(), "3".to_string()]);
    let mut all: Vec<String> =
        teams.menu_options_without_user(UserId(9)).into_iter().map(|o| o.value).collect();
    all.sort();
    assert_eq!(all, vec!["0", "1", "2", "3"]);
}

#[test]
fn select_menu_builds_the_platform_menu() {
    let options = vec![SelectOption::new("A", "0"), SelectOption::new("B", "1")];
    let expected = CreateSelectMenu::new(
        "team",
        CreateSelectMenuKind::String {
            options: vec![CreateSelectMenuOption::new("A", "0"), CreateSelectMenuOption::new("B", "1")],
        },
    );
    assert_eq!(select_menu("team", &options), expected);
    assert_ne!(select_menu("event", &options), expected);
    assert_ne!(select_menu("team", &vec![SelectOption::new("A", "0")]), expected);
}

#[test]
fn team_menu_offers_the_team() {
    let mut teams = Teams::default();
    teams.add_team(team("T0", vec![member(5, "e")]));
    let expected = CreateSelectMenu::new(
        "team",
        CreateSelectMenuKind::String { options: vec![CreateSelectMenuOption::new("T0", "0")] },
    );
    assert_eq!(teams.menu(), expected);
    assert_eq!(teams.menu_without_user(UserId(6)), expected);
    let empty = CreateSelectMenu::new("team", CreateSelectMenuKind::String { options: vec![] });
    assert_eq!(teams.menu_without_user(UserId(5)), empty);
    assert_eq!(Teams::default().menu(), empty);
}

#[test]
fn teams_listing_shows_each_team() {
    let mut teams = Teams::default();
    teams.add_team(Team::new("A", "first", vec![member(1, "Ada"), member(2, "Bob")], ChannelId(1), ChannelId(2)));
    assert_eq!(teams.to_string(), "**A**: first\nParticipants: Ada Bob \n");
    teams.add_team(Team::new("B", "second", vec![], ChannelId(3), ChannelId(4)));
    let text = teams.to_string();
    let a = "**A**: first\nParticipants: Ada Bob \n";
    let b = "**B**: second\nParticipants: \n";
    assert!(text == format!("{}{}", a, b) || text == format!("{}{}", b, a));
}

#[test]
fn teams_clone_is_a_copy() {
    let mut teams = Teams::new(Some(2));
    teams.add_team(team("A", vec![member(1, "a")]));
    let mut copy = teams.clone();
    assert_eq!(copy.capacity(), Some(2));
    assert_eq!(ids_of(&copy.get_team(&TeamId(0)).unwrap()), vec![1]);
    copy.add_participant(TeamId(0), member(2, "b")).unwrap();
    assert_eq!(ids_of(&teams.get_team(&TeamId(0)).unwrap()), vec![1]);
}

#[test]
fn restore_gives_back_what_iter_handed_out() {
    let mut teams = Teams::new(Some(5));
    teams.add_team(team("A", vec![member(1, "a")]));
    teams.add_team(team("B", vec![]));
    teams.add_team(team("C", vec![member(2, "b"), member(3, "c")]));
    teams.delete(&TeamId(1));
    let restored = Teams::restore(teams.capacity(), teams.iter());
    assert_eq!(restored.capacity(), Some(5));
    assert_eq!(restored.len(), 2);
    assert_eq!(restored.get_team(&TeamId(0)).unwrap().name, "A");
    assert_eq!(ids_of(&restored.get_team(&TeamId(0)).unwrap()), vec![1]);
    assert!(restored.get_team(&TeamId(1)).is_none());
    assert_eq!(ids_of(&restored.get_team(&TeamId(2)).unwrap()), vec![2, 3]);
}

#[test]
fn restore_lets_the_later_team_stand() {
    let restored = Teams::restore(
        None,
        vec![(TeamId(4), team("A", vec![])), (TeamId(7), team("B", vec![])), (TeamId(4), team("C", vec![]))],
    );
    assert_eq!(restored.len(), 2);
    assert_eq!(restored.get_team(&TeamId(4)).unwrap().name, "C");
    assert_eq!(restored.get_team(&TeamId(7)).unwrap().name, "B");
    assert!(Teams::restore(Some(1), vec![]).is_empty());
}

#[test]
fn contains_after_add_follows_capacity_and_existence() {
    let mut teams = Teams::new(Some(1));
    teams.add_team(team("A", vec![]));
    teams.add_team(team("B", vec![member(9, "z")]));
    teams.add_participant(TeamId(0), member(5, "e")).unwrap();
    assert!(teams.get_team(&TeamId(0)).unwrap().contains(UserId(5)));
    assert!(teams.add_participant(TeamId(1), member(5, "e")).is_err());
    assert!(!teams.get_team(&TeamId(1)).unwrap().contains(UserId(5)));
    teams.add_participant(TeamId(2), member(5, "e")).unwrap();
    assert!(teams.get_team(&TeamId(2)).is_none());
}
