use hackathon_teams::ids::ChannelId;
use hackathon_teams::preference::Preference;

#[test]
fn default_preference_has_nothing_set() {
    let p = Preference::default();
    assert_eq!(p.get_hackathon_channel(), None);
    assert_eq!(p.get_hackathon_category(), None);
}

#[test]
fn editing_one_setting_keeps_the_other() {
    let mut p = Preference::default();
    p.edit_hackathon_channel(ChannelId(11));
    assert_eq!(p.get_hackathon_channel(), Some(ChannelId(11)));
    assert_eq!(p.get_hackathon_category(), None);
    p.edit_hackathon_category(ChannelId(22));
    assert_eq!(p.get_hackathon_channel(), Some(ChannelId(11)));
    assert_eq!(p.get_hackathon_category(), Some(ChannelId(22)));
    p.edit_hackathon_channel(ChannelId(33));
    assert_eq!(p.get_hackathon_channel(), Some(ChannelId(33)));
    assert_eq!(p.get_hackathon_category(), Some(ChannelId(22)));
}

#[test]
fn preference_new_sets_both() {
    let p = Preference::new(Some(ChannelId(1)), None);
    assert_eq!(p.get_hackathon_channel(), Some(ChannelId(1)));
    assert_eq!(p.get_hackathon_category(), None);
}
