use maolan_plugins::reverb::gui::{App, ChannelMode};

#[test]
fn channel_mode_from_count() {
    assert_eq!(ChannelMode::from(0), ChannelMode::Mono);
    assert_eq!(ChannelMode::from(1), ChannelMode::Mono);
    assert_eq!(ChannelMode::from(2), ChannelMode::Stereo);
    assert_eq!(ChannelMode::from(9), ChannelMode::Stereo);
    assert_eq!(ChannelMode::Stereo.channel_count(), 2);
    assert_eq!(ChannelMode::from(ChannelMode::Mono.channel_count()), ChannelMode::Mono);
    assert_eq!(ChannelMode::Mono.label(), "Mono");
}

#[test]
fn reverb_editor_window() {
    assert_eq!(App::title(), "Maolan Reverb");
    assert_eq!(App::size(), (540, 340));
    assert!(!App::always_redraw());
    assert!(App::notify_closed_on_hide());
    assert!(App::opens_parented_window());
}
