use chat_fanout::scope::ChannelScope;

#[test]
fn global_subscription_observes_every_scope() {
    assert!(ChannelScope::Global.matches(&ChannelScope::Global));
    assert!(ChannelScope::Global.matches(&ChannelScope::Room(7)));
}

#[test]
fn room_subscription_observes_only_its_room() {
    assert!(ChannelScope::Room(7).matches(&ChannelScope::Room(7)));
    assert!(!ChannelScope::Room(7).matches(&ChannelScope::Room(8)));
    assert!(!ChannelScope::Room(7).matches(&ChannelScope::Global));
}
