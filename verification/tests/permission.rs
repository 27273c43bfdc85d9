use agent_core::permission::PermissionMode;

#[test]
fn ids_are_the_user_facing_spelling() {
    assert_eq!(PermissionMode::default(), PermissionMode::Default);
    assert_eq!(PermissionMode::BypassPermissions.id(), "full-access");
    assert_eq!(PermissionMode::AcceptEdits.id(), "accept-edits");
    assert_eq!(PermissionMode::Plan.id(), "read-only");
}

#[test]
fn every_mode_round_trips_through_its_id() {
    for mode in [
        PermissionMode::Default,
        PermissionMode::AcceptEdits,
        PermissionMode::DontAsk,
        PermissionMode::BypassPermissions,
        PermissionMode::Plan,
    ] {
        assert_eq!(PermissionMode::from_id(mode.id()), Some(mode));
    }
    assert_eq!(PermissionMode::from_id("nothing"), None);
}
