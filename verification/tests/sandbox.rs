use agent_core::sandbox::{
    normalize, SandboxPolicy, WritableRoot, WriteRefusal, FULL_ACCESS_ID, READ_ONLY_ID,
    WORKSPACE_WRITE_ID,
};

fn policy() -> SandboxPolicy {
    SandboxPolicy::workspace_write("/work/repo", &["/tmp/scratch"], &[".git", ".pyxis"])
}

#[test]
fn every_variant_carries_its_own_data() {
    assert_eq!(SandboxPolicy::DangerFullAccess.id(), FULL_ACCESS_ID);
    assert!(SandboxPolicy::DangerFullAccess.network_access());
    assert!(!SandboxPolicy::DangerFullAccess.confines_writes());

    let read_only = SandboxPolicy::ReadOnly { network_access: false };
    assert_eq!(read_only.id(), READ_ONLY_ID);
    assert!(!read_only.network_access());
    assert!(read_only.writable_roots().is_empty());

    let ws = policy();
    assert_eq!(ws.id(), WORKSPACE_WRITE_ID);
    assert_eq!(ws.writable_roots().len(), 2);
}

#[test]
fn read_only_refuses_every_write_and_names_itself() {
    let read_only = SandboxPolicy::ReadOnly { network_access: false };
    let refusal = read_only
        .write_refusal("/work/repo/src/main.rs")
        .expect("read-only refuses");
    assert_eq!(refusal, WriteRefusal::ReadOnlyPolicy);
    assert!(refusal.message().contains(READ_ONLY_ID));
}

#[test]
fn full_access_refuses_nothing() {
    assert!(SandboxPolicy::DangerFullAccess.write_refusal("/etc/passwd").is_none());
}

#[test]
fn workspace_write_subtracts_declared_subpaths() {
    let ws = policy();
    assert!(ws.write_refusal("/work/repo/src/main.rs").is_none());
    assert!(ws.write_refusal("/tmp/scratch/x").is_none());
    assert!(ws.write_refusal("/work/repo/.gitignore").is_none());
    for refused in [
        "/work/repo/.git",
        "/work/repo/.git/hooks/pre-commit",
        "/work/repo/.pyxis/config.toml",
        "/work/repo/src/../.git/config",
    ] {
        let refusal = ws.write_refusal(refused);
        assert!(
            matches!(refusal, Some(WriteRefusal::ReadOnlySubpath(_))),
            "{refused} must be refused: {refusal:?}"
        );
    }
}

#[test]
fn a_path_outside_every_root_is_not_the_policys_business() {
    assert!(policy().write_refusal("/etc/passwd").is_none());
}

#[test]
fn subpaths_belong_to_the_root_that_declares_them() {
    let ws = policy();
    assert!(ws.write_refusal("/tmp/scratch/.git/config").is_none());
}

#[test]
fn ids_round_trip_through_configuration() {
    for id in SandboxPolicy::ids() {
        let parsed = SandboxPolicy::from_id(id, "/work/repo", &[], &[".git"]);
        assert_eq!(parsed.as_ref().map(SandboxPolicy::id), Some(id));
    }
    assert!(SandboxPolicy::from_id("nope", "/w", &[], &[]).is_none());
}

#[test]
fn is_path_writable_is_the_root_level_primitive() {
    let root = WritableRoot::new("/work/repo").with_read_only_subpaths(&[".git", ".pyxis"]);
    assert!(root.is_path_writable("/work/repo/src/lib.rs"));
    assert!(!root.is_path_writable("/work/repo/.git/config"));
    assert!(!root.is_path_writable("/elsewhere/x"));
}

#[test]
fn a_normal_path_is_its_own_normal_form() {
    for path in ["/a/../../b/./c", "a/b/../c", "../x/..", "/", ""] {
        let once = normalize(path);
        assert_eq!(normalize(&once), once);
    }
    assert_eq!(normalize("/a/./b/../c"), "/a/c");
}

#[test]
fn a_zone_is_found_however_the_path_is_spelled() {
    let zone = |path: &str| policy().read_only_zone(path);
    for spelling in [
        "/work/repo/.git/config",
        "/work/repo/src/../.git/config",
        "/work/./repo//.git/config",
        "/work/other/../repo/.git/config",
    ] {
        assert_eq!(zone(spelling).as_deref(), Some(".git"), "{spelling}");
    }
    assert_eq!(zone("/tmp/scratch/.git/config"), None);
    assert_eq!(zone("/work/repo/.git/../src"), None);
    for unbounded in
        [SandboxPolicy::DangerFullAccess, SandboxPolicy::ReadOnly { network_access: false }]
    {
        assert_eq!(unbounded.read_only_zone("/work/repo/.git/config"), None);
    }
}
