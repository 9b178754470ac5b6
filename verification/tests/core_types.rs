use blues::base::capability::Capability;
use blues::base::error::{BluesError, Result};
use blues::base::ids::{EpisodeId, FactId, InboxItemId, NodeId, PlanId, ProjectId, ProjectSlug};

#[test]
fn capability_constants_match_doc() {
    assert_eq!(Capability::FS_READ, "fs.read");
    assert_eq!(Capability::FS_WRITE, "fs.write");
    assert_eq!(Capability::NET_FETCH, "net.fetch");
    assert_eq!(Capability::SHELL_EXEC, "shell.exec");
}

#[test]
fn capability_display() {
    assert_eq!(Capability::new("net.fetch").to_string(), "net.fetch");
}

#[test]
fn capability_as_str_gives_back_the_name() {
    let cap = Capability::new(Capability::FS_WRITE);
    assert_eq!(cap.as_str(), "fs.write");
    assert_eq!(cap, Capability::new("fs.write"));
}

#[test]
fn error_display_carries_message() {
    let e = BluesError::NotFound("plan/01J".into());
    assert_eq!(e.to_string(), "not found: plan/01J");
    let e = BluesError::PermissionDenied("net.fetch".into());
    assert_eq!(e.to_string(), "permission denied: net.fetch");
    let e = BluesError::ProtocolMismatch("v2 != v1".into());
    assert_eq!(e.to_string(), "protocol mismatch: v2 != v1");
}

#[test]
fn error_display_labels_every_kind() {
    assert_eq!(BluesError::Conflict("c".into()).to_string(), "conflict: c");
    assert_eq!(BluesError::InvalidArgument("d".into()).to_string(), "invalid argument: d");
    assert_eq!(BluesError::Unavailable("f".into()).to_string(), "unavailable: f");
    assert_eq!(BluesError::Internal("g".into()).to_string(), "internal: g");
    assert_eq!(BluesError::Internal("g".into()).message(), "g");
}

#[test]
fn result_alias_compiles() {
    fn ok() -> Result<u32> {
        Ok(7)
    }
    fn err() -> Result<u32> {
        Err(BluesError::Internal("boom".into()))
    }
    assert_eq!(ok().unwrap(), 7);
    assert!(err().is_err());
}

#[test]
fn ulid_id_roundtrip_via_string() {
    let id = ProjectId::new();
    let s = id.to_string();
    let parsed: ProjectId = s.parse().unwrap();
    assert_eq!(id, parsed);
}

#[test]
fn ulid_id_is_sortable_by_creation_time() {
    let a = NodeId::new();
    let start = std::time::Instant::now();
    while start.elapsed() < std::time::Duration::from_millis(2) {}
    let b = NodeId::new();
    assert!(a < b, "ULIDs must be monotonically sortable");
}

#[test]
fn ulid_text_is_26_crockford_symbols() {
    assert_eq!(FactId(0).to_string(), "00000000000000000000000000");
    assert_eq!(EpisodeId(1).to_string(), "00000000000000000000000001");
    assert_eq!(PlanId(32).to_string(), "00000000000000000000000010");
    assert_eq!(InboxItemId(u128::MAX).to_string(), "7ZZZZZZZZZZZZZZZZZZZZZZZZZ");
    let s = InboxItemId::new().to_string();
    assert_eq!(s.len(), 26);
}

#[test]
fn ulid_parse_accepts_lower_case_and_rejects_bad_text() {
    assert_eq!(PlanId::parse_str("0000000000000000000000000z").unwrap(), PlanId(31));
    assert_eq!(PlanId::parse_str("00000000000000000000000010").unwrap(), PlanId(32));
    assert!(PlanId::parse_str("too short").is_err());
    assert!(PlanId::parse_str("0000000000000000000000000U").is_err());
}

#[test]
fn project_slug_keeps_its_text() {
    let slug = ProjectSlug::new("my-project");
    assert_eq!(slug.as_str(), "my-project");
    assert_eq!(slug.to_string(), "my-project");
}
