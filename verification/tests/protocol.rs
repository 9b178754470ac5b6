use blues::base::error::BluesError;
use blues::protocol::gen;
use blues::protocol::{error_from_status, status_from_error, ProtocolError, Status, StatusCode, PROTOCOL_VERSION};

#[test]
fn protocol_version_is_one() {
    assert_eq!(PROTOCOL_VERSION, 1);
}

#[test]
fn gen_module_is_reachable() {
    let _ = gen::Empty {};
}

#[test]
fn plan_status_enum_present() {
    let v = gen::PlanStatus::Pending as i32;
    assert_eq!(v, 1);
}

#[test]
fn error_maps_to_tonic_codes() {
    assert_eq!(status_from_error(&BluesError::NotFound("x".into())).code(), StatusCode::NotFound);
    assert_eq!(
        status_from_error(&BluesError::PermissionDenied("x".into())).code(),
        StatusCode::PermissionDenied
    );
    assert_eq!(status_from_error(&BluesError::Conflict("x".into())).code(), StatusCode::AlreadyExists);
    assert_eq!(
        status_from_error(&BluesError::InvalidArgument("x".into())).code(),
        StatusCode::InvalidArgument
    );
    assert_eq!(
        status_from_error(&BluesError::ProtocolMismatch("x".into())).code(),
        StatusCode::FailedPrecondition
    );
    assert_eq!(status_from_error(&BluesError::Unavailable("x".into())).code(), StatusCode::Unavailable);
    assert_eq!(status_from_error(&BluesError::Internal("x".into())).code(), StatusCode::Internal);
}

#[test]
fn error_status_round_trip_preserves_kind() {
    let pairs = [
        BluesError::NotFound("a".into()),
        BluesError::PermissionDenied("b".into()),
        BluesError::Conflict("c".into()),
        BluesError::InvalidArgument("d".into()),
        BluesError::ProtocolMismatch("e".into()),
        BluesError::Unavailable("f".into()),
        BluesError::Internal("g".into()),
    ];
    for e in pairs {
        let original_msg = e.to_string();
        let payload = original_msg.split_once(": ").unwrap().1.to_string();
        let status = status_from_error(&e);
        let back = error_from_status(status);
        match (&e, &back) {
            (BluesError::NotFound(_), BluesError::NotFound(m)) => assert_eq!(m, &payload),
            (BluesError::PermissionDenied(_), BluesError::PermissionDenied(m)) => assert_eq!(m, &payload),
            (BluesError::Conflict(_), BluesError::Conflict(m)) => assert_eq!(m, &payload),
            (BluesError::InvalidArgument(_), BluesError::InvalidArgument(m)) => assert_eq!(m, &payload),
            (BluesError::ProtocolMismatch(_), BluesError::ProtocolMismatch(m)) => assert_eq!(m, &payload),
            (BluesError::Unavailable(_), BluesError::Unavailable(m)) => assert_eq!(m, &payload),
            (BluesError::Internal(_), BluesError::Internal(m)) => assert_eq!(m, &payload),
            _ => panic!("kind changed on the round trip: {e:?} became {back:?}"),
        }
    }
}

#[test]
fn status_codes_follow_the_grpc_numbering() {
    assert_eq!(StatusCode::Success as i32, tonic::Code::Ok as i32);
    assert_eq!(StatusCode::InvalidArgument as i32, tonic::Code::InvalidArgument as i32);
    assert_eq!(StatusCode::NotFound as i32, tonic::Code::NotFound as i32);
    assert_eq!(StatusCode::AlreadyExists as i32, tonic::Code::AlreadyExists as i32);
    assert_eq!(StatusCode::PermissionDenied as i32, tonic::Code::PermissionDenied as i32);
    assert_eq!(StatusCode::FailedPrecondition as i32, tonic::Code::FailedPrecondition as i32);
    assert_eq!(StatusCode::Internal as i32, tonic::Code::Internal as i32);
    assert_eq!(StatusCode::Unavailable as i32, tonic::Code::Unavailable as i32);
    assert_eq!(StatusCode::Unauthenticated as i32, tonic::Code::Unauthenticated as i32);
}

#[test]
fn unmapped_codes_read_back_as_internal() {
    let back = error_from_status(Status::new(StatusCode::DeadlineExceeded, "slow"));
    assert!(matches!(back, BluesError::Internal(ref m) if m == "slow"));
    let back = error_from_status(Status::new(StatusCode::Success, ""));
    assert!(matches!(back, BluesError::Internal(_)));
}

#[test]
fn upgrade_required_is_answered_with_failed_precondition() {
    let e = ProtocolError::UpgradeRequired { client: 2, server: 1 };
    assert_eq!(e.to_string(), "protocol mismatch: client=2, server=1");
    let s = e.to_status();
    assert_eq!(s.code(), StatusCode::FailedPrecondition);
    assert_eq!(s.message(), "protocol mismatch: client=2, server=1");
    let big = ProtocolError::UpgradeRequired { client: 4294967295, server: 10 };
    assert_eq!(big.to_string(), "protocol mismatch: client=4294967295, server=10");
}

#[test]
fn aborted_reads_back_as_conflict() {
    let back = error_from_status(Status::new(StatusCode::Aborted, "busy"));
    assert!(matches!(back, BluesError::Conflict(ref m) if m == "busy"));
}
