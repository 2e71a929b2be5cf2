use irauth::daemon::{
    auth_step, AuthAction, AuthEvent, AuthStage, authorize, backend_response, camera_refusal, dispatch, gid_for_group, may_authenticate,
    rate_limit, status, uid_for_user, BackendOutcome, CameraCheck, Dispatch, RateLimiter,
    MIN_REQUEST_INTERVAL_NANOS,
};
use irauth::howdy::Preflight;
use irauth::protocol::{DaemonStatus, Response};

#[test]
fn non_root_peer_cannot_request_authentication_for_another_user() {
    assert!(may_authenticate(1000, 1000));
    assert!(!may_authenticate(1000, 1001));
    assert!(may_authenticate(0, 1001));
}

#[test]
fn rate_limit_is_per_peer_uid() {
    let mut map = RateLimiter::new();
    assert!(rate_limit(1000, 0, &mut map));
    assert!(!rate_limit(1000, 0, &mut map));
    assert!(rate_limit(1001, 0, &mut map));
}

#[test]
fn rate_limit_accepts_again_after_interval() {
    let mut map = RateLimiter::new();
    assert!(rate_limit(7, 1_000, &mut map));
    assert!(!rate_limit(7, 1_000 + MIN_REQUEST_INTERVAL_NANOS - 1, &mut map));
    assert!(rate_limit(7, 1_000 + MIN_REQUEST_INTERVAL_NANOS, &mut map));
    assert!(!rate_limit(7, 1_000 + MIN_REQUEST_INTERVAL_NANOS + 10, &mut map));
}

#[test]
fn refused_request_does_not_restart_the_interval() {
    let mut map = RateLimiter::new();
    assert!(rate_limit(9, 0, &mut map));
    assert!(!rate_limit(9, 400_000_000, &mut map));
    assert!(rate_limit(9, 500_000_000, &mut map));
}

#[test]
fn clock_going_backwards_counts_as_no_time() {
    let mut map = RateLimiter::new();
    assert!(rate_limit(3, 10_000_000_000, &mut map));
    assert!(!rate_limit(3, 0, &mut map));
}

fn error_of(r: Result<(), String>) -> String {
    r.expect_err("expected a refusal")
}

#[test]
fn authorize_checks_in_order() {
    let mut map = RateLimiter::new();
    assert_eq!(error_of(authorize(1000, None, &mut map, 0)), "unknown user");
    assert_eq!(
        error_of(authorize(1000, Some(1001), &mut map, 0)),
        "peer may authenticate only itself"
    );
    assert_eq!(authorize(1000, Some(1000), &mut map, 0), Ok(()));
    assert_eq!(
        error_of(authorize(1000, Some(1000), &mut map, 1)),
        "authentication request rate-limited"
    );
    assert_eq!(authorize(0, Some(1000), &mut map, 1), Ok(()));
}

#[test]
fn refused_peer_is_not_recorded() {
    let mut map = RateLimiter::new();
    assert!(authorize(1000, Some(1001), &mut map, 0).is_err());
    assert!(authorize(1000, None, &mut map, 0).is_err());
    assert_eq!(authorize(1000, Some(1000), &mut map, 0), Ok(()));
}

fn reply_text(d: Dispatch) -> Response {
    match d {
        Dispatch::Reply(r) => r,
        _ => panic!("expected a reply"),
    }
}

#[test]
fn dispatch_answers_ping_and_errors() {
    assert_eq!(reply_text(dispatch("V1\tPING\n")), Response::Pong);
    assert_eq!(
        reply_text(dispatch("V1\tPING")),
        Response::Error(
            "protocol: request must be newline-terminated and at most 1024 bytes".into()
        )
    );
    assert_eq!(
        reply_text(dispatch("V0\tPING\n")),
        Response::Error("protocol: unsupported protocol version".into())
    );
    assert_eq!(
        reply_text(dispatch("\n")),
        Response::Error("protocol: empty request".into())
    );
    assert_eq!(
        reply_text(dispatch("V1\tNOPE\n")),
        Response::Error("protocol: invalid command".into())
    );
    assert_eq!(
        reply_text(dispatch("V1\tAUTH\tx\n")),
        Response::Error("protocol: invalid field".into())
    );
}

#[test]
fn dispatch_hands_on_status_and_auth() {
    assert!(matches!(dispatch("V1\tSTATUS\n"), Dispatch::Status));
    match dispatch("V1\tAUTH\talice\tsudo\n") {
        Dispatch::Authenticate { user, reason } => {
            assert_eq!(user, "alice");
            assert_eq!(reason, "sudo");
        }
        _ => panic!("expected an authentication"),
    }
}

#[test]
fn camera_refusals() {
    assert_eq!(camera_refusal(CameraCheck::Strict), None);
    assert_eq!(
        camera_refusal(CameraCheck::NotConfigured),
        Some(Response::Error("Howdy camera is not configured".into()))
    );
    assert_eq!(
        camera_refusal(CameraCheck::ConfigUnreadable),
        Some(Response::Error("Howdy camera configuration error".into()))
    );
    assert_eq!(
        camera_refusal(CameraCheck::NotStrict),
        Some(Response::Error("Howdy is not bound to a strict IR/depth camera".into()))
    );
    assert_eq!(
        camera_refusal(CameraCheck::PolicyFailed),
        Some(Response::Error("camera policy error".into()))
    );
}

#[test]
fn backend_outcomes() {
    assert_eq!(
        backend_response(BackendOutcome::Approved),
        Response::Success("face verified".into())
    );
    assert_eq!(
        backend_response(BackendOutcome::Denied),
        Response::Error("face verification denied".into())
    );
    assert_eq!(
        backend_response(BackendOutcome::Failed),
        Response::Error("backend error".into())
    );
}

#[test]
fn status_is_ready_only_when_everything_is() {
    let ready = Preflight {
        howdy: true,
        pamtester: true,
        dlib_dir: Some("/usr/share/dlib-data".into()),
        missing_models: vec![],
    };
    assert_eq!(
        status(&ready, true, 1, true),
        DaemonStatus {
            backend: "howdy-ready-ir-bound".into(),
            strict_ir_devices: 1,
            tpm_present: true
        }
    );
    assert_eq!(status(&ready, false, 1, true).backend, "howdy-incomplete");
    let missing = Preflight {
        missing_models: vec!["mmod_human_face_detector.dat".into()],
        ..ready.clone()
    };
    assert_eq!(status(&missing, true, 2, false).backend, "howdy-incomplete");
    assert_eq!(status(&missing, true, 2, false).strict_ir_devices, 2);
    let no_pamtester = Preflight {
        pamtester: false,
        ..ready
    };
    assert_eq!(status(&no_pamtester, true, 0, false).backend, "howdy-incomplete");
}

#[test]
fn ids_from_account_tables() {
    let passwd = "root:x:0:0:root:/root:/bin/bash\nalice:x:1000:1000::/home/alice:/bin/sh\nbob:x:bad:1\nbob:x:1001:1001\n";
    assert_eq!(uid_for_user(passwd, "root"), Some(0));
    assert_eq!(uid_for_user(passwd, "alice"), Some(1000));
    assert_eq!(uid_for_user(passwd, "bob"), Some(1001));
    assert_eq!(uid_for_user(passwd, "carol"), None);
    assert_eq!(uid_for_user(passwd, "ali"), None);
    assert_eq!(uid_for_user("short:x\n", "short"), None);
    let group = "irauth:x:975:alice\nusbip:x:976:\n";
    assert_eq!(gid_for_group(group, "usbip"), Some(976));
    assert_eq!(gid_for_group(group, "tss"), None);
}

fn step_reply(stage: AuthStage, event: AuthEvent) -> Response {
    match auth_step(stage, event) {
        (None, AuthAction::Reply(r)) => r,
        _ => panic!("expected an answer"),
    }
}

#[test]
fn authentication_steps_fail_closed() {
    assert!(matches!(
        auth_step(AuthStage::Checking, AuthEvent::Checked(Ok(()))),
        (Some(AuthStage::Authorized), AuthAction::CheckCamera)
    ));
    assert_eq!(
        step_reply(AuthStage::Checking, AuthEvent::Checked(Err("unknown user".into()))),
        Response::Error("unknown user".into())
    );
    assert_eq!(
        step_reply(AuthStage::Authorized, AuthEvent::CameraLockFailed),
        Response::Error("authentication lock poisoned".into())
    );
    assert_eq!(
        step_reply(AuthStage::Authorized, AuthEvent::Camera(CameraCheck::NotStrict)),
        Response::Error("Howdy is not bound to a strict IR/depth camera".into())
    );
    assert!(matches!(
        auth_step(AuthStage::Authorized, AuthEvent::Camera(CameraCheck::Strict)),
        (Some(AuthStage::CameraStrict), AuthAction::RunBackend)
    ));
    assert_eq!(
        step_reply(AuthStage::CameraStrict, AuthEvent::Backend(BackendOutcome::Approved)),
        Response::Success("face verified".into())
    );
    assert_eq!(
        step_reply(AuthStage::CameraStrict, AuthEvent::Backend(BackendOutcome::Denied)),
        Response::Error("face verification denied".into())
    );
}

#[test]
fn reason_never_changes_what_is_checked() {
    let a = dispatch("V1\tAUTH\talice\tsudo\n");
    let b = dispatch("V1\tAUTH\talice\tmanual test\n");
    let user_of = |d: Dispatch| match d {
        Dispatch::Authenticate { user, .. } => user,
        _ => panic!("expected an authentication"),
    };
    assert_eq!(user_of(a), user_of(b));
    let mut m1 = RateLimiter::new();
    let mut m2 = RateLimiter::new();
    assert_eq!(authorize(1000, Some(1000), &mut m1, 0), authorize(1000, Some(1000), &mut m2, 0));
}
