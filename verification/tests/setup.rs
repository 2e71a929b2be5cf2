use irauth::hardware::{Evidence, VideoDevice};
use irauth::setup::{
    finish_step, FinishAction, FinishEvent, FinishStage, check_line, doctor_checks, doctor_summary, needs_binding, require_strict_camera,
    rollback_removals, setup_prerequisites, Check, DoctorFacts, config_temp_path, evidence_label, is_transaction_artifact, pam_backup_path, pam_module_path,
    parse_command, parse_pam_args, parse_setup_args, readiness_step, select_camera,
    selected_services, target_user, unknown_command_message, usb_label, validate_service_name,
    validate_user, CtlCommand, PamAction, Readiness,
};

fn args(v: &[&str]) -> Vec<String> {
    v.iter().map(|s| s.to_string()).collect()
}

#[test]
fn readiness_retries_connection_errors_until_pong_and_reports_last_error() {
    match readiness_step(Err("not listening"), false) {
        Readiness::Retry(e) => assert_eq!(e, "not listening"),
        _ => panic!("expected a retry"),
    }
    assert!(matches!(readiness_step(Ok("PONG\\n"), false), Readiness::Ready));
    assert!(matches!(readiness_step(Ok("PONG\n"), true), Readiness::Ready));
    match readiness_step(Err("socket missing"), true) {
        Readiness::GiveUp(e) => assert!(e.contains("socket missing")),
        _ => panic!("expected to give up"),
    }
    match readiness_step(Ok("  ERR\tnope\n"), true) {
        Readiness::GiveUp(e) => assert_eq!(e, "unexpected daemon response: ERR\tnope"),
        _ => panic!("expected to give up"),
    }
}

#[test]
fn user_names() {
    assert_eq!(validate_user("alice.b_c-1"), Ok("alice.b_c-1".to_string()));
    assert_eq!(validate_user(""), Err("invalid user name".to_string()));
    assert_eq!(validate_user("a/b"), Err("invalid user name".to_string()));
}

#[test]
fn service_names() {
    assert_eq!(validate_service_name("polkit-1"), Ok(()));
    assert_eq!(validate_service_name("gdm_password"), Ok(()));
    assert_eq!(validate_service_name("../shadow"), Err("invalid PAM service name".to_string()));
    assert_eq!(validate_service_name("a.b"), Err("invalid PAM service name".to_string()));
    assert_eq!(validate_service_name(""), Err("invalid PAM service name".to_string()));
}

#[test]
fn target_user_order() {
    assert_eq!(target_user(Some("bob"), Some("alice"), Some("root")), Ok("bob".into()));
    assert_eq!(target_user(None, Some("alice"), Some("root")), Ok("alice".into()));
    assert_eq!(target_user(None, Some("root"), Some("carol")), Ok("carol".into()));
    assert_eq!(target_user(None, None, Some("dave")), Ok("dave".into()));
    assert_eq!(target_user(None, None, None), Err("invalid user name".into()));
    assert_eq!(target_user(Some("x y"), None, Some("dave")), Err("invalid user name".into()));
}

#[test]
fn transaction_file_names() {
    assert_eq!(pam_backup_path("/etc/pam.d/sudo"), "/etc/pam.d/sudo.irauth.bak");
    assert_eq!(config_temp_path("/etc/howdy/config.ini"), "/etc/howdy/config.ini.irauth.tmp");
    assert!(is_transaction_artifact("sudo.irauth.bak"));
    assert!(is_transaction_artifact("sudo.irauth.123.tmp"));
    assert!(!is_transaction_artifact("sudo"));
    assert!(!is_transaction_artifact("sudo.tmp"));
    assert!(!is_transaction_artifact("irauth-howdy"));
}

#[test]
fn setup_options() {
    let o = parse_setup_args(&args(&["--user", "alice", "--with-login", "--camera", "/dev/video2"]))
        .ok()
        .unwrap();
    assert_eq!(o.user.as_deref(), Some("alice"));
    assert_eq!(o.camera.as_deref(), Some("/dev/video2"));
    assert!(o.with_login);
    assert!(!o.allow_no_tpm);
    let o = parse_setup_args(&args(&["--allow-no-tpm"])).ok().unwrap();
    assert!(o.allow_no_tpm && o.user.is_none());
    assert_eq!(
        parse_setup_args(&args(&["--user"])).err(),
        Some("--user requires a value".to_string())
    );
    assert_eq!(
        parse_setup_args(&args(&["--camera"])).err(),
        Some("--camera requires an absolute V4L2 path".to_string())
    );
    assert_eq!(
        parse_setup_args(&args(&["--bogus"])).err(),
        Some("unknown setup option: --bogus".to_string())
    );
}

#[test]
fn services_setup_routes() {
    assert_eq!(selected_services(false, true, true), args(&["sudo", "gdm-password"]));
    assert_eq!(selected_services(true, false, true), args(&["sudo", "polkit-1"]));
    assert_eq!(selected_services(false, true, false), args(&["sudo"]));
}

#[test]
fn hardware_report_labels() {
    assert_eq!(evidence_label(Evidence::IrName), "IR name");
    assert_eq!(evidence_label(Evidence::DepthName), "depth name");
    assert_eq!(evidence_label(Evidence::VerifiedUsbId), "verified USB ID");
    assert_eq!(evidence_label(Evidence::NotAccepted), "not accepted");
    assert_eq!(usb_label(&Some("1234:abcd".into()), &Some("02".into())), "1234:abcd@02");
    assert_eq!(usb_label(&Some("1234:abcd".into()), &None), "1234:abcd");
    assert_eq!(usb_label(&None, &Some("02".into())), "-");
}

fn strict(node: &str) -> VideoDevice {
    VideoDevice {
        node: node.into(),
        name: "IR".into(),
        usb_id: None,
        usb_interface: None,
        evidence: Evidence::IrName,
    }
}

#[test]
fn camera_selection() {
    let one = vec![strict("/dev/video2")];
    let two = vec![strict("/dev/video2"), strict("/dev/video4")];
    assert_eq!(
        select_camera(Some("video2"), true, None, false, &one),
        Err("--camera must be an absolute path".into())
    );
    assert_eq!(
        select_camera(Some("/dev/video0"), false, None, false, &one),
        Err("/dev/video0 is not a strict IR/depth camera".into())
    );
    assert_eq!(
        select_camera(Some("/dev/video4"), true, Some("/dev/video2"), true, &two),
        Ok("/dev/video4".into())
    );
    assert_eq!(
        select_camera(None, false, Some("/dev/video4"), true, &two),
        Ok("/dev/video4".into())
    );
    assert_eq!(
        select_camera(None, false, Some("/dev/video0"), false, &one),
        Ok("/dev/video2".into())
    );
    assert_eq!(
        select_camera(None, false, None, false, &two),
        Err("multiple strict IR/depth nodes detected and Howdy is not already bound to one; rerun setup with --camera /dev/videoN".into())
    );
}

#[test]
fn pam_module_location() {
    assert_eq!(
        pam_module_path([false, true, true]).as_deref(),
        Some("/usr/lib/x86_64-linux-gnu/security/pam_irauth.so")
    );
    assert_eq!(pam_module_path([false; 3]), None);
}

#[test]
fn subcommands() {
    assert_eq!(parse_command(Some("hardware")), CtlCommand::Hardware);
    assert_eq!(parse_command(Some("pam")), CtlCommand::Pam);
    assert_eq!(parse_command(Some("-h")), CtlCommand::Help);
    assert_eq!(parse_command(None), CtlCommand::Help);
    assert_eq!(parse_command(Some("frobnicate")), CtlCommand::Unknown);
    assert_eq!(unknown_command_message("frobnicate"), "unknown command: frobnicate");
    assert_eq!(
        parse_pam_args(Some("enable"), Some("sudo")),
        Ok((PamAction::Enable, "sudo".to_string()))
    );
    assert_eq!(
        parse_pam_args(Some("disable"), Some("sudo")),
        Ok((PamAction::Disable, "sudo".to_string()))
    );
    assert_eq!(
        parse_pam_args(Some("enable"), None),
        Err("usage: irauthctl pam enable|disable SERVICE".to_string())
    );
    assert_eq!(
        parse_pam_args(Some("toggle"), Some("sudo")),
        Err("usage: irauthctl pam enable|disable SERVICE".to_string())
    );
}

fn facts() -> DoctorFacts {
    DoctorFacts {
        strict_devices: 1,
        tpm_present: true,
        tpm_access: true,
        vhci_loaded: true,
        groups: vec![("irauth".into(), true), ("tss".into(), false)],
        howdy: true,
        pamtester: true,
        missing_models: vec![],
        camera: Some(("/dev/video2".into(), "/etc/howdy/config.ini".into(), true)),
        pam_module: true,
        howdy_pam: true,
        passkey_pam: true,
        socket: true,
        daemon: true,
        passkey_ready: true,
        passkey_detail: "TPM-backed bridge active".into(),
    }
}

#[test]
fn doctor_reports_every_check_in_order() {
    let checks = doctor_checks(&facts());
    let names: Vec<&str> = checks.iter().map(|c| c.name.as_str()).collect();
    assert_eq!(
        names,
        vec![
            "IR/depth hardware",
            "TPM 2.0",
            "TPM session access",
            "vhci_hcd",
            "group irauth",
            "group tss",
            "Howdy command",
            "pamtester",
            "dlib models",
            "Howdy IR binding",
            "IRAuth PAM module",
            "Howdy-only PAM",
            "Passkey PAM",
            "daemon socket",
            "daemon protocol",
            "passkey bridge"
        ]
    );
    assert_eq!(checks[0].detail, "1 strict device(s)");
    assert_eq!(checks[8].detail, "ready");
    assert_eq!(checks[9].detail, "/dev/video2 (/etc/howdy/config.ini)");
    assert_eq!(check_line(&checks[0]), "[OK] IR/depth hardware      1 strict device(s)");
    assert_eq!(check_line(&checks[5]), "[!!] group tss              active in this login session");
    assert_eq!(doctor_summary(&checks), Err("IRAuth doctor: 1 check(s) failed".into()));
}

#[test]
fn doctor_passes_when_everything_is_in_place() {
    let mut f = facts();
    f.groups = vec![("usbip".into(), true)];
    let checks = doctor_checks(&f);
    assert_eq!(
        doctor_summary(&checks),
        Ok("\nIRAuth doctor: all checks passed".into())
    );
}

#[test]
fn doctor_details_for_missing_parts() {
    let mut f = facts();
    f.strict_devices = 0;
    f.missing_models = vec!["a.dat".into(), "b.dat".into()];
    f.camera = None;
    f.groups = vec![];
    let checks = doctor_checks(&f);
    assert!(!checks[0].ok);
    assert_eq!(checks[0].detail, "0 strict device(s)");
    assert!(!checks[6].ok);
    assert_eq!(checks[6].detail, "a.dat, b.dat");
    assert!(!checks[7].ok);
    assert_eq!(checks[7].detail, "Howdy device_path is missing/none");
    assert_eq!(doctor_summary(&checks), Err("IRAuth doctor: 3 check(s) failed".into()));
    let long = Check {
        name: "a name longer than twenty-two".into(),
        ok: true,
        detail: "d".into(),
    };
    assert_eq!(check_line(&long), "[OK] a name longer than twenty-two d");
}

#[test]
fn setup_requirements_in_order() {
    assert_eq!(setup_prerequisites(true, false, true, true, true), Ok(()));
    assert_eq!(setup_prerequisites(false, true, true, true, true), Ok(()));
    assert_eq!(
        setup_prerequisites(false, false, false, false, false),
        Err("TPM 2.0 is required by strict setup; use --allow-no-tpm only for PAM-only evaluation (passkeys stay disabled)".into())
    );
    assert_eq!(
        setup_prerequisites(true, false, false, false, false),
        Err("pam_irauth.so is not installed; run the IRAuth installer/package before setup".into())
    );
    assert_eq!(
        setup_prerequisites(true, false, true, false, false),
        Err("Howdy is not installed; IRAuth v0.1 deliberately uses Howdy as its recognition backend".into())
    );
    assert_eq!(
        setup_prerequisites(true, false, true, true, false),
        Err("pamtester is not installed".into())
    );
    assert!(require_strict_camera(&vec![]).is_err());
    assert_eq!(require_strict_camera(&vec![strict("/dev/video2")]), Ok(()));
    assert!(needs_binding(None, "/dev/video2"));
    assert!(needs_binding(Some("/dev/video0"), "/dev/video2"));
    assert!(!needs_binding(Some("/dev/video2"), "/dev/video2"));
}

#[test]
fn rollback_removes_only_new_artifacts() {
    let before = args(&["/p/sudo", "/p/sudo.irauth.bak"]);
    let now = vec![
        ("/p/sudo".to_string(), "sudo".to_string()),
        ("/p/sudo.irauth.bak".to_string(), "sudo.irauth.bak".to_string()),
        ("/p/polkit-1.irauth.bak".to_string(), "polkit-1.irauth.bak".to_string()),
        ("/p/sudo.irauth.123.tmp".to_string(), "sudo.irauth.123.tmp".to_string()),
        ("/p/notes.tmp".to_string(), "notes.tmp".to_string()),
    ];
    assert_eq!(
        rollback_removals(&before, &now),
        args(&["/p/polkit-1.irauth.bak", "/p/sudo.irauth.123.tmp"])
    );
}

fn finish_outcome(stage: FinishStage, event: FinishEvent) -> Result<(), String> {
    match finish_step(stage, event) {
        (None, FinishAction::Finish(r)) => r,
        _ => panic!("expected the end"),
    }
}

#[test]
fn setup_end_touches_pam_only_after_approval_and_restores_on_failure() {
    assert_eq!(
        finish_outcome(FinishStage::Validating, FinishEvent::Validated(Ok("ERR\tdenied\n".into()))),
        Err("face verification through irauthd failed".into())
    );
    assert_eq!(
        finish_outcome(FinishStage::Validating, FinishEvent::Validated(Err("no socket".into()))),
        Err("no socket".into())
    );
    assert!(matches!(
        finish_step(FinishStage::Validating, FinishEvent::Validated(Ok("OK\tface verified\n".into()))),
        (Some(FinishStage::Snapshotting), FinishAction::TakeSnapshot)
    ));
    assert_eq!(
        finish_outcome(FinishStage::Snapshotting, FinishEvent::Snapshot(Err("read failed".into()))),
        Err("read failed".into())
    );
    assert!(matches!(
        finish_step(FinishStage::Snapshotting, FinishEvent::Snapshot(Ok(()))),
        (Some(FinishStage::ChangingPam), FinishAction::ChangePam)
    ));
    assert_eq!(finish_outcome(FinishStage::ChangingPam, FinishEvent::PamChanged(Ok(()))), Ok(()));
    match finish_step(FinishStage::ChangingPam, FinishEvent::PamChanged(Err("disk full".into()))) {
        (Some(FinishStage::RollingBack(e)), FinishAction::Restore) => assert_eq!(e, "disk full"),
        _ => panic!("expected a rollback"),
    }
    assert_eq!(
        finish_outcome(
            FinishStage::RollingBack("disk full".into()),
            FinishEvent::Restored(Ok(()))
        ),
        Err("disk full".into())
    );
    assert_eq!(
        finish_outcome(
            FinishStage::RollingBack("disk full".into()),
            FinishEvent::Restored(Err("read-only".into()))
        ),
        Err("PAM setup failed: disk full; rollback also failed: read-only".into())
    );
}
