use irauth::howdy::{
    auth_result, dlib_after_installer, dlib_repair_plan, models_to_normalize, DlibRepair,
    authentication_timeout_hint, camera_from_config, combined_output, find_dlib_dir,
    find_howdy_config, invalid_user_result, is_absolute_path, missing_models, output_cut_fits,
    parse_video_device_path, replace_video_device_path, timeout_detail, valid_username, Backend,
    ConfigError,
};

#[test]
fn username_validation_is_conservative() {
    assert!(valid_username("alice-1"));
    assert!(!valid_username("../root"));
    assert!(!valid_username("a b"));
}

#[test]
fn username_length_limit() {
    assert!(valid_username(&"a".repeat(64)));
    assert!(!valid_username(&"a".repeat(65)));
    assert!(!valid_username(""));
    assert!(valid_username("first.last_2"));
    assert!(!valid_username("alicé"));
}

#[test]
fn parses_howdy_video_device() {
    let ini = "[core]\ndetection_notice = false\n[video]\ndevice_path = /dev/video2 # IR\n";
    assert_eq!(parse_video_device_path(ini).as_deref(), Some("/dev/video2"));
}

#[test]
fn parse_ignores_other_sections_comments_and_empty_values() {
    let ini = "[core]\ndevice_path = /dev/video9\n[ Video ]\n; device_path = /dev/video5\n# x\ndevice_path = ; none yet\nDEVICE_PATH=/dev/v4l/by-path/ir;cam\n";
    assert_eq!(
        parse_video_device_path(ini).as_deref(),
        Some("/dev/v4l/by-path/ir")
    );
    assert_eq!(parse_video_device_path("[video]\nfoo = bar\n"), None);
    assert_eq!(parse_video_device_path(""), None);
    assert_eq!(parse_video_device_path("device_path = /dev/video0\n"), None);
}

#[test]
fn rewrites_howdy_video_device() {
    let ini = "[video]\nfoo = bar\ndevice_path = /dev/video0\n[core]\nx = y\n";
    let got = replace_video_device_path(ini, "/dev/video2").unwrap();
    assert!(got.contains("device_path = /dev/video2"));
    assert!(!got.contains("device_path = /dev/video0"));
}

#[test]
fn rewrite_keeps_other_lines_exactly() {
    let ini = "[video]\nfoo = bar\ndevice_path = /dev/video0\n[core]\nx = y\n";
    let got = replace_video_device_path(ini, "/dev/video2").unwrap();
    assert_eq!(got, "[video]\nfoo = bar\ndevice_path = /dev/video2\n[core]\nx = y\n");
}

#[test]
fn rewrite_adds_missing_key_at_end_of_video_section() {
    let ini = "[video]\nfoo = bar\n[core]\nx = y\n";
    let got = replace_video_device_path(ini, "/dev/video2").unwrap();
    assert_eq!(got, "[video]\nfoo = bar\ndevice_path = /dev/video2\n[core]\nx = y\n");
    let got = replace_video_device_path("[core]\n[video]\n", "/dev/video3").unwrap();
    assert_eq!(got, "[core]\n[video]\ndevice_path = /dev/video3\n");
}

#[test]
fn rewrite_without_video_section_fails() {
    assert_eq!(
        replace_video_device_path("[core]\nx = y\n", "/dev/video2"),
        Err(ConfigError::NoVideoSection)
    );
    assert_eq!(
        replace_video_device_path("", "/dev/video2"),
        Err(ConfigError::NoVideoSection)
    );
}

#[test]
fn bound_device_reads_back() {
    let ini = "[core]\nx = y\n[video]\ndevice_path = /dev/video0\nfoo = 1\n";
    let got = replace_video_device_path(ini, "/dev/video4").unwrap();
    assert_eq!(parse_video_device_path(&got).as_deref(), Some("/dev/video4"));
}

#[test]
fn camera_config_from_ini() {
    let c = camera_from_config("/etc/howdy/config.ini", "[video]\ndevice_path = /dev/video2\n")
        .unwrap();
    assert_eq!(c.config_path, "/etc/howdy/config.ini");
    assert_eq!(c.device_path, "/dev/video2");
    assert_eq!(camera_from_config("/c", "[video]\ndevice_path = NoNe\n"), None);
    assert_eq!(camera_from_config("/c", "[video]\n"), None);
}

#[test]
fn backend_service_and_preflight() {
    let b = Backend::default();
    assert_eq!(b.pam_service(), "irauth-howdy");
    let b = Backend::new("custom");
    assert_eq!(b.pam_service(), "custom");
    let p = b.preflight(true, false, [false, true, true, false], [true, false, true]);
    assert!(p.howdy);
    assert!(!p.pamtester);
    assert_eq!(p.dlib_dir.as_deref(), Some("/usr/share/dlib-data"));
    assert_eq!(p.missing_models, vec!["mmod_human_face_detector.dat".to_string()]);
    let p = b.preflight(false, true, [false; 4], [true; 3]);
    assert_eq!(p.dlib_dir, None);
    assert_eq!(p.missing_models.len(), 3);
}

#[test]
fn candidate_locations_in_order() {
    assert_eq!(
        find_howdy_config([false, true, true, false, false, false]).as_deref(),
        Some("/etc/howdy/config.ini")
    );
    assert_eq!(find_howdy_config([false; 6]), None);
    assert_eq!(
        find_howdy_config([false, false, false, false, false, true]).as_deref(),
        Some("/usr/local/lib64/howdy/config.ini")
    );
    assert_eq!(
        find_dlib_dir([true, true, false, false]).as_deref(),
        Some("/usr/local/share/dlib-data")
    );
    assert_eq!(
        missing_models([false, true, false]),
        vec![
            "dlib_face_recognition_resnet_model_v1.dat".to_string(),
            "shape_predictor_5_face_landmarks.dat".to_string()
        ]
    );
    assert!(missing_models([true; 3]).is_empty());
}

#[test]
fn absolute_paths() {
    assert!(is_absolute_path("/dev/video0"));
    assert!(!is_absolute_path("dev/video0"));
    assert!(!is_absolute_path(""));
}

#[test]
fn timeout_is_thirty_seconds() {
    assert_eq!(authentication_timeout_hint(), 30);
}

#[test]
fn combined_output_joins_trimmed_streams() {
    assert_eq!(combined_output("  ok \n", ""), "ok");
    assert_eq!(combined_output("", " err\n"), "err");
    assert_eq!(combined_output(" out ", " err "), "out | err");
    assert_eq!(combined_output("", ""), "");
}

#[test]
fn combined_output_is_cut_to_512_bytes() {
    let long = "x".repeat(600);
    assert!(output_cut_fits(&long, ""));
    let got = combined_output(&long, "");
    assert_eq!(got, "x".repeat(512));
    let odd = format!("x{}", "é".repeat(300));
    assert!(!output_cut_fits(&odd, ""));
    let even = "é".repeat(300);
    assert!(output_cut_fits(&even, ""));
    assert_eq!(combined_output(&even, ""), "é".repeat(256));
}

#[test]
fn timeout_detail_appends_note() {
    assert_eq!(timeout_detail(String::new()), "IRAuth backend timeout after 30s");
    assert_eq!(
        timeout_detail("partial".to_string()),
        "partial | IRAuth backend timeout after 30s"
    );
}

#[test]
fn invalid_user_is_refused_without_running_backend() {
    let r = invalid_user_result();
    assert!(!r.approved);
    assert_eq!(r.detail, "invalid user name");
}

#[test]
fn rebinding_the_same_device_changes_nothing() {
    let ini = "[core]\nx = y\n[video]\nfoo = 1\n[extra]\n[video]\ndevice_path = /dev/video0\n";
    let once = replace_video_device_path(ini, "/dev/video4").unwrap();
    let twice = replace_video_device_path(&once, "/dev/video4").unwrap();
    assert_eq!(twice, once);
    let odd = replace_video_device_path("[video]\n", "  a # b  ").unwrap();
    assert_eq!(replace_video_device_path(&odd, "  a # b  ").unwrap(), odd);
}

#[test]
fn pamtester_results() {
    let ok = auth_result(Some(true), "fine".into());
    assert!(ok.approved);
    assert_eq!(ok.detail, "fine");
    let denied = auth_result(Some(false), "no face".into());
    assert!(!denied.approved);
    assert_eq!(denied.detail, "no face");
    let late = auth_result(None, "waiting".into());
    assert!(!late.approved);
    assert_eq!(late.detail, "waiting | IRAuth backend timeout after 30s");
    assert_eq!(auth_result(None, String::new()).detail, "IRAuth backend timeout after 30s");
}

#[test]
fn dlib_repair_decisions() {
    assert_eq!(
        dlib_repair_plan([true; 3], "/d/install.sh", false),
        Ok(DlibRepair::NormalizePermissions)
    );
    assert_eq!(
        dlib_repair_plan([true, false, true], "/d/install.sh", true),
        Ok(DlibRepair::RunInstaller)
    );
    assert_eq!(
        dlib_repair_plan([true, false, true], "/d/install.sh", false),
        Err("missing dlib models and installer: /d/install.sh".to_string())
    );
    assert_eq!(dlib_after_installer([true; 3]), Ok(()));
    assert_eq!(
        dlib_after_installer([false, true, false]),
        Err("dlib installer completed but models are still missing: dlib_face_recognition_resnet_model_v1.dat, shape_predictor_5_face_landmarks.dat".to_string())
    );
    assert_eq!(
        models_to_normalize([true, false, true]),
        vec![
            "dlib_face_recognition_resnet_model_v1.dat".to_string(),
            "shape_predictor_5_face_landmarks.dat".to_string()
        ]
    );
    assert!(models_to_normalize([false; 3]).is_empty());
}
