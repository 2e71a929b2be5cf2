use irauth::pam::{
    enable_pam_content, howdy_auth_line, is_migrated, howdy_only_pam_content, is_approval, pam_result,
    parse_reason, passkey_pam_content, rewrite_direct_howdy_pam, strip_irauth_stanza,
    PAM_AUTH_ERR, PAM_SERVICE_ERR, PAM_SUCCESS, PAM_SYSTEM_ERR,
};
use irauth::setup::{manifest_content, migration_candidate, sort_paths};

fn selected(names: &[&str]) -> Vec<String> {
    names.iter().map(|s| s.to_string()).collect()
}

#[test]
fn migration_only_changes_selected_services_and_leaves_unselected_login_stack_untouched() {
    let sudo = "#%PAM-1.0\nauth sufficient pam_howdy.so\nauth include system-auth\n";
    let unrelated = "#%PAM-1.0\nauth required pam_unix.so\n";
    let chosen = selected(&["sudo"]);
    assert!(migration_candidate("sudo", &chosen));
    assert!(!migration_candidate("other", &chosen));
    assert!(!migration_candidate("gdm-password", &chosen));
    let (migrated, found) = rewrite_direct_howdy_pam(sudo);
    assert!(found);
    assert!(migrated.contains("# auth sufficient pam_howdy.so"));
    assert_eq!(migrated.matches("pam_irauth.so").count(), 1);
    assert!(is_migrated(&migrated));
    let (same, found) = rewrite_direct_howdy_pam(unrelated);
    assert!(!found);
    assert_eq!(same, unrelated);
    assert_eq!(
        manifest_content(&vec!["/etc/pam.d/sudo".to_string()]),
        "/etc/pam.d/sudo\n"
    );
}

#[test]
fn migration_is_idempotent_and_never_overwrites_existing_backup() {
    let (first, found) = rewrite_direct_howdy_pam("#%PAM-1.0\nauth sufficient pam_howdy.so\n");
    assert!(found);
    let (second, found_again) = rewrite_direct_howdy_pam(&first);
    assert!(!found_again);
    assert_eq!(second, first);
}

#[test]
fn empty_migration_removes_stale_manifest() {
    let unmigrated = "#%PAM-1.0\nauth required pam_unix.so\n";
    assert!(!rewrite_direct_howdy_pam(unmigrated).1);
    assert!(!is_migrated(unmigrated));
    assert_eq!(manifest_content(&vec![]), "");
}

#[test]
fn rewrite_exact_output() {
    let (out, found) = rewrite_direct_howdy_pam(
        "#%PAM-1.0\n  auth  [success=done] pam_Howdy.so\nauth sufficient pam_howdy.so x\n#auth sufficient pam_howdy.so\nsession required pam_unix.so",
    );
    assert!(found);
    assert_eq!(
        out,
        "#%PAM-1.0\n# IRAuth disabled direct Howdy PAM entry to enforce strict camera policy:\n#   auth  [success=done] pam_Howdy.so\nauth sufficient pam_irauth.so reason=system\n# IRAuth disabled direct Howdy PAM entry to enforce strict camera policy:\n# auth sufficient pam_howdy.so x\n#auth sufficient pam_howdy.so\nsession required pam_unix.so\n"
    );
}

#[test]
fn manifest_lists_sorted_paths() {
    let paths = vec![
        "/etc/pam.d/sudo".to_string(),
        "/etc/pam.d/gdm-password".to_string(),
        "/etc/pam.d/polkit-1".to_string(),
    ];
    let sorted = sort_paths(&paths);
    assert_eq!(
        sorted,
        vec![
            "/etc/pam.d/gdm-password".to_string(),
            "/etc/pam.d/polkit-1".to_string(),
            "/etc/pam.d/sudo".to_string()
        ]
    );
    assert_eq!(
        manifest_content(&sorted),
        "/etc/pam.d/gdm-password\n/etc/pam.d/polkit-1\n/etc/pam.d/sudo\n"
    );
}

#[test]
fn irauth_files_are_never_migration_candidates() {
    let chosen = selected(&["irauth-howdy", "sudo.irauth.bak", "sudo"]);
    assert!(!migration_candidate("irauth-howdy", &chosen));
    assert!(!migration_candidate("sudo.irauth.bak", &chosen));
    assert!(migration_candidate("sudo", &chosen));
}

#[test]
fn discovers_howdy_line() {
    let content = "#%PAM-1.0\n# auth sufficient pam_howdy.so\n  auth sufficient /lib/security/pam_howdy.so  \nauth sufficient pam_howdy.so second\n";
    assert_eq!(
        howdy_auth_line(content).as_deref(),
        Some("auth sufficient /lib/security/pam_howdy.so")
    );
    assert_eq!(howdy_auth_line("auth required pam_unix.so\n"), None);
}

#[test]
fn generated_services() {
    assert_eq!(
        howdy_only_pam_content("auth sufficient pam_howdy.so"),
        "#%PAM-1.0\n# Generated by IRAuth. Face-only backend; do not add password fallback here.\nauth sufficient pam_howdy.so\nauth required pam_deny.so\n"
    );
    assert_eq!(
        passkey_pam_content(),
        "#%PAM-1.0\n# Generated by IRAuth.\nauth sufficient pam_irauth.so reason=passkey\nauth required pam_deny.so\n"
    );
}

#[test]
fn enable_inserts_stanza_after_header() {
    let got = enable_pam_content("#%PAM-1.0\nauth include system-auth").unwrap();
    assert_eq!(
        got,
        "#%PAM-1.0\n# IRAuth begin\nauth sufficient pam_irauth.so reason=system\n# IRAuth end\nauth include system-auth\n"
    );
}

#[test]
fn enable_without_header_puts_stanza_first() {
    let got = enable_pam_content("auth include system-auth\n").unwrap();
    assert_eq!(
        got,
        "# IRAuth begin\nauth sufficient pam_irauth.so reason=system\n# IRAuth end\nauth include system-auth\n"
    );
    assert_eq!(
        enable_pam_content("").unwrap(),
        "# IRAuth begin\nauth sufficient pam_irauth.so reason=system\n# IRAuth end\n"
    );
}

#[test]
fn enable_twice_changes_nothing() {
    let once = enable_pam_content("#%PAM-1.0\nauth include system-auth\n").unwrap();
    assert_eq!(enable_pam_content(&once), None);
}

#[test]
fn disable_undoes_enable() {
    let plain = "#%PAM-1.0\nauth include system-auth\n";
    let enabled = enable_pam_content(plain).unwrap();
    assert_eq!(strip_irauth_stanza(&enabled), plain);
    assert_eq!(
        strip_irauth_stanza("a\n  # IRAuth begin  \nb\n# IRAuth end\nc"),
        "a\nc\n"
    );
}

#[test]
fn reason_argument() {
    let args = |v: &[&str]| v.iter().map(|s| s.to_string()).collect::<Vec<String>>();
    assert_eq!(parse_reason(&args(&["debug", "reason=sudo"])).as_deref(), Some("sudo"));
    assert_eq!(parse_reason(&args(&["reason=", "reason=polkit"])).as_deref(), Some("polkit"));
    assert_eq!(parse_reason(&args(&[&format!("reason={}", "x".repeat(129))])), None);
    assert_eq!(
        parse_reason(&args(&[&format!("reason={}", "x".repeat(128))])),
        Some("x".repeat(128))
    );
    assert_eq!(parse_reason(&args(&[])), None);
}

#[test]
fn only_an_approval_authenticates() {
    assert!(is_approval("OK\tface verified\n"));
    assert!(!is_approval("ERR\tdenied\n"));
    assert!(!is_approval("OK"));
    assert_eq!(pam_result(Some("OK\tface verified\n")), PAM_SUCCESS);
    assert_eq!(pam_result(Some("ERR\tbackend error\n")), PAM_AUTH_ERR);
    assert_eq!(pam_result(None), PAM_AUTH_ERR);
    assert_eq!((PAM_SUCCESS, PAM_SERVICE_ERR, PAM_SYSTEM_ERR, PAM_AUTH_ERR), (0, 3, 4, 7));
}

#[test]
fn rewriting_twice_changes_nothing() {
    let (first, found) = rewrite_direct_howdy_pam(
        "#%PAM-1.0\nauth sufficient pam_howdy.so\n  auth required PAM_HOWDY.so x\nsession optional pam_x.so",
    );
    assert!(found);
    assert_eq!(rewrite_direct_howdy_pam(&first), (first.clone(), false));
    let plain = "auth required pam_unix.so\n";
    assert_eq!(rewrite_direct_howdy_pam(plain), (plain.to_string(), false));
}
