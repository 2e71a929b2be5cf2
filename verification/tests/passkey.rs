use irauth::passkey::{
    check_adoptable, diagnose_from, install_preconditions, diagnose_without_home, lists_virtual_authenticator, parse_passkey_command,
    passphrase_from_input, require_command, unit_file, PasskeyCommand, PINNED_COMMIT,
    SERVICE_NAME, UPSTREAM_URL,
};

#[test]
fn ready_bridge() {
    let d = diagnose_from(true, true, true, true);
    assert!(d.ready);
    assert_eq!(d.detail, "TPM-backed bridge active");
}

#[test]
fn missing_parts_are_listed_in_order() {
    let d = diagnose_from(false, true, false, false);
    assert!(!d.ready);
    assert_eq!(d.detail, "missing: bridge binary, user service, running service");
    let d = diagnose_from(true, false, true, true);
    assert_eq!(d.detail, "missing: TPM-sealed vault key");
    let d = diagnose_without_home();
    assert!(!d.ready);
    assert_eq!(d.detail, "HOME unavailable");
}

#[test]
fn user_unit() {
    let unit = unit_file("/home/a/.local/bin/howdy-bridge", "/home/a/.config/howdy-passkey-bridge");
    assert!(unit.starts_with("[Unit]\nDescription=IRAuth TPM-backed virtual FIDO2 authenticator\n"));
    assert!(unit.contains("ExecStart=/home/a/.local/bin/howdy-bridge --pam-service irauth-passkey --vault /home/a/.config/howdy-passkey-bridge/vault.json\n"));
    assert!(unit.ends_with("[Install]\nWantedBy=default.target\n"));
    assert_eq!(SERVICE_NAME, "irauth-passkey.service");
    assert_eq!(PINNED_COMMIT.len(), 40);
    assert!(UPSTREAM_URL.ends_with("howdy-as-passkey.git"));
}

#[test]
fn passkey_subcommands() {
    assert_eq!(parse_passkey_command(Some("install")), PasskeyCommand::Install);
    assert_eq!(parse_passkey_command(Some("start")), PasskeyCommand::Start);
    assert_eq!(parse_passkey_command(Some("stop")), PasskeyCommand::Stop);
    assert_eq!(parse_passkey_command(Some("status")), PasskeyCommand::Status);
    assert_eq!(parse_passkey_command(Some("test")), PasskeyCommand::Test);
    assert_eq!(parse_passkey_command(Some("adopt")), PasskeyCommand::Adopt);
    assert_eq!(parse_passkey_command(Some("Install")), PasskeyCommand::Usage);
    assert_eq!(parse_passkey_command(None), PasskeyCommand::Usage);
}

#[test]
fn required_commands() {
    assert_eq!(require_command("git", true), Ok(()));
    assert_eq!(
        require_command("go", false),
        Err("required command not found: go".to_string())
    );
}

#[test]
fn virtual_authenticator_listing() {
    assert!(lists_virtual_authenticator(true, "/dev/hidraw3: vendor=0x1209 (Virtual FIDO)\n"));
    assert!(!lists_virtual_authenticator(false, "Virtual FIDO"));
    assert!(!lists_virtual_authenticator(true, "YubiKey 5\n"));
}

#[test]
fn passphrase_line() {
    assert_eq!(passphrase_from_input("secret\r\n").as_deref(), Some("secret"));
    assert_eq!(passphrase_from_input(" s p \n\n").as_deref(), Some(" s p "));
    assert_eq!(passphrase_from_input("\r\n"), None);
    assert_eq!(passphrase_from_input(""), None);
}

#[test]
fn adoption_needs_binary_and_sealed_key() {
    assert_eq!(check_adoptable(true, true), Ok(()));
    let refusal = Err("passkey adopt needs an existing ~/.local/bin/howdy-bridge and TPM-sealed ~/.config/howdy-passkey-bridge/vault.key.tpm; use irauthctl passkey install".to_string());
    assert_eq!(check_adoptable(false, true), refusal);
    assert_eq!(check_adoptable(true, false), refusal);
}

#[test]
fn install_requirements_in_order() {
    assert_eq!(install_preconditions(false, [true; 4], true, Ok(())), Ok(()));
    assert_eq!(
        install_preconditions(true, [false; 4], false, Err("x")),
        Err("passkey install must run as the desktop user, not through sudo".to_string())
    );
    assert_eq!(
        install_preconditions(false, [true, false, false, true], false, Ok(())),
        Err("required command not found: go".to_string())
    );
    assert_eq!(
        install_preconditions(false, [true, true, true, false], true, Ok(())),
        Err("required command not found: usbip".to_string())
    );
    assert_eq!(
        install_preconditions(false, [true; 4], false, Ok(())),
        Err("strict passkey mode requires TPM 2.0 at /dev/tpmrm0".to_string())
    );
    assert_eq!(
        install_preconditions(false, [true; 4], true, Err("Permission denied (os error 13)")),
        Err("TPM is not accessible in this login session (Permission denied (os error 13)); log out/in after setup so the tss group becomes active".to_string())
    );
}
