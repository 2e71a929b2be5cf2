use irauth::protocol::{
    decode_request, encode_request, encode_response, sanitize, valid_field, DaemonStatus,
    ProtocolError, Request, Response,
};

#[test]
fn auth_round_trip() {
    let req = Request::Authenticate {
        user: "alice".into(),
        reason: "sudo".into(),
    };
    assert_eq!(decode_request(&encode_request(&req)).unwrap(), req);
}

#[test]
fn rejects_control_characters() {
    assert_eq!(
        decode_request("V1\tAUTH\talice\tbad\textra\n"),
        Err(ProtocolError::InvalidField)
    );
}

#[test]
fn rejects_old_protocol() {
    assert_eq!(
        decode_request("V0\tPING\n"),
        Err(ProtocolError::UnsupportedVersion)
    );
}

#[test]
fn encodes_each_request() {
    assert_eq!(encode_request(&Request::Ping), "V1\tPING\n");
    assert_eq!(encode_request(&Request::Status), "V1\tSTATUS\n");
    let req = Request::Authenticate {
        user: "bob".into(),
        reason: "polkit".into(),
    };
    assert_eq!(encode_request(&req), "V1\tAUTH\tbob\tpolkit\n");
}

#[test]
fn status_and_ping_round_trip() {
    assert_eq!(decode_request(&encode_request(&Request::Ping)), Ok(Request::Ping));
    assert_eq!(decode_request(&encode_request(&Request::Status)), Ok(Request::Status));
}

#[test]
fn decodes_with_crlf_and_without_newline() {
    assert_eq!(decode_request("V1\tPING\r\n"), Ok(Request::Ping));
    assert_eq!(decode_request("V1\tSTATUS"), Ok(Request::Status));
    assert_eq!(decode_request("V01\tPING\n"), Ok(Request::Ping));
    assert_eq!(decode_request("V+1\tPING\n"), Ok(Request::Ping));
}

#[test]
fn empty_request_is_refused() {
    assert_eq!(decode_request(""), Err(ProtocolError::Empty));
    assert_eq!(decode_request("\r\n\n"), Err(ProtocolError::Empty));
}

#[test]
fn bad_version_is_refused() {
    assert_eq!(decode_request("1\tPING\n"), Err(ProtocolError::UnsupportedVersion));
    assert_eq!(decode_request("V\tPING\n"), Err(ProtocolError::UnsupportedVersion));
    assert_eq!(decode_request("V2\tPING\n"), Err(ProtocolError::UnsupportedVersion));
    assert_eq!(decode_request("Vx\tPING\n"), Err(ProtocolError::UnsupportedVersion));
    assert_eq!(
        decode_request("V99999999999\tPING\n"),
        Err(ProtocolError::UnsupportedVersion)
    );
}

#[test]
fn unknown_command_is_refused() {
    assert_eq!(decode_request("V1\n"), Err(ProtocolError::InvalidCommand));
    assert_eq!(decode_request("V1\tHELLO\n"), Err(ProtocolError::InvalidCommand));
    assert_eq!(decode_request("V1\tPING\textra\n"), Err(ProtocolError::InvalidCommand));
    assert_eq!(decode_request("V1\tSTATUS\t\n"), Err(ProtocolError::InvalidCommand));
    assert_eq!(decode_request("V1\tping\n"), Err(ProtocolError::InvalidCommand));
}

#[test]
fn bad_auth_fields_are_refused() {
    assert_eq!(decode_request("V1\tAUTH\n"), Err(ProtocolError::InvalidField));
    assert_eq!(decode_request("V1\tAUTH\talice\n"), Err(ProtocolError::InvalidField));
    assert_eq!(decode_request("V1\tAUTH\t\tsudo\n"), Err(ProtocolError::InvalidField));
    assert_eq!(decode_request("V1\tAUTH\talice\t\n"), Err(ProtocolError::InvalidField));
    assert_eq!(decode_request("V1\tAUTH\tal\rice\tsudo\n"), Err(ProtocolError::InvalidField));
    assert_eq!(decode_request("V1\tAUTH\tal\0ice\tsudo\n"), Err(ProtocolError::InvalidField));
    let long = "a".repeat(257);
    let line = format!("V1\tAUTH\t{long}\tsudo\n");
    assert_eq!(decode_request(&line), Err(ProtocolError::InvalidField));
    let ok = "a".repeat(256);
    let line = format!("V1\tAUTH\t{ok}\tsudo\n");
    assert_eq!(
        decode_request(&line),
        Ok(Request::Authenticate { user: ok, reason: "sudo".into() })
    );
}

#[test]
fn field_limit_counts_bytes() {
    assert!(valid_field("alice"));
    assert!(!valid_field(""));
    assert!(!valid_field("a\tb"));
    assert!(!valid_field("a\nb"));
    assert!(valid_field(&"é".repeat(128)));
    assert!(!valid_field(&"é".repeat(129)));
}

#[test]
fn error_messages() {
    assert_eq!(ProtocolError::Empty.message(), "empty request");
    assert_eq!(ProtocolError::InvalidCommand.message(), "invalid command");
    assert_eq!(ProtocolError::InvalidField.message(), "invalid field");
    assert_eq!(
        ProtocolError::UnsupportedVersion.message(),
        "unsupported protocol version"
    );
}

#[test]
fn responses_are_single_lines() {
    assert_eq!(encode_response(&Response::Success("face verified".into())), "OK\tface verified\n");
    assert_eq!(encode_response(&Response::Error("a\tb\nc\rd\0e".into())), "ERR\ta b c d e\n");
    assert_eq!(encode_response(&Response::Pong), "PONG\n");
    let status = DaemonStatus {
        backend: "howdy-incomplete".into(),
        strict_ir_devices: 2,
        tpm_present: true,
    };
    assert_eq!(
        encode_response(&Response::Status(status)),
        "STATUS\tbackend=howdy-incomplete\tir=2\ttpm=1\n"
    );
    let status = DaemonStatus {
        backend: "x\ty".into(),
        strict_ir_devices: 0,
        tpm_present: false,
    };
    assert_eq!(
        encode_response(&Response::Status(status)),
        "STATUS\tbackend=x y\tir=0\ttpm=0\n"
    );
}

#[test]
fn sanitize_keeps_at_most_256_characters() {
    assert_eq!(sanitize("plain"), "plain");
    let long = "é".repeat(300);
    assert_eq!(sanitize(&long).chars().count(), 256);
    assert_eq!(sanitize(&long), "é".repeat(256));
}
