use authentication::{
    decode_request, decode_response, encode_request, encode_response, DeniedReason, Login,
    LoginAction, Role,
};

fn request(username: &str, password: &str) -> Login {
    Login {
        username: username.to_string(),
        password: password.to_string(),
    }
}

#[test]
fn request_round_trip() {
    let cases = vec![
        request("adam", "password"),
        request("", ""),
        request("Adam ", " password\r\n"),
        request("påsswörd ☃ user", "s€cr3t ☃"),
    ];
    for req in cases {
        let bytes = encode_request(&req);
        let back = decode_request(bytes.as_slice());
        assert_eq!(back, Some(req));
    }
}

#[test]
fn response_round_trip() {
    let cases: Vec<Option<LoginAction>> = vec![
        None,
        Some(LoginAction::Accept(Role::Admin)),
        Some(LoginAction::Accept(Role::User)),
        Some(LoginAction::Accept(Role::Limited)),
        Some(LoginAction::Denied(DeniedReason::PasswordExpired)),
        Some(LoginAction::Denied(DeniedReason::AccountLocked {
            reason: "Contact HR!".to_string(),
        })),
        Some(LoginAction::Denied(DeniedReason::AccountLocked {
            reason: "arbitrary tëxt — even ☃ and \0 and \u{10FFFF}".to_string(),
        })),
        Some(LoginAction::Denied(DeniedReason::AccountLocked {
            reason: String::new(),
        })),
    ];
    for resp in cases {
        let bytes = encode_response(&resp);
        let back = decode_response(bytes.as_slice());
        assert_eq!(back, Some(resp));
    }
}

#[test]
fn exact_wire_bytes() {
    // An empty username and password: two zero length fields.
    let bytes = encode_request(&request("", ""));
    assert_eq!(bytes, vec![0u8; 16]);

    // "A" then "b": length 1, code point, twice.
    let bytes = encode_request(&request("A", "b"));
    assert_eq!(
        bytes,
        vec![
            1, 0, 0, 0, 0, 0, 0, 0, 0x41, 0, 0, 0, //
            1, 0, 0, 0, 0, 0, 0, 0, 0x62, 0, 0, 0,
        ]
    );

    assert_eq!(encode_response(&None), vec![0]);
    assert_eq!(
        encode_response(&Some(LoginAction::Accept(Role::Admin))),
        vec![1, 0, 0]
    );
    assert_eq!(
        encode_response(&Some(LoginAction::Accept(Role::Limited))),
        vec![1, 0, 2]
    );
    assert_eq!(
        encode_response(&Some(LoginAction::Denied(DeniedReason::PasswordExpired))),
        vec![1, 1, 0]
    );
}

#[test]
fn truncated_request_fails() {
    let bytes = encode_request(&request("adam", "password"));
    for cut in 0..bytes.len() {
        assert_eq!(decode_request(&bytes[0..cut]), None, "cut at {cut}");
    }
}

#[test]
fn trailing_bytes_fail() {
    let mut bytes = encode_request(&request("adam", "password"));
    bytes.push(0);
    assert_eq!(decode_request(bytes.as_slice()), None);

    let mut bytes = encode_response(&Some(LoginAction::Accept(Role::Admin)));
    bytes.push(7);
    assert_eq!(decode_response(bytes.as_slice()), None);

    let bytes = vec![0u8, 0u8];
    assert_eq!(decode_response(bytes.as_slice()), None);
}

#[test]
fn invalid_code_point_fails() {
    // One character whose code point is a surrogate: not a scalar value.
    let mut bytes: Vec<u8> = vec![1, 0, 0, 0, 0, 0, 0, 0];
    bytes.extend_from_slice(&0xD800u32.to_le_bytes());
    // A second, empty string to complete the request shape.
    bytes.extend_from_slice(&[0u8; 8]);
    assert_eq!(decode_request(bytes.as_slice()), None);
}

#[test]
fn bad_tags_fail() {
    assert_eq!(decode_response(&[2]), None);
    assert_eq!(decode_response(&[1, 2]), None);
    assert_eq!(decode_response(&[1, 0, 3]), None);
    assert_eq!(decode_response(&[1, 1, 5]), None);
    assert_eq!(decode_response(&[]), None);
}
