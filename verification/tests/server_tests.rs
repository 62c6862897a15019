use authentication::{
    decode_response, encode_request, encode_response, get_users_old, interpret_response,
    ClientError, ConnectionStep, DeniedReason, Login, LoginAction, Role, SharedStore, User,
};

fn request_bytes(username: &str, password: &str) -> Vec<u8> {
    encode_request(&Login {
        username: username.to_string(),
        password: password.to_string(),
    })
}

fn respond_bytes(step: ConnectionStep) -> Vec<u8> {
    match step {
        ConnectionStep::Respond(bytes) => bytes,
        ConnectionStep::Close => panic!("expected a response, connection closed"),
    }
}

#[test]
fn scenario_accepted_admin() {
    let users = get_users_old();
    let step = authentication::connection_step(&users, &request_bytes("Adam ", "password \r\n"));
    let reply = respond_bytes(step);
    assert_eq!(
        decode_response(reply.as_slice()),
        Some(Some(LoginAction::Accept(Role::Admin)))
    );
}

#[test]
fn scenario_denied_password_expired() {
    let users = get_users_old();
    let step = authentication::connection_step(&users, &request_bytes("jake", "password"));
    let reply = respond_bytes(step);
    assert_eq!(
        decode_response(reply.as_slice()),
        Some(Some(LoginAction::Denied(DeniedReason::PasswordExpired)))
    );
}

#[test]
fn scenario_unknown_user() {
    let users = get_users_old();
    let step = authentication::connection_step(&users, &request_bytes("ghost", "password"));
    let reply = respond_bytes(step);
    assert_eq!(decode_response(reply.as_slice()), Some(None));
}

#[test]
fn scenario_wrong_password_same_wire_shape() {
    let users = get_users_old();
    let unknown = respond_bytes(authentication::connection_step(
        &users,
        &request_bytes("ghost", "password"),
    ));
    let wrong = respond_bytes(authentication::connection_step(
        &users,
        &request_bytes("adam", "wrong-password"),
    ));
    assert_eq!(wrong, unknown);
    assert_eq!(decode_response(wrong.as_slice()), Some(None));
}

#[test]
fn scenario_malformed_bytes_close_without_response() {
    let users = get_users_old();
    let valid = request_bytes("adam", "password");
    // Truncations of a valid request, arbitrary garbage, and a shutdown read.
    for cut in 0..valid.len() {
        match authentication::connection_step(&users, &valid[0..cut]) {
            ConnectionStep::Close => {}
            ConnectionStep::Respond(_) if cut == 0 => panic!("empty read must close"),
            ConnectionStep::Respond(_) => panic!("truncated request must close, cut {cut}"),
        }
    }
    match authentication::connection_step(&users, &[0xFF, 0x00, 0x12]) {
        ConnectionStep::Close => {}
        ConnectionStep::Respond(_) => panic!("garbage must close"),
    }
}

#[test]
fn shared_store_serves_connections() {
    let shared = SharedStore::new(get_users_old());
    let reply = respond_bytes(shared.handle_frame(&request_bytes("Adam", "password")));
    assert_eq!(
        decode_response(reply.as_slice()),
        Some(Some(LoginAction::Accept(Role::Admin)))
    );
    match shared.handle_frame(&[]) {
        ConnectionStep::Close => {}
        ConnectionStep::Respond(_) => panic!("empty read must close"),
    }
    assert_eq!(
        shared.authenticate("MIKE", "password"),
        Some(LoginAction::Accept(Role::User))
    );
    assert_eq!(shared.authenticate("ghost", "password"), None);
}

#[test]
fn shared_store_management() {
    let shared = SharedStore::new(get_users_old());
    assert!(shared.add_user("kent", "secret", None, None));
    assert!(!shared.add_user("Kent", "secret", None, None));
    assert_eq!(
        shared.authenticate("kent", "secret"),
        Some(LoginAction::Accept(Role::User))
    );
    assert!(shared.change_password("kent", "renewed"));
    assert_eq!(shared.authenticate("kent", "secret"), None);
    assert_eq!(
        shared.authenticate("kent", "renewed"),
        Some(LoginAction::Accept(Role::User))
    );
    assert!(shared.delete_user("kent"));
    assert_eq!(shared.authenticate("kent", "renewed"), None);
    assert_eq!(shared.list().len(), 4);
}

#[test]
fn client_interprets_responses() {
    let accepted = encode_response(&Some(LoginAction::Accept(Role::Limited)));
    assert_eq!(
        interpret_response(accepted.as_slice()),
        Ok(LoginAction::Accept(Role::Limited))
    );
    let absent = encode_response(&None);
    assert_eq!(
        interpret_response(absent.as_slice()),
        Err(ClientError::UnknownUser)
    );
    assert_eq!(
        interpret_response(&[9, 9, 9]),
        Err(ClientError::MalformedResponse)
    );
    assert_eq!(interpret_response(&[]), Err(ClientError::MalformedResponse));
}

#[test]
fn from_records_keeps_the_last_of_equal_keys() {
    let records = vec![
        User::new("Adam", "one", LoginAction::Accept(Role::Admin)),
        User::new("adam ", "two", LoginAction::Accept(Role::Limited)),
        User::new("mike", "pw", LoginAction::Accept(Role::User)),
    ];
    let shared = SharedStore::from_records(records);
    assert_eq!(shared.list().len(), 2);
    assert_eq!(shared.authenticate("adam", "one"), None);
    assert_eq!(
        shared.authenticate("ADAM", "two"),
        Some(LoginAction::Accept(Role::Limited))
    );
}

#[test]
fn concurrent_readers_observe_consistent_records() {
    let shared = SharedStore::new(get_users_old());
    let shared_ref = &shared;
    rayon::scope(|scope| {
        // Many concurrent readers of a record that nobody mutates.
        for _ in 0..8 {
            scope.spawn(move |_| {
                for _ in 0..200 {
                    assert_eq!(
                        shared_ref.authenticate("adam", "password"),
                        Some(LoginAction::Accept(Role::Admin))
                    );
                    let reply = respond_bytes(
                        shared_ref.handle_frame(&request_bytes("jake", "password")),
                    );
                    assert_eq!(
                        decode_response(reply.as_slice()),
                        Some(Some(LoginAction::Denied(DeniedReason::PasswordExpired)))
                    );
                }
            });
        }
        // A writer mutating other records while the readers run: no reader
        // above ever sees a torn or missing record.
        scope.spawn(move |_| {
            for round in 0..100 {
                shared_ref.add_user("temp", "pw", None, None);
                shared_ref.change_password("mike", if round % 2 == 0 { "a" } else { "b" });
                shared_ref.delete_user("temp");
            }
        });
    });
    // After the dust settles the untouched records are intact.
    assert_eq!(
        shared.authenticate("adam", "password"),
        Some(LoginAction::Accept(Role::Admin))
    );
    assert_eq!(shared.list().len(), 4);
}
