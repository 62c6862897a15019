use authentication::{
    get_users_old, hash_password, login, normalize_username, trim, DeniedReason, LoginAction,
    Role, User, UserStore,
};

#[test]
fn test_enums() {
    let users = get_users_old();
    assert_eq!(
        login(&users, "Adam", "password"),
        Some(LoginAction::Accept(Role::Admin))
    );
    assert_eq!(
        login(&users, "mike", "password"),
        Some(LoginAction::Accept(Role::User))
    );
    assert_eq!(
        login(&users, "jake", "password"),
        Some(LoginAction::Denied(DeniedReason::PasswordExpired))
    );
    assert_eq!(login(&users, "anonymous", "none"), None);
    if let Some(LoginAction::Denied(DeniedReason::AccountLocked { reason: _ })) =
        login(&users, "kevin", "password")
    {
        // Everything OK
    } else {
        panic!("Failed to read kevin");
    }
}

#[test]
fn normalization_law_scenarios() {
    let users = get_users_old();
    let expected = Some(LoginAction::Accept(Role::Admin));
    assert_eq!(login(&users, "adam", "password"), expected);
    assert_eq!(login(&users, "ADAM", "password"), expected);
    assert_eq!(login(&users, "  AdAm \r\n", " password\r\n"), expected);
    assert_eq!(login(&users, "\tadam", "password  "), expected);
}

#[test]
fn unknown_user_is_empty() {
    let users = get_users_old();
    assert_eq!(login(&users, "ghost", "password"), None);
    assert_eq!(login(&users, "ghost", ""), None);
    assert_eq!(login(&users, "", "anything"), None);
}

#[test]
fn wrong_password_indistinguishable_from_unknown() {
    let users = get_users_old();
    let wrong = login(&users, "adam", "wrong-password");
    let unknown = login(&users, "ghost", "wrong-password");
    assert_eq!(wrong, None);
    assert_eq!(wrong, unknown);
}

#[test]
fn hashing_is_deterministic() {
    assert_eq!(hash_password("password"), hash_password("password"));
    assert_eq!(hash_password(""), hash_password(""));
    assert_ne!(hash_password("password"), hash_password("Password"));
    assert_ne!(hash_password("x"), hash_password("y"));
}

#[test]
fn hashing_is_one_way_shape() {
    // The digest is not the cleartext, and has the exact SHA-256 value.
    let digest = hash_password("password");
    assert_ne!(digest, "password");
    assert_eq!(
        digest,
        "5E884898DA28047151D0E56F8DC6292773603D0D6AABBDD62A11EF721D1542D8"
    );
    let other = hash_password("Ünïcode ☃");
    assert_eq!(other.chars().count(), 64);
    assert!(other.chars().all(|c| c.is_ascii_digit() || ('A'..='F').contains(&c)));
}

#[test]
fn trim_and_normalize_exact_values() {
    assert_eq!(trim("  hello \r\n"), "hello");
    assert_eq!(trim("hello"), "hello");
    assert_eq!(trim(" \t\r\n"), "");
    assert_eq!(trim(""), "");
    // Unicode whitespace trims too: no-break space, line separator.
    assert_eq!(trim("\u{A0}hello\u{2028}"), "hello");
    assert_eq!(normalize_username("  AdAm \r\n"), "adam");
    assert_eq!(normalize_username("ADAM"), "adam");
    assert_eq!(normalize_username("adam"), "adam");
    // Case folding is the full Unicode lowercasing.
    assert_eq!(normalize_username(" MÜller "), "müller");
    assert_eq!(normalize_username("ΣΊΣΥΦΟΣ"), "σίσυφος");
}

#[test]
fn user_new_hashes_the_password() {
    let user = User::new("someone", "cleartext", LoginAction::Accept(Role::Limited));
    assert_eq!(user.username, "someone");
    assert_ne!(user.password, "cleartext");
    assert_eq!(user.password, hash_password("cleartext"));
}

#[test]
fn user_new_stores_the_normalized_username() {
    let user = User::new("  SomeOne \r\n", "pw", LoginAction::Accept(Role::User));
    assert_eq!(user.username, "someone");
    let locked = User::new("MÜLLER", "pw", LoginAction::Accept(Role::User));
    assert_eq!(locked.username, "müller");
}

#[test]
fn unicode_username_reaches_its_record() {
    let mut users = UserStore::new();
    assert!(users.add_user("Müller", "geheim", None, None));
    assert_eq!(
        login(&users, "MÜLLER", "geheim"),
        Some(LoginAction::Accept(Role::User))
    );
    assert_eq!(
        login(&users, " müller\u{A0}", "geheim"),
        Some(LoginAction::Accept(Role::User))
    );
    assert_eq!(login(&users, "MÜLLER", "wrong"), None);
}

#[test]
fn store_add_lookup_delete() {
    let mut users = UserStore::new();
    assert!(users.add_user("Kent ", "secret", None, None));
    // The key is normalized: the same name in another case is taken.
    assert!(!users.add_user("kent", "other", None, None));
    assert_eq!(
        login(&users, "KENT", "secret"),
        Some(LoginAction::Accept(Role::User))
    );
    assert!(users.delete("kent"));
    assert!(!users.delete("kent"));
    assert_eq!(login(&users, "kent", "secret"), None);
}

#[test]
fn store_add_user_roles() {
    let mut users = UserStore::new();
    users.add_user("a", "pw", Some(true), None);
    users.add_user("b", "pw", None, Some(true));
    users.add_user("c", "pw", Some(false), Some(true));
    users.add_user("d", "pw", None, None);
    assert_eq!(login(&users, "a", "pw"), Some(LoginAction::Accept(Role::Limited)));
    assert_eq!(login(&users, "b", "pw"), Some(LoginAction::Accept(Role::Admin)));
    // The limited marker wins whenever it is given, whatever its value.
    assert_eq!(login(&users, "c", "pw"), Some(LoginAction::Accept(Role::Limited)));
    assert_eq!(login(&users, "d", "pw"), Some(LoginAction::Accept(Role::User)));
}

#[test]
fn store_change_password() {
    let mut users = get_users_old();
    assert!(users.change_password("mike", "renewed"));
    assert_eq!(login(&users, "mike", "password"), None);
    assert_eq!(
        login(&users, "mike", "renewed"),
        Some(LoginAction::Accept(Role::User))
    );
    assert!(!users.change_password("ghost", "whatever"));
}

#[test]
fn store_insert_replaces_same_key() {
    let mut users = UserStore::new();
    users.insert(User::new("Adam", "one", LoginAction::Accept(Role::Admin)));
    users.insert(User::new("adam ", "two", LoginAction::Accept(Role::Limited)));
    assert_eq!(users.records().len(), 1);
    assert_eq!(login(&users, "adam", "two"), Some(LoginAction::Accept(Role::Limited)));
    assert_eq!(login(&users, "adam", "one"), None);
}

#[test]
fn dispatch_invokes_exactly_one_handler() {
    let accepted = LoginAction::Accept(Role::User);
    let mut successes = 0;
    let mut denials = 0;
    accepted.do_login(|_role| successes += 1, |_reason| denials += 1);
    assert_eq!((successes, denials), (1, 0));

    let denied = LoginAction::Denied(DeniedReason::AccountLocked {
        reason: "Contact HR!".to_string(),
    });
    let mut successes = 0;
    let mut denials = 0;
    denied.do_login(|_role| successes += 1, |_reason| denials += 1);
    assert_eq!((successes, denials), (0, 1));
}

#[test]
fn standard_user_is_an_accepted_user() {
    assert_eq!(
        LoginAction::standard_user(),
        Some(LoginAction::Accept(Role::User))
    );
}
