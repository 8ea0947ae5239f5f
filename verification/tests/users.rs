//! The caller's own profile and its verification flags.

use cargo_registry::users::{me, Email, User};

fn users() -> Vec<User> {
    vec![
        User {
            id: 1,
            gh_login: String::from("alice-gh"),
        },
        User {
            id: 2,
            gh_login: String::from("bob-gh"),
        },
    ]
}

#[test]
fn me_joins_the_email_row() {
    let emails = vec![Email {
        user_id: 1,
        email: String::from("alice@example.com"),
        verified: false,
        token_generated_at: Some(5),
    }];
    let m = me(&users(), &emails, 1).unwrap();
    assert_eq!(m.id, 1);
    assert_eq!(m.gh_login, "alice-gh");
    assert_eq!(m.email.as_deref(), Some("alice@example.com"));
    assert!(!m.email_verified);
    // A confirmation token was generated, so a mail went out.
    assert!(m.email_verification_sent);
}

#[test]
fn a_verified_address_always_counts_as_sent() {
    let emails = vec![Email {
        user_id: 2,
        email: String::from("bob@example.com"),
        verified: true,
        token_generated_at: None,
    }];
    let m = me(&users(), &emails, 2).unwrap();
    assert!(m.email_verified);
    assert!(m.email_verification_sent);
}

#[test]
fn a_user_without_an_email_row_has_no_flags_set() {
    let m = me(&users(), &Vec::new(), 2).unwrap();
    assert_eq!(m.email, None);
    assert!(!m.email_verified);
    assert!(!m.email_verification_sent);
}

#[test]
fn an_unknown_user_is_not_found() {
    assert!(me(&users(), &Vec::new(), 9).is_err());
}
