//! API token listing: unrevoked tokens only, newest first.

use cargo_registry::tokens::{list, ApiToken};

fn token(id: i32, user_id: i32, name: &str, revoked: bool, created_at: i64) -> ApiToken {
    ApiToken {
        id,
        user_id,
        name: String::from(name),
        revoked,
        created_at,
    }
}

#[test]
fn list_returns_live_tokens_newest_first() {
    let tokens = vec![
        token(1, 5, "ci", false, 100),
        token(2, 5, "laptop", false, 200),
        token(3, 6, "other-user", false, 250),
        token(4, 5, "revoked", true, 300),
        token(5, 5, "newest", false, 400),
    ];
    assert_eq!(list(&tokens, 5), vec![5, 2, 1]);
    assert_eq!(list(&tokens, 6), vec![3]);
    assert_eq!(list(&tokens, 7), Vec::<i32>::new());
}
