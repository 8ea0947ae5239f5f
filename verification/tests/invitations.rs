//! Owner invitations: listing, accepting, and accepting by token.

use cargo_registry::invitations::{
    accept_invite, decline_invite, handle_invite_with_token, list, CrateOwnerInvitation,
    InvitationResponse, InvitationStore,
};

fn store_with_invites() -> InvitationStore {
    InvitationStore {
        invitations: vec![
            CrateOwnerInvitation {
                invited_user_id: 5,
                invited_by_user_id: 1,
                crate_id: 10,
                created_at: 0,
                token: String::from("token-a"),
            },
            CrateOwnerInvitation {
                invited_user_id: 5,
                invited_by_user_id: 2,
                crate_id: 11,
                created_at: 0,
                token: String::from("token-b"),
            },
            CrateOwnerInvitation {
                invited_user_id: 6,
                invited_by_user_id: 1,
                crate_id: 10,
                created_at: 0,
                token: String::from("token-c"),
            },
        ],
        owners: Vec::new(),
    }
}

#[test]
fn list_returns_the_users_pending_invitations() {
    let store = store_with_invites();
    assert_eq!(list(&store, 5), vec![10, 11]);
    assert_eq!(list(&store, 6), vec![10]);
    assert_eq!(list(&store, 7), Vec::<i32>::new());
}

#[test]
fn accepting_an_invitation_adds_the_owner_and_removes_the_invitation() {
    let mut store = store_with_invites();
    let response = InvitationResponse {
        crate_id: 10,
        accepted: true,
    };
    let accepted = accept_invite(&mut store, 5, response).unwrap();
    assert_eq!(accepted, response);
    assert_eq!(store.owners.len(), 1);
    assert_eq!(store.owners[0].crate_id, 10);
    assert_eq!(store.owners[0].owner_id, 5);
    assert_eq!(list(&store, 5), vec![11]);
    // The other user's invitation to the same crate is untouched.
    assert_eq!(list(&store, 6), vec![10]);
}

#[test]
fn accepting_without_an_invitation_fails_and_changes_nothing() {
    let mut store = store_with_invites();
    let response = InvitationResponse {
        crate_id: 99,
        accepted: true,
    };
    assert!(accept_invite(&mut store, 5, response).is_err());
    assert_eq!(store.owners.len(), 0);
    assert_eq!(store.invitations.len(), 3);
}

#[test]
fn declining_removes_the_invitation_without_granting_ownership() {
    let mut store = store_with_invites();
    let response = InvitationResponse {
        crate_id: 10,
        accepted: false,
    };
    decline_invite(&mut store, 5, response);
    assert_eq!(store.owners.len(), 0);
    assert_eq!(list(&store, 5), vec![11]);
    // Declining again, or declining what was never offered, changes nothing.
    decline_invite(&mut store, 5, response);
    assert_eq!(store.invitations.len(), 2);
}

#[test]
fn a_token_accepts_the_invitation_it_was_mailed_for() {
    let mut store = store_with_invites();
    let response = handle_invite_with_token(&mut store, "token-b").unwrap();
    assert!(response.accepted);
    assert_eq!(response.crate_id, 11);
    assert_eq!(store.owners.len(), 1);
    assert_eq!(store.owners[0].owner_id, 5);
    assert_eq!(store.owners[0].crate_id, 11);

    assert!(handle_invite_with_token(&mut store, "no-such-token").is_err());
}
