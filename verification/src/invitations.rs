//! Crate-owner invitations: listing a user's pending invitations, and
//! accepting one — by explicit response or by emailed token — which turns
//! the invitation into an ownership row and removes it.

use vstd::prelude::*;

use crate::index_format::str_equal;
use crate::publish::OwnerRow;

verus! {

/// One pending invitation: `invited_user_id` may become an owner of
/// `crate_id`, invited by `invited_by_user_id`; `token` accepts it by link.
pub struct CrateOwnerInvitation {
    pub invited_user_id: i32,
    pub invited_by_user_id: i32,
    pub crate_id: i32,
    pub created_at: i64,
    pub token: String,
}

/// The caller's answer to an invitation.
#[derive(PartialEq, Eq, Structural, Clone, Copy, Debug)]
pub struct InvitationResponse {
    pub crate_id: i32,
    pub accepted: bool,
}

/// The invitation store and the ownership rows it feeds.
pub struct InvitationStore {
    pub invitations: Vec<CrateOwnerInvitation>,
    pub owners: Vec<OwnerRow>,
}

/// Why an invitation operation failed.
#[derive(PartialEq, Eq, Structural, Clone, Copy, Debug)]
pub enum InvitationError {
    NotFound,
}

impl InvitationStore {
    /// One invitation per (invited user, crate) pair, and one per token.
    pub open spec fn wf(self) -> bool {
        &&& forall|i: int, j: int|
            0 <= i < j < self.invitations@.len() ==> !((#[trigger] self.invitations@[i]).invited_user_id
                == (#[trigger] self.invitations@[j]).invited_user_id
                && self.invitations@[i].crate_id == self.invitations@[j].crate_id)
        &&& forall|i: int, j: int|
            0 <= i < j < self.invitations@.len() ==> (#[trigger] self.invitations@[i]).token@ != (
            #[trigger] self.invitations@[j]).token@
    }

    pub open spec fn spec_has_invitation(self, user_id: i32, crate_id: i32) -> bool {
        exists|i: int|
            0 <= i < self.invitations@.len() && (#[trigger] self.invitations@[i]).invited_user_id
                == user_id && self.invitations@[i].crate_id == crate_id
    }

    pub open spec fn spec_invitation_by_token(self, token: Seq<char>) -> Option<int> {
        if exists|i: int| 0 <= i < self.invitations@.len() && (
        #[trigger] self.invitations@[i]).token@ == token {
            Some(
                choose|i: int|
                    0 <= i < self.invitations@.len() && (#[trigger] self.invitations@[i]).token@
                        == token,
            )
        } else {
            None
        }
    }

    pub open spec fn spec_is_owner(self, crate_id: i32, user_id: i32) -> bool {
        exists|i: int|
            0 <= i < self.owners@.len() && (#[trigger] self.owners@[i]).crate_id == crate_id
                && self.owners@[i].owner_id == user_id
    }
}

/// The crate ids a user is invited to, in store order.
pub open spec fn spec_invited_crates(invs: Seq<CrateOwnerInvitation>, user_id: i32) -> Seq<i32>
    decreases invs.len(),
{
    if invs.len() == 0 {
        Seq::empty()
    } else {
        spec_invited_crates(invs.drop_last(), user_id) + (if invs.last().invited_user_id
            == user_id {
            seq![invs.last().crate_id]
        } else {
            Seq::empty()
        })
    }
}

/// List the crates a user holds pending invitations for.
pub fn list(store: &InvitationStore, user_id: i32) -> (r: Vec<i32>)
    ensures
        r@ == spec_invited_crates(store.invitations@, user_id),
{
    let mut out: Vec<i32> = Vec::new();
    let n = store.invitations.len();
    let mut i: usize = 0;
    while i < n
        invariant
            0 <= i <= n,
            n == store.invitations@.len(),
            out@ == spec_invited_crates(store.invitations@.take(i as int), user_id),
        decreases n - i,
    {
        let ghost prefix = store.invitations@.take(i as int);
        if store.invitations[i].invited_user_id == user_id {
            out.push(store.invitations[i].crate_id);
        }
        proof {
            assert(store.invitations@.take(i + 1).drop_last() =~= prefix);
        }
        i += 1;
    }
    proof {
        assert(store.invitations@.take(n as int) =~= store.invitations@);
    }
    out
}

/// Accept one invitation: add (or keep) the ownership row and delete the
/// invitation. Fails, changing nothing, when the user holds no invitation
/// for that crate.
pub fn accept_invite(store: &mut InvitationStore, user_id: i32, response: InvitationResponse) -> (r:
    Result<InvitationResponse, InvitationError>)
    requires
        old(store).wf(),
    ensures
        final(store).wf(),
        r is Ok <==> old(store).spec_has_invitation(user_id, response.crate_id),
        r matches Ok(resp) ==> resp == response,
        r is Ok ==> {
            &&& final(store).spec_is_owner(response.crate_id, user_id)
            &&& !final(store).spec_has_invitation(user_id, response.crate_id)
            &&& ({
                let fs = *final(store);
                forall|u: i32, c: i32|
                    !(u == user_id && c == response.crate_id) ==> #[trigger] fs.spec_has_invitation(
                        u,
                        c,
                    ) == old(store).spec_has_invitation(u, c)
            })
            &&& (forall|u: i32, c: i32|
                old(store).spec_is_owner(c, u) ==> #[trigger] final(store).spec_is_owner(c, u))
        },
        r is Err ==> *final(store) == *old(store),
{
    let n = store.invitations.len();
    let mut i: usize = 0;
    while i < n
        invariant
            0 <= i <= n,
            n == store.invitations@.len(),
            store == old(store),
            old(store).wf(),
            forall|j: int|
                0 <= j < i ==> !((#[trigger] store.invitations@[j]).invited_user_id == user_id
                    && store.invitations@[j].crate_id == response.crate_id),
        decreases n - i,
    {
        if store.invitations[i].invited_user_id == user_id && store.invitations[i].crate_id
            == response.crate_id {
            let already = store_is_owner(store, response.crate_id, user_id);
            if !already {
                store.owners.push(OwnerRow { crate_id: response.crate_id, owner_id: user_id });
            }
            store.invitations.remove(i);
            proof {
                if already {
                    let k = choose|k: int|
                        0 <= k < old(store).owners@.len() && (#[trigger] old(
                            store,
                        ).owners@[k]).crate_id == response.crate_id && old(
                            store,
                        ).owners@[k].owner_id == user_id;
                    assert(store.owners@[k].crate_id == response.crate_id
                        && store.owners@[k].owner_id == user_id);
                } else {
                    let last = store.owners@.len() - 1;
                    assert(store.owners@[last].crate_id == response.crate_id
                        && store.owners@[last].owner_id == user_id);
                }
                assert(store.spec_is_owner(response.crate_id, user_id));
                assert forall|u: i32, c: i32| old(store).spec_is_owner(c, u) implies
                    store.spec_is_owner(c, u) by {
                    let k = choose|k: int|
                        0 <= k < old(store).owners@.len() && (#[trigger] old(
                            store,
                        ).owners@[k]).crate_id == c && old(store).owners@[k].owner_id == u;
                    assert(store.owners@[k].crate_id == c && store.owners@[k].owner_id == u);
                }
                assert(forall|j: int|
                    0 <= j < store.invitations@.len() ==> #[trigger] store.invitations@[j] == (if j
                        < i {
                        old(store).invitations@[j]
                    } else {
                        old(store).invitations@[j + 1]
                    }));
                assert forall|u: i32, c: i32|
                    !(u == user_id && c == response.crate_id) implies #[trigger] store.spec_has_invitation(
                    u,
                    c,
                ) == old(store).spec_has_invitation(u, c) by {
                    if exists|k: int|
                        0 <= k < store.invitations@.len() && (
                        #[trigger] store.invitations@[k]).invited_user_id == u
                            && store.invitations@[k].crate_id == c {
                        let k = choose|k: int|
                            0 <= k < store.invitations@.len() && (
                            #[trigger] store.invitations@[k]).invited_user_id == u
                                && store.invitations@[k].crate_id == c;
                        let ghost ko = if k < i {
                            k
                        } else {
                            k + 1
                        };
                        assert(old(store).invitations@[ko].invited_user_id == u && old(
                            store,
                        ).invitations@[ko].crate_id == c);
                    } else {
                        if exists|k2: int|
                            0 <= k2 < old(store).invitations@.len() && (#[trigger] old(
                                store,
                            ).invitations@[k2]).invited_user_id == u && old(
                                store,
                            ).invitations@[k2].crate_id == c {
                            let k2 = choose|k2: int|
                                0 <= k2 < old(store).invitations@.len() && (#[trigger] old(
                                    store,
                                ).invitations@[k2]).invited_user_id == u && old(
                                    store,
                                ).invitations@[k2].crate_id == c;
                            assert(k2 != i);
                            let ghost kn = if k2 < i {
                                k2
                            } else {
                                k2 - 1
                            };
                            assert(store.invitations@[kn].invited_user_id == u
                                && store.invitations@[kn].crate_id == c);
                        }
                    }
                }
                assert forall|k: int|
                    0 <= k < store.invitations@.len() implies !((
                #[trigger] store.invitations@[k]).invited_user_id == user_id
                    && store.invitations@[k].crate_id == response.crate_id) by {
                    let ghost ko = if k < i {
                        k
                    } else {
                        k + 1
                    };
                    assert(store.invitations@[k] == old(store).invitations@[ko]);
                }
            }
            return Ok(response);
        }
        i += 1;
    }
    Err(InvitationError::NotFound)
}

/// Decline one invitation: delete it without granting anything. Declining
/// an invitation that does not exist is not an error; nothing changes.
pub fn decline_invite(store: &mut InvitationStore, user_id: i32, response: InvitationResponse) -> (r:
    InvitationResponse)
    requires
        old(store).wf(),
    ensures
        final(store).wf(),
        r == response,
        !final(store).spec_has_invitation(user_id, response.crate_id),
        final(store).owners@ == old(store).owners@,
        ({
            let fs = *final(store);
            forall|u: i32, c: i32|
                !(u == user_id && c == response.crate_id) ==> #[trigger] fs.spec_has_invitation(
                    u,
                    c,
                ) == old(store).spec_has_invitation(u, c)
        }),
{
    let n = store.invitations.len();
    let mut i: usize = 0;
    while i < n
        invariant
            0 <= i <= n,
            n == store.invitations@.len(),
            store == old(store),
            old(store).wf(),
            forall|j: int|
                0 <= j < i ==> !((#[trigger] store.invitations@[j]).invited_user_id == user_id
                    && store.invitations@[j].crate_id == response.crate_id),
        decreases n - i,
    {
        if store.invitations[i].invited_user_id == user_id && store.invitations[i].crate_id
            == response.crate_id {
            store.invitations.remove(i);
            proof {
                assert(forall|j: int|
                    0 <= j < store.invitations@.len() ==> #[trigger] store.invitations@[j] == (if j
                        < i {
                        old(store).invitations@[j]
                    } else {
                        old(store).invitations@[j + 1]
                    }));
                assert forall|u: i32, c: i32|
                    !(u == user_id && c == response.crate_id) implies #[trigger] store.spec_has_invitation(
                    u,
                    c,
                ) == old(store).spec_has_invitation(u, c) by {
                    if exists|k: int|
                        0 <= k < store.invitations@.len() && (
                        #[trigger] store.invitations@[k]).invited_user_id == u
                            && store.invitations@[k].crate_id == c {
                        let k = choose|k: int|
                            0 <= k < store.invitations@.len() && (
                            #[trigger] store.invitations@[k]).invited_user_id == u
                                && store.invitations@[k].crate_id == c;
                        let ghost ko = if k < i {
                            k
                        } else {
                            k + 1
                        };
                        assert(old(store).invitations@[ko].invited_user_id == u && old(
                            store,
                        ).invitations@[ko].crate_id == c);
                    } else {
                        if exists|k2: int|
                            0 <= k2 < old(store).invitations@.len() && (#[trigger] old(
                                store,
                            ).invitations@[k2]).invited_user_id == u && old(
                                store,
                            ).invitations@[k2].crate_id == c {
                            let k2 = choose|k2: int|
                                0 <= k2 < old(store).invitations@.len() && (#[trigger] old(
                                    store,
                                ).invitations@[k2]).invited_user_id == u && old(
                                    store,
                                ).invitations@[k2].crate_id == c;
                            assert(k2 != i);
                            let ghost kn = if k2 < i {
                                k2
                            } else {
                                k2 - 1
                            };
                            assert(store.invitations@[kn].invited_user_id == u
                                && store.invitations@[kn].crate_id == c);
                        }
                    }
                }
                assert forall|k: int|
                    0 <= k < store.invitations@.len() implies !((
                #[trigger] store.invitations@[k]).invited_user_id == user_id
                    && store.invitations@[k].crate_id == response.crate_id) by {
                    let ghost ko = if k < i {
                        k
                    } else {
                        k + 1
                    };
                    assert(store.invitations@[k] == old(store).invitations@[ko]);
                }
            }
            return response;
        }
        i += 1;
    }
    response
}

/// Whether an ownership row exists.
fn store_is_owner(store: &InvitationStore, crate_id: i32, user_id: i32) -> (r: bool)
    ensures
        r == store.spec_is_owner(crate_id, user_id),
{
    let n = store.owners.len();
    let mut i: usize = 0;
    while i < n
        invariant
            0 <= i <= n,
            n == store.owners@.len(),
            forall|j: int|
                0 <= j < i ==> !((#[trigger] store.owners@[j]).crate_id == crate_id
                    && store.owners@[j].owner_id == user_id),
        decreases n - i,
    {
        if store.owners[i].crate_id == crate_id && store.owners[i].owner_id == user_id {
            return true;
        }
        i += 1;
    }
    false
}

/// Accept an invitation through its emailed token: the invitation it names
/// is accepted on behalf of the user it was addressed to.
pub fn handle_invite_with_token(store: &mut InvitationStore, token: &str) -> (r: Result<
    InvitationResponse,
    InvitationError,
>)
    requires
        old(store).wf(),
    ensures
        final(store).wf(),
        r is Ok <==> old(store).spec_invitation_by_token(token@) is Some,
        r matches Ok(resp) ==> {
            let inv = old(store).invitations@[old(store).spec_invitation_by_token(
                token@,
            ).unwrap()];
            &&& resp.accepted
            &&& resp.crate_id == inv.crate_id
            &&& final(store).spec_is_owner(inv.crate_id, inv.invited_user_id)
            &&& !final(store).spec_has_invitation(inv.invited_user_id, inv.crate_id)
        },
        r is Err ==> *final(store) == *old(store),
{
    match find_by_token(store, token) {
        None => Err(InvitationError::NotFound),
        Some((user_id, crate_id)) => {
            let response = InvitationResponse { crate_id, accepted: true };
            proof {
                let k = old(store).spec_invitation_by_token(token@).unwrap();
                assert(old(store).spec_has_invitation(user_id, crate_id));
            }
            accept_invite(store, user_id, response)
        },
    }
}

/// The invited user and crate of the invitation carrying this token.
fn find_by_token(store: &InvitationStore, token: &str) -> (r: Option<(i32, i32)>)
    requires
        store.wf(),
    ensures
        r is Some <==> store.spec_invitation_by_token(token@) is Some,
        r matches Some(p) ==> {
            let inv = store.invitations@[store.spec_invitation_by_token(token@).unwrap()];
            p.0 == inv.invited_user_id && p.1 == inv.crate_id
        },
{
    let n = store.invitations.len();
    let mut i: usize = 0;
    while i < n
        invariant
            0 <= i <= n,
            n == store.invitations@.len(),
            store.wf(),
            forall|j: int| 0 <= j < i ==> (#[trigger] store.invitations@[j]).token@ != token@,
        decreases n - i,
    {
        if str_equal(store.invitations[i].token.as_str(), token) {
            proof {
                let k = choose|k: int|
                    0 <= k < store.invitations@.len() && (#[trigger] store.invitations@[k]).token@
                        == token@;
                assert(k == i);
            }
            return Some((store.invitations[i].invited_user_id, store.invitations[i].crate_id));
        }
        i += 1;
    }
    None
}

} // verus!
