//! The authenticated user's own profile: the user row joined with their
//! email row, with the verification flags the frontend shows.

use vstd::prelude::*;

verus! {

/// One registered user.
pub struct User {
    pub id: i32,
    pub gh_login: String,
}

/// A user's email row, with its verification state; `token_generated_at`
/// records that a confirmation mail was sent.
pub struct Email {
    pub user_id: i32,
    pub email: String,
    pub verified: bool,
    pub token_generated_at: Option<i64>,
}

/// What the profile endpoint reports about the caller.
#[derive(Debug)]
pub struct EncodableMe {
    pub id: i32,
    pub gh_login: String,
    pub email: Option<String>,
    pub email_verified: bool,
    pub email_verification_sent: bool,
}

/// Why the profile could not be produced.
#[derive(PartialEq, Eq, Structural, Clone, Copy, Debug)]
pub enum UserError {
    NotFound,
}

/// The first email row of a user, if any.
pub open spec fn spec_email_of(emails: Seq<Email>, user_id: i32) -> Option<int> {
    if exists|i: int| 0 <= i < emails.len() && (#[trigger] emails[i]).user_id == user_id {
        Some(choose|i: int| 0 <= i < emails.len() && (#[trigger] emails[i]).user_id == user_id)
    } else {
        None
    }
}

/// The caller's profile: their user row joined with their email, reporting
/// whether the address is verified and whether a confirmation mail has been
/// sent — a verified address always counts as having been sent one.
pub fn me(users: &Vec<User>, emails: &Vec<Email>, user_id: i32) -> (r: Result<
    EncodableMe,
    UserError,
>)
    requires
        forall|i: int, j: int|
            0 <= i < j < users@.len() ==> (#[trigger] users@[i]).id != (#[trigger] users@[j]).id,
        forall|i: int, j: int|
            0 <= i < j < emails@.len() ==> (#[trigger] emails@[i]).user_id != (
            #[trigger] emails@[j]).user_id,
    ensures
        r is Ok <==> exists|i: int| 0 <= i < users@.len() && (#[trigger] users@[i]).id == user_id,
        r matches Ok(m) ==> {
            &&& m.id == user_id
            &&& (exists|i: int|
                0 <= i < users@.len() && (#[trigger] users@[i]).id == user_id && m.gh_login@
                    == users@[i].gh_login@)
            &&& match spec_email_of(emails@, user_id) {
                Some(k) => {
                    &&& m.email matches Some(e) && e@ == emails@[k].email@
                    &&& m.email_verified == emails@[k].verified
                    &&& m.email_verification_sent == (emails@[k].verified
                        || emails@[k].token_generated_at is Some)
                },
                None => m.email is None && !m.email_verified && !m.email_verification_sent,
            }
        },
{
    let n = users.len();
    let mut i: usize = 0;
    while i < n
        invariant
            0 <= i <= n,
            n == users@.len(),
            forall|j: int| 0 <= j < i ==> (#[trigger] users@[j]).id != user_id,
            forall|i2: int, j: int|
                0 <= i2 < j < users@.len() ==> (#[trigger] users@[i2]).id != (
                #[trigger] users@[j]).id,
            forall|i2: int, j: int|
                0 <= i2 < j < emails@.len() ==> (#[trigger] emails@[i2]).user_id != (
                #[trigger] emails@[j]).user_id,
        decreases n - i,
    {
        if users[i].id == user_id {
            let (email, email_verified, email_verification_sent) = match find_email(
                emails,
                user_id,
            ) {
                Some(k) => {
                    let row = &emails[k];
                    let sent = row.verified || match row.token_generated_at {
                        Some(_) => true,
                        None => false,
                    };
                    (Some(row.email.clone()), row.verified, sent)
                },
                None => (None, false, false),
            };
            return Ok(
                EncodableMe {
                    id: user_id,
                    gh_login: users[i].gh_login.clone(),
                    email,
                    email_verified,
                    email_verification_sent,
                },
            );
        }
        i += 1;
    }
    Err(UserError::NotFound)
}

/// The index of the user's email row.
fn find_email(emails: &Vec<Email>, user_id: i32) -> (r: Option<usize>)
    requires
        forall|i: int, j: int|
            0 <= i < j < emails@.len() ==> (#[trigger] emails@[i]).user_id != (
            #[trigger] emails@[j]).user_id,
    ensures
        match r {
            Some(k) => spec_email_of(emails@, user_id) == Some(k as int) && k < emails@.len(),
            None => spec_email_of(emails@, user_id) is None,
        },
{
    let n = emails.len();
    let mut i: usize = 0;
    while i < n
        invariant
            0 <= i <= n,
            n == emails@.len(),
            forall|i2: int, j: int|
                0 <= i2 < j < emails@.len() ==> (#[trigger] emails@[i2]).user_id != (
                #[trigger] emails@[j]).user_id,
            forall|j: int| 0 <= j < i ==> (#[trigger] emails@[j]).user_id != user_id,
        decreases n - i,
    {
        if emails[i].user_id == user_id {
            proof {
                let k = choose|k: int|
                    0 <= k < emails@.len() && (#[trigger] emails@[k]).user_id == user_id;
                assert(k == i);
            }
            return Some(i);
        }
        i += 1;
    }
    None
}

} // verus!
