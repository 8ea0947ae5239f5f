//! API tokens: listing a user's live tokens, newest first.

use vstd::prelude::*;

verus! {

/// One API token row. Rows are appended as tokens are created, so the
/// store's order is creation order.
pub struct ApiToken {
    pub id: i32,
    pub user_id: i32,
    pub name: String,
    pub revoked: bool,
    pub created_at: i64,
}

/// The ids of the user's unrevoked tokens, newest creation first.
pub open spec fn spec_live_tokens_desc(tokens: Seq<ApiToken>, user_id: i32) -> Seq<i32>
    decreases tokens.len(),
{
    if tokens.len() == 0 {
        Seq::empty()
    } else {
        (if tokens.last().user_id == user_id && !tokens.last().revoked {
            seq![tokens.last().id]
        } else {
            Seq::empty()
        }) + spec_live_tokens_desc(tokens.drop_last(), user_id)
    }
}

/// List the ids of a user's unrevoked tokens, most recently created first.
pub fn list(tokens: &Vec<ApiToken>, user_id: i32) -> (r: Vec<i32>)
    requires
        forall|i: int, j: int|
            0 <= i < j < tokens@.len() ==> (#[trigger] tokens@[i]).created_at <= (
            #[trigger] tokens@[j]).created_at,
    ensures
        r@ == spec_live_tokens_desc(tokens@, user_id),
{
    let mut out: Vec<i32> = Vec::new();
    let n = tokens.len();
    let mut i: usize = n;
    proof {
        assert(tokens@.take(n as int) =~= tokens@);
        assert(out@ + spec_live_tokens_desc(tokens@, user_id) =~= spec_live_tokens_desc(
            tokens@,
            user_id,
        ));
    }
    while i > 0
        invariant
            0 <= i <= n,
            n == tokens@.len(),
            out@ + spec_live_tokens_desc(tokens@.take(i as int), user_id) == spec_live_tokens_desc(
                tokens@,
                user_id,
            ),
        decreases i,
    {
        i -= 1;
        let ghost prefix = tokens@.take(i + 1);
        proof {
            assert(prefix.drop_last() =~= tokens@.take(i as int));
            assert(prefix.last() == tokens@[i as int]);
        }
        if tokens[i].user_id == user_id && !tokens[i].revoked {
            out.push(tokens[i].id);
            proof {
                assert(out@ + spec_live_tokens_desc(tokens@.take(i as int), user_id)
                    =~= spec_live_tokens_desc(tokens@, user_id));
            }
        }
    }
    proof {
        assert(tokens@.take(0) =~= Seq::<ApiToken>::empty());
        assert(out@ =~= spec_live_tokens_desc(tokens@, user_id));
    }
    out
}

} // verus!
