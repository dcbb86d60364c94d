use vstd::prelude::*;

use crate::retry::RecipientOutcome;

verus! {

/// The class of a transport reply code: 2xx accepted, 5xx refused for good,
/// anything else (4xx, or no reply at all) worth another try.
pub open spec fn classify_spec(code: u16) -> RecipientOutcome {
    if 200 <= code < 300 {
        RecipientOutcome::Delivered
    } else if 500 <= code < 600 {
        RecipientOutcome::Permanent
    } else {
        RecipientOutcome::Transient
    }
}

pub fn classify_reply(code: u16) -> (r: RecipientOutcome)
    ensures
        r == classify_spec(code),
{
    if 200 <= code && code < 300 {
        RecipientOutcome::Delivered
    } else if 500 <= code && code < 600 {
        RecipientOutcome::Permanent
    } else {
        RecipientOutcome::Transient
    }
}

/// The outcomes after one more host answered with `replies`: recipients still
/// pending take the class of their reply, the others keep theirs.
pub open spec fn merged(cur: Seq<RecipientOutcome>, replies: Seq<u16>) -> Seq<RecipientOutcome> {
    Seq::new(
        cur.len(),
        |i: int|
            if cur[i] == RecipientOutcome::Transient {
                classify_spec(replies[i])
            } else {
                cur[i]
            },
    )
}

/// Before any host is tried, every recipient is pending.
pub fn initial_outcomes(n: usize) -> (r: Vec<RecipientOutcome>)
    ensures
        r@ == Seq::new(n as nat, |i: int| RecipientOutcome::Transient),
{
    let mut r: Vec<RecipientOutcome> = Vec::new();
    let mut i: usize = 0;
    while i < n
        invariant
            i <= n,
            r@ == Seq::new(i as nat, |k: int| RecipientOutcome::Transient),
        decreases n - i,
    {
        r.push(RecipientOutcome::Transient);
        i = i + 1;
        proof {
            assert(r@ =~= Seq::new(i as nat, |k: int| RecipientOutcome::Transient));
        }
    }
    r
}

/// Folds the per-recipient replies of one host into the outcomes so far.
pub fn merge_attempt(cur: &Vec<RecipientOutcome>, replies: &Vec<u16>) -> (r: Vec<
    RecipientOutcome,
>)
    requires
        replies.len() == cur.len(),
    ensures
        r@ == merged(cur@, replies@),
{
    let mut r: Vec<RecipientOutcome> = Vec::new();
    let mut i: usize = 0;
    while i < cur.len()
        invariant
            i <= cur.len(),
            replies.len() == cur.len(),
            r@ == merged(cur@, replies@).take(i as int),
        decreases cur.len() - i,
    {
        let o = if cur[i] == RecipientOutcome::Transient {
            classify_reply(replies[i])
        } else {
            cur[i]
        };
        r.push(o);
        i = i + 1;
        proof {
            assert(r@ =~= merged(cur@, replies@).take(i as int));
        }
    }
    proof {
        assert(merged(cur@, replies@).take(i as int) =~= merged(cur@, replies@));
    }
    r
}

/// Some recipient is still pending, so the next candidate host is to be tried.
pub fn has_pending(outs: &Vec<RecipientOutcome>) -> (r: bool)
    ensures
        r == outs@.contains(RecipientOutcome::Transient),
{
    let mut i: usize = 0;
    while i < outs.len()
        invariant
            i <= outs.len(),
            forall|j: int| 0 <= j < i ==> outs@[j] != RecipientOutcome::Transient,
        decreases outs.len() - i,
    {
        if outs[i] == RecipientOutcome::Transient {
            proof {
                assert(outs@[i as int] == RecipientOutcome::Transient);
            }
            return true;
        }
        i = i + 1;
    }
    false
}

/// A recipient that was delivered or refused for good on one host is never
/// sent to a later one: its outcome survives every further merge.
pub proof fn law_settled_recipients_stay(
    cur: Seq<RecipientOutcome>,
    replies: Seq<u16>,
    i: int,
)
    requires
        0 <= i < cur.len(),
        cur[i] != RecipientOutcome::Transient,
    ensures
        merged(cur, replies)[i] == cur[i],
{
}

} // verus!
