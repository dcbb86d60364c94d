use vstd::prelude::*;

use crate::retry::{DeliveryUnit, UnitStatus};
use crate::text::{fn_rsplit_once, last_occurrence, occurs_at};

verus! {

/// The destination domain of an address: what follows its last `@`, or the
/// whole address where it has none.
pub open spec fn domain_of(a: Seq<char>) -> Seq<char> {
    if exists|i: int| last_occurrence(a, "@"@, i) {
        let i = choose|i: int| last_occurrence(a, "@"@, i);
        a.subrange(i + 1, a.len() as int)
    } else {
        a
    }
}

/// The recipients of `rs` whose domain is `d`, in their order.
pub open spec fn with_domain(rs: Seq<String>, d: Seq<char>) -> Seq<String>
    decreases rs.len(),
{
    if rs.len() == 0 {
        Seq::empty()
    } else {
        let prev = with_domain(rs.drop_last(), d);
        if domain_of(rs.last()@) == d {
            prev.push(rs.last())
        } else {
            prev
        }
    }
}

proof fn lemma_with_domain_none(rs: Seq<String>, d: Seq<char>)
    requires
        forall|j: int| 0 <= j < rs.len() ==> domain_of(#[trigger] rs[j]@) != d,
    ensures
        with_domain(rs, d) == Seq::<String>::empty(),
    decreases rs.len(),
{
    if rs.len() > 0 {
        assert forall|j: int| 0 <= j < rs.drop_last().len() implies domain_of(
            #[trigger] rs.drop_last()[j]@,
        ) != d by {
            assert(rs.drop_last()[j] == rs[j]);
        }
        lemma_with_domain_none(rs.drop_last(), d);
    }
}

/// Some unit of `units` is for the domain of address `a`.
pub open spec fn has_unit_for(units: Seq<DeliveryUnit>, a: Seq<char>) -> bool {
    exists|k: int| 0 <= k < units.len() && #[trigger] units[k].domain@ == domain_of(a)
}

/// The destination domain of one address.
pub fn recipient_domain(addr: &String) -> (r: String)
    ensures
        r@ == domain_of(addr@),
{
    match fn_rsplit_once(addr.as_str(), "@") {
        Some((_, d)) => {
            proof {
                let i = choose|i: int| #[trigger]
                    last_occurrence(addr@, "@"@, i) && d@ == addr@.subrange(
                        i + "@"@.len(),
                        addr@.len() as int,
                    );
                let k = choose|k: int| last_occurrence(addr@, "@"@, k);
                if i < k {
                    assert(occurs_at(addr@, "@"@, k));
                } else if k < i {
                    assert(occurs_at(addr@, "@"@, i));
                }
                reveal_strlit("@");
            }
            d
        },
        None => {
            proof {
                assert(!exists|i: int| last_occurrence(addr@, "@"@, i));
            }
            addr.clone()
        },
    }
}

/// The delivery units of a newly accepted message: one per destination
/// domain, in the order the domains first appear, each holding that domain's
/// recipients in their order, scheduled for `now` and without a lease.
pub fn split_by_domain(message_id: u64, rcpts: &Vec<String>, now: u64, expires: u64) -> (r: Vec<
    DeliveryUnit,
>)
    ensures
        forall|k: int|
            0 <= k < r@.len() ==> {
                let u = #[trigger] r@[k];
                &&& u.message_id == message_id
                &&& u.recipients@ == with_domain(rcpts@, u.domain@)
                &&& u.recipients@.len() > 0
                &&& u.status == UnitStatus::Scheduled
                &&& u.retry == 0
                &&& u.next_due == now
                &&& u.expires == expires
                &&& u.lease_token == 0
                &&& u.lease_expiry == 0
            },
        forall|k: int, l: int| 0 <= k < l < r@.len() ==> r@[k].domain@ != r@[l].domain@,
        forall|j: int| 0 <= j < rcpts@.len() ==> has_unit_for(r@, #[trigger] rcpts@[j]@),
{
    let mut out: Vec<DeliveryUnit> = Vec::new();
    let mut i: usize = 0;
    while i < rcpts.len()
        invariant
            i <= rcpts@.len(),
            forall|k: int|
                0 <= k < out@.len() ==> {
                    let u = #[trigger] out@[k];
                    &&& u.message_id == message_id
                    &&& u.recipients@ == with_domain(rcpts@.take(i as int), u.domain@)
                    &&& u.recipients@.len() > 0
                    &&& u.status == UnitStatus::Scheduled
                    &&& u.retry == 0
                    &&& u.next_due == now
                    &&& u.expires == expires
                    &&& u.lease_token == 0
                    &&& u.lease_expiry == 0
                },
            forall|k: int, l: int| 0 <= k < l < out@.len() ==> out@[k].domain@ != out@[l].domain@,
            forall|j: int| 0 <= j < i ==> has_unit_for(out@, #[trigger] rcpts@[j]@),
        decreases rcpts@.len() - i,
    {
        let x = &rcpts[i];
        let d = recipient_domain(x);
        let ghost pre = rcpts@.take(i as int);
        let ghost post = rcpts@.take(i as int + 1);
        proof {
            assert(post.drop_last() =~= pre);
            assert(post.last() == rcpts@[i as int]);
        }
        let mut k: usize = 0;
        while k < out.len() && out[k].domain != d
            invariant
                k <= out@.len(),
                forall|m: int| 0 <= m < k ==> out@[m].domain@ != d@,
            decreases out@.len() - k,
        {
            k = k + 1;
        }
        let ghost before = out@;
        if k < out.len() {
            out[k].recipients.push(x.clone());
            proof {
                assert forall|m: int| 0 <= m < out@.len() implies {
                    let u = #[trigger] out@[m];
                    &&& u.message_id == message_id
                    &&& u.recipients@ == with_domain(post, u.domain@)
                    &&& u.recipients@.len() > 0
                    &&& u.status == UnitStatus::Scheduled
                    &&& u.retry == 0
                    &&& u.next_due == now
                    &&& u.expires == expires
                    &&& u.lease_token == 0
                    &&& u.lease_expiry == 0
                } by {
                    if m != k {
                        assert(out@[m] == before[m]);
                    } else {
                        assert(out@[m].recipients@ =~= before[m].recipients@.push(*x));
                    }
                }
                assert forall|j: int| 0 <= j < i + 1 implies has_unit_for(
                    out@,
                    #[trigger] rcpts@[j]@,
                ) by {
                    if j < i {
                        let m = choose|m: int|
                            0 <= m < before.len() && #[trigger] before[m].domain@ == domain_of(
                                rcpts@[j]@,
                            );
                        assert(out@[m].domain@ == before[m].domain@);
                    } else {
                        assert(out@[k as int].domain@ == d@);
                    }
                }
                assert forall|a: int, b: int| 0 <= a < b < out@.len() implies out@[a].domain@
                    != out@[b].domain@ by {
                    assert(out@[a].domain@ == before[a].domain@);
                    assert(out@[b].domain@ == before[b].domain@);
                }
            }
        } else {
            let mut list: Vec<String> = Vec::new();
            list.push(x.clone());
            proof {
                assert forall|j: int| 0 <= j < pre.len() implies domain_of(#[trigger] pre[j]@)
                    != d@ by {
                    let m = choose|m: int|
                        0 <= m < before.len() && #[trigger] before[m].domain@ == domain_of(
                            rcpts@[j]@,
                        );
                    assert(pre[j] == rcpts@[j]);
                }
                lemma_with_domain_none(pre, d@);
                assert(list@ =~= with_domain(post, d@));
            }
            out.push(
                DeliveryUnit {
                    message_id,
                    domain: d,
                    recipients: list,
                    status: UnitStatus::Scheduled,
                    retry: 0,
                    next_due: now,
                    expires,
                    lease_token: 0,
                    lease_expiry: 0,
                },
            );
            proof {
                assert forall|j: int| 0 <= j < i + 1 implies has_unit_for(
                    out@,
                    #[trigger] rcpts@[j]@,
                ) by {
                    if j < i {
                        let m = choose|m: int|
                            0 <= m < before.len() && #[trigger] before[m].domain@ == domain_of(
                                rcpts@[j]@,
                            );
                        assert(out@[m] == before[m]);
                    } else {
                        assert(out@[before.len() as int].domain@ == domain_of(rcpts@[j]@));
                    }
                }
                assert forall|m: int| 0 <= m < before.len() implies #[trigger] out@[m].recipients@
                    == with_domain(post, out@[m].domain@) by {
                    assert(out@[m] == before[m]);
                }
            }
        }
        i = i + 1;
    }
    proof {
        assert(rcpts@.take(i as int) =~= rcpts@);
        assert(i == rcpts@.len());
    }
    out
}

} // verus!
