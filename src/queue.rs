use vstd::prelude::*;

use crate::retry::{
    resolve, resolve_bounced, resolve_delivered, reschedules, rescheduled_unit, DeliveryUnit,
    RecipientOutcome, Resolution, RetryConfig, UnitStatus,
};

verus! {

/// A unit is finished: delivered or bounced, never to be claimed again.
pub open spec fn is_done(u: DeliveryUnit) -> bool {
    u.status == UnitStatus::Delivered || u.status == UnitStatus::Bounced
}

/// Some worker holds a lease on the unit that has not run out at `now`.
pub open spec fn lease_valid(u: DeliveryUnit, now: u64) -> bool {
    u.status == UnitStatus::InProgress && now < u.lease_expiry
}

/// The unit is due and no unexpired lease covers it.
pub open spec fn claimable(u: DeliveryUnit, now: u64) -> bool {
    &&& u.next_due <= now
    &&& (u.status == UnitStatus::Scheduled || (u.status == UnitStatus::InProgress
        && u.lease_expiry <= now))
}

/// `now + lease`, held at the largest timestamp.
pub open spec fn lease_end(now: u64, lease: u64) -> u64 {
    if now + lease <= u64::MAX {
        (now + lease) as u64
    } else {
        u64::MAX
    }
}

/// The unit once the worker holding `token` has claimed it at `now`.
pub open spec fn claimed(u: DeliveryUnit, token: u64, now: u64, lease: u64) -> DeliveryUnit {
    DeliveryUnit {
        status: UnitStatus::InProgress,
        lease_token: token,
        lease_expiry: lease_end(now, lease),
        ..u
    }
}

/// The worker holding `token` still owns the unit at `now`.
pub open spec fn holds_lease(u: DeliveryUnit, token: u64, now: u64) -> bool {
    lease_valid(u, now) && u.lease_token == token
}

/// The unit once its attempt is settled by `res`: it is finished, as bounced
/// where any recipient bounced.
pub open spec fn settled(u: DeliveryUnit, res: Resolution) -> DeliveryUnit {
    DeliveryUnit {
        status: if res.bounced@.len() > 0 {
            UnitStatus::Bounced
        } else {
            UnitStatus::Delivered
        },
        ..u
    }
}

/// The store after `release`: unchanged where the lease is stale; else the
/// unit is finished and the rescheduled remainder, if any, is appended.
pub open spec fn released(
    s: Seq<DeliveryUnit>,
    id: int,
    token: u64,
    now: u64,
    res: Resolution,
) -> Seq<DeliveryUnit> {
    if holds_lease(s[id], token, now) {
        let s1 = s.update(id, settled(s[id], res));
        match res.rescheduled {
            Some(n) => s1.push(n),
            None => s1,
        }
    } else {
        s
    }
}

/// The unit once a reap at `now` has run: an expired lease is dropped.
pub open spec fn reaped(u: DeliveryUnit, now: u64) -> DeliveryUnit {
    if u.status == UnitStatus::InProgress && u.lease_expiry <= now {
        DeliveryUnit { status: UnitStatus::Scheduled, ..u }
    } else {
        u
    }
}

/// The earliest time from which unit `u` may need a worker, seen at `now`:
/// its due time if scheduled, the end of its lease if claimed, never if
/// finished.
pub open spec fn wake_time(u: DeliveryUnit, now: u64) -> Option<u64> {
    let t = if u.status == UnitStatus::Scheduled {
        u.next_due
    } else {
        u.lease_expiry
    };
    if is_done(u) {
        None
    } else if t <= now {
        Some(now)
    } else {
        Some(t)
    }
}

/// What `settle` applied: the recipients delivered and bounced, and where the
/// unit carrying the rest now stands, if one was made.
pub struct Settlement {
    pub delivered: Vec<String>,
    pub bounced: Vec<String>,
    pub rescheduled_at: Option<usize>,
}

/// The persistent record of pending delivery units, addressed by position.
/// Every change to a unit goes through the claim/release protocol.
pub struct QueueStore {
    pub units: Vec<DeliveryUnit>,
}

impl QueueStore {
    pub open spec fn view(&self) -> Seq<DeliveryUnit> {
        self.units@
    }

    pub fn new() -> (r: QueueStore)
        ensures
            r@.len() == 0,
    {
        QueueStore { units: Vec::new() }
    }

    /// Adds a unit, scheduled and without a lease; returns its position.
    pub fn enqueue(&mut self, unit: DeliveryUnit) -> (r: usize)
        requires
            old(self)@.len() < usize::MAX,
        ensures
            r == old(self)@.len(),
            final(self)@ == old(self)@.push(
                DeliveryUnit { status: UnitStatus::Scheduled, lease_token: 0, lease_expiry: 0, ..unit },
            ),
    {
        let mut unit = unit;
        unit.status = UnitStatus::Scheduled;
        unit.lease_token = 0;
        unit.lease_expiry = 0;
        let r = self.units.len();
        self.units.push(unit);
        r
    }

    /// Adds all the units of one message at once; returns the position of the
    /// first.
    pub fn enqueue_message(&mut self, units: Vec<DeliveryUnit>) -> (r: usize)
        ensures
            r == old(self)@.len(),
            final(self)@ == old(self)@ + units@,
    {
        let r = self.units.len();
        let mut units = units;
        self.units.append(&mut units);
        r
    }

    /// Atomically claims unit `id` for the worker holding `token`, if it is
    /// claimable at `now`; a lost race leaves the store as it was.
    pub fn try_claim(&mut self, id: usize, token: u64, now: u64, lease: u64) -> (r: bool)
        requires
            id < old(self)@.len(),
        ensures
            r == claimable(old(self)@[id as int], now),
            final(self)@ == if r {
                old(self)@.update(id as int, claimed(old(self)@[id as int], token, now, lease))
            } else {
                old(self)@
            },
    {
        let u = &self.units[id];
        let ok = u.next_due <= now && (u.status == UnitStatus::Scheduled || (u.status
            == UnitStatus::InProgress && u.lease_expiry <= now));
        if ok {
            let end = if lease <= u64::MAX - now {
                now + lease
            } else {
                u64::MAX
            };
            self.units[id].status = UnitStatus::InProgress;
            self.units[id].lease_token = token;
            self.units[id].lease_expiry = end;
            proof {
                assert(self@ =~= old(self)@.update(
                    id as int,
                    claimed(old(self)@[id as int], token, now, lease),
                ));
            }
        }
        ok
    }

    /// Applies the result of an attempt on unit `id`, only if the worker holding
    /// `token` still owns it at `now`. Returns false, changing nothing, where the
    /// lease is stale: the caller then discards its result.
    pub fn release(&mut self, id: usize, token: u64, now: u64, res: Resolution) -> (r: bool)
        requires
            id < old(self)@.len(),
            old(self)@.len() < usize::MAX,
        ensures
            r == holds_lease(old(self)@[id as int], token, now),
            final(self)@ == released(old(self)@, id as int, token, now, res),
    {
        let u = &self.units[id];
        let ok = u.status == UnitStatus::InProgress && now < u.lease_expiry && u.lease_token
            == token;
        if ok {
            let status = if res.bounced.len() > 0 {
                UnitStatus::Bounced
            } else {
                UnitStatus::Delivered
            };
            self.units[id].status = status;
            let ghost s1 = self@;
            proof {
                assert(s1 =~= old(self)@.update(id as int, settled(old(self)@[id as int], res)));
            }
            match res.rescheduled {
                Some(n) => {
                    self.units.push(n);
                },
                None => {},
            }
        }
        ok
    }

    /// Makes every unit whose lease ran out by `now` claimable again.
    pub fn reap_expired_leases(&mut self, now: u64)
        ensures
            final(self)@.len() == old(self)@.len(),
            forall|i: int|
                0 <= i < old(self)@.len() ==> #[trigger] final(self)@[i] == reaped(
                    old(self)@[i],
                    now,
                ),
    {
        let mut i: usize = 0;
        while i < self.units.len()
            invariant
                i <= self@.len(),
                self@.len() == old(self)@.len(),
                forall|j: int| 0 <= j < i ==> #[trigger] self@[j] == reaped(old(self)@[j], now),
                forall|j: int| i <= j < self@.len() ==> #[trigger] self@[j] == old(self)@[j],
            decreases self@.len() - i,
        {
            if self.units[i].status == UnitStatus::InProgress && self.units[i].lease_expiry <= now {
                self.units[i].status = UnitStatus::Scheduled;
            }
            i = i + 1;
        }
    }

    /// The positions of the units claimable at `now`, in increasing order.
    pub fn list_due(&self, now: u64) -> (r: Vec<usize>)
        ensures
            forall|k: int| 0 <= k < r@.len() ==> r@[k] < self@.len() && claimable(
                self@[r@[k] as int],
                now,
            ),
            forall|k: int, l: int| 0 <= k < l < r@.len() ==> r@[k] < r@[l],
            forall|i: int|
                0 <= i < self@.len() && claimable(self@[i], now) ==> r@.contains(i as usize),
    {
        let mut r: Vec<usize> = Vec::new();
        let mut i: usize = 0;
        while i < self.units.len()
            invariant
                i <= self@.len(),
                forall|k: int| 0 <= k < r@.len() ==> r@[k] < i && claimable(
                    self@[r@[k] as int],
                    now,
                ),
                forall|k: int, l: int| 0 <= k < l < r@.len() ==> r@[k] < r@[l],
                forall|j: int| 0 <= j < i && claimable(self@[j], now) ==> r@.contains(j as usize),
            decreases self@.len() - i,
        {
            let u = &self.units[i];
            if u.next_due <= now && (u.status == UnitStatus::Scheduled || (u.status
                == UnitStatus::InProgress && u.lease_expiry <= now)) {
                let ghost prev = r@;
                r.push(i);
                proof {
                    assert(r@[r@.len() - 1] == i);
                    assert forall|j: usize| prev.contains(j) implies r@.contains(j) by {
                        let k = choose|k: int| 0 <= k < prev.len() && prev[k] == j;
                        assert(r@[k] == j);
                    }
                }
            }
            i = i + 1;
        }
        r
    }

    /// One turn of a worker's scan: drops expired leases, then claims for
    /// `token` the first unit claimable at `now`, if there is one.
    pub fn claim_next(&mut self, token: u64, now: u64, lease: u64) -> (r: Option<usize>)
        ensures
            final(self)@.len() == old(self)@.len(),
            r is None ==> forall|i: int|
                0 <= i < old(self)@.len() ==> !claimable(#[trigger] old(self)@[i], now)
                    && final(self)@[i] == reaped(old(self)@[i], now),
            r matches Some(id) ==> {
                &&& id < old(self)@.len()
                &&& claimable(old(self)@[id as int], now)
                &&& forall|j: int| 0 <= j < id ==> !claimable(#[trigger] old(self)@[j], now)
                &&& final(self)@[id as int] == claimed(
                    reaped(old(self)@[id as int], now),
                    token,
                    now,
                    lease,
                )
                &&& forall|j: int|
                    0 <= j < old(self)@.len() && j != id ==> #[trigger] final(self)@[j] == reaped(
                        old(self)@[j],
                        now,
                    )
            },
    {
        self.reap_expired_leases(now);
        let ghost mid = self@;
        let mut i: usize = 0;
        while i < self.units.len()
            invariant
                self@ == mid,
                mid.len() == old(self)@.len(),
                forall|j: int| 0 <= j < mid.len() ==> #[trigger] mid[j] == reaped(old(self)@[j], now),
                i <= mid.len(),
                forall|j: int| 0 <= j < i ==> !claimable(#[trigger] old(self)@[j], now),
            decreases mid.len() - i,
        {
            proof {
                assert(mid[i as int] == reaped(old(self)@[i as int], now));
            }
            if self.try_claim(i, token, now, lease) {
                return Some(i);
            }
            i = i + 1;
        }
        None
    }

    /// The number of units held, finished ones included.
    pub fn len(&self) -> (r: usize)
        ensures
            r == self@.len(),
    {
        self.units.len()
    }

    /// The unit at position `id`.
    pub fn unit(&self, id: usize) -> (r: &DeliveryUnit)
        requires
            id < self@.len(),
        ensures
            *r == self@[id as int],
    {
        &self.units[id]
    }

    /// Applies the retry policy to the outcomes of an attempt on unit `id`
    /// made by the worker holding `token` at `now`, and releases the unit with
    /// the result: the unit is finished and the recipients still worth retrying
    /// go to a new unit at the end of the store. Where the lease has gone stale
    /// nothing changes and `None` comes back: the attempt's result is dropped.
    pub fn settle(
        &mut self,
        id: usize,
        token: u64,
        now: u64,
        outs: &Vec<RecipientOutcome>,
        cfg: &RetryConfig,
    ) -> (r: Option<Settlement>)
        requires
            id < old(self)@.len(),
            old(self)@.len() < usize::MAX,
            outs.len() == old(self)@[id as int].recipients.len(),
        ensures
            r is Some <==> holds_lease(old(self)@[id as int], token, now),
            r is None ==> final(self)@ == old(self)@,
            r matches Some(st) ==> {
                let u = old(self)@[id as int];
                let n = old(self)@.len() as int;
                &&& st.delivered@ == resolve_delivered(u, outs@)
                &&& st.bounced@ == resolve_bounced(u, outs@, now, *cfg)
                &&& final(self)@[id as int] == DeliveryUnit {
                    status: if st.bounced@.len() > 0 {
                        UnitStatus::Bounced
                    } else {
                        UnitStatus::Delivered
                    },
                    ..u
                }
                &&& forall|j: int| 0 <= j < n && j != id ==> #[trigger] final(self)@[j] == old(self)@[j]
                &&& if reschedules(u, outs@, now, *cfg) {
                    &&& final(self)@.len() == n + 1
                    &&& st.rescheduled_at == Some(n as usize)
                    &&& rescheduled_unit(u, outs@, now, *cfg, final(self)@[n])
                } else {
                    &&& final(self)@.len() == n
                    &&& st.rescheduled_at is None
                }
            },
    {
        let u = &self.units[id];
        if !(u.status == UnitStatus::InProgress && now < u.lease_expiry && u.lease_token == token) {
            return None;
        }
        let res = resolve(u, outs, now, cfg);
        let Resolution { delivered, bounced, rescheduled } = res;
        self.units[id].status = if bounced.len() > 0 {
            UnitStatus::Bounced
        } else {
            UnitStatus::Delivered
        };
        let at = match rescheduled {
            Some(n) => {
                self.units.push(n);
                Some(self.units.len() - 1)
            },
            None => None,
        };
        Some(Settlement { delivered, bounced, rescheduled_at: at })
    }

    /// When a worker that scanned at `now` should scan again: at the earliest
    /// time a unit may need it, and no later than `now + poll`.
    pub fn next_wake(&self, now: u64, poll: u64) -> (r: u64)
        ensures
            now <= r <= lease_end(now, poll),
            forall|i: int|
                0 <= i < self@.len() && #[trigger] wake_time(self@[i], now) is Some ==> r
                    <= wake_time(self@[i], now)->0,
            r == lease_end(now, poll) || exists|i: int|
                0 <= i < self@.len() && #[trigger] wake_time(self@[i], now) == Some(r),
    {
        let mut r: u64 = if poll <= u64::MAX - now {
            now + poll
        } else {
            u64::MAX
        };
        let mut i: usize = 0;
        while i < self.units.len()
            invariant
                i <= self@.len(),
                now <= r <= lease_end(now, poll),
                forall|j: int|
                    0 <= j < i && #[trigger] wake_time(self@[j], now) is Some ==> r <= wake_time(
                        self@[j],
                        now,
                    )->0,
                r == lease_end(now, poll) || exists|j: int|
                    0 <= j < i && #[trigger] wake_time(self@[j], now) == Some(r),
            decreases self@.len() - i,
        {
            let u = &self.units[i];
            if !(u.status == UnitStatus::Delivered || u.status == UnitStatus::Bounced) {
                let t = if u.status == UnitStatus::Scheduled {
                    u.next_due
                } else {
                    u.lease_expiry
                };
                let w = if t <= now {
                    now
                } else {
                    t
                };
                if w < r {
                    r = w;
                    proof {
                        assert(wake_time(self@[i as int], now) == Some(r));
                    }
                }
            }
            i = i + 1;
        }
        r
    }

    /// Every unit is finished: nothing is left to deliver.
    pub fn is_settled(&self) -> (r: bool)
        ensures
            r == forall|i: int| 0 <= i < self@.len() ==> is_done(#[trigger] self@[i]),
    {
        let mut i: usize = 0;
        while i < self.units.len()
            invariant
                i <= self@.len(),
                forall|j: int| 0 <= j < i ==> is_done(#[trigger] self@[j]),
            decreases self@.len() - i,
        {
            let s = self.units[i].status;
            if !(s == UnitStatus::Delivered || s == UnitStatus::Bounced) {
                return false;
            }
            i = i + 1;
        }
        true
    }
}

/// At most one worker owns a unit at a time: once a claim by `t1` at `now1`
/// succeeds, no claim succeeds and no other token may release the unit until
/// the lease runs out.
pub proof fn law_single_lease(
    u: DeliveryUnit,
    t1: u64,
    now1: u64,
    lease: u64,
    t2: u64,
    now2: u64,
)
    requires
        claimable(u, now1),
        now2 < lease_end(now1, lease),
    ensures
        lease_valid(claimed(u, t1, now1, lease), now2),
        !claimable(claimed(u, t1, now1, lease), now2),
        t2 != t1 ==> !holds_lease(claimed(u, t1, now1, lease), t2, now2),
{
}

/// A finished unit is never claimed, released or reaped again, so each unit
/// reaches exactly one terminal outcome.
pub proof fn law_done_is_final(s: Seq<DeliveryUnit>, id: int, token: u64, now: u64, res: Resolution)
    requires
        0 <= id < s.len(),
        is_done(s[id]),
    ensures
        !claimable(s[id], now),
        !holds_lease(s[id], token, now),
        released(s, id, token, now, res) == s,
        reaped(s[id], now) == s[id],
{
}

/// A release that took effect cannot be applied a second time: the unit is
/// finished and no token holds it any more.
pub proof fn law_release_once(
    s: Seq<DeliveryUnit>,
    id: int,
    token: u64,
    now: u64,
    res: Resolution,
    token2: u64,
    now2: u64,
)
    requires
        0 <= id < s.len(),
        holds_lease(s[id], token, now),
    ensures
        is_done(released(s, id, token, now, res)[id]),
        !holds_lease(released(s, id, token, now, res)[id], token2, now2),
        !claimable(released(s, id, token, now, res)[id], now2),
{
}

/// No unit is stranded: an unfinished unit that is due, and whose lease (if
/// any) has run out, can be claimed.
pub proof fn law_unfinished_units_claimable(u: DeliveryUnit, now: u64)
    requires
        !is_done(u),
        u.next_due <= now,
        u.status == UnitStatus::InProgress ==> u.lease_expiry <= now,
    ensures
        claimable(u, now),
{
}

/// A unit whose owner never releases it becomes claimable again once the
/// lease has run out, whether or not a reap ran in between.
pub proof fn law_lease_expiry_reclaim(u: DeliveryUnit, token: u64, now1: u64, lease: u64, now2: u64)
    requires
        claimable(u, now1),
        lease_end(now1, lease) <= now2,
    ensures
        claimable(claimed(u, token, now1, lease), now2),
        claimable(reaped(claimed(u, token, now1, lease), now2), now2),
        reaped(claimed(u, token, now1, lease), now2).status == UnitStatus::Scheduled,
{
}

} // verus!
