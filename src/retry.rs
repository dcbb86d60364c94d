use vstd::prelude::*;

verus! {

/// What a delivery attempt meant for one recipient.
#[derive(Clone, Copy, Debug, PartialEq, Eq, Structural)]
pub enum RecipientOutcome {
    /// The remote side accepted the message for this recipient.
    Delivered,
    /// Worth retrying later: timeout, unreachable host, 4xx reply.
    Transient,
    /// Never worth retrying: 5xx reply, invalid recipient.
    Permanent,
}

/// Operator settings of the backoff curve and retry budget.
#[derive(Clone, Copy, Debug, PartialEq, Eq, Structural)]
pub struct RetryConfig {
    /// Delay before the first retry, in seconds.
    pub base_delay: u64,
    /// Longest delay between two attempts, in seconds.
    pub max_delay: u64,
    /// Number of retries after which a transient failure becomes a bounce.
    pub max_retries: u32,
}

/// The delay after `retry` earlier failures: doubles each time, capped at `max_delay`.
pub open spec fn backoff_spec(cfg: RetryConfig, retry: nat) -> int
    decreases retry,
{
    if retry == 0 {
        if cfg.base_delay <= cfg.max_delay {
            cfg.base_delay as int
        } else {
            cfg.max_delay as int
        }
    } else {
        let prev = backoff_spec(cfg, (retry - 1) as nat);
        if 2 * prev <= cfg.max_delay {
            2 * prev
        } else {
            cfg.max_delay as int
        }
    }
}

pub proof fn lemma_backoff_bounds(cfg: RetryConfig, retry: nat)
    ensures
        0 <= backoff_spec(cfg, retry) <= cfg.max_delay,
    decreases retry,
{
    if retry > 0 {
        lemma_backoff_bounds(cfg, (retry - 1) as nat);
    }
}

/// The backoff delay never shrinks as failures accumulate, and never exceeds
/// the configured ceiling.
pub proof fn lemma_backoff_monotone(cfg: RetryConfig, i: nat, j: nat)
    requires
        i <= j,
    ensures
        backoff_spec(cfg, i) <= backoff_spec(cfg, j) <= cfg.max_delay,
    decreases j - i,
{
    lemma_backoff_bounds(cfg, j);
    if i < j {
        lemma_backoff_monotone(cfg, i, (j - 1) as nat);
        lemma_backoff_bounds(cfg, (j - 1) as nat);
    }
}

/// Computes `backoff_spec(cfg, retry)`.
pub fn backoff(cfg: &RetryConfig, retry: u32) -> (r: u64)
    ensures
        r == backoff_spec(*cfg, retry as nat),
{
    let mut d: u64 = if cfg.base_delay <= cfg.max_delay {
        cfg.base_delay
    } else {
        cfg.max_delay
    };
    let mut i: u32 = 0;
    while i < retry
        invariant
            i <= retry,
            d == backoff_spec(*cfg, i as nat),
        decreases retry - i,
    {
        proof {
            lemma_backoff_bounds(*cfg, i as nat);
        }
        d = if d <= cfg.max_delay / 2 {
            2 * d
        } else {
            cfg.max_delay
        };
        i = i + 1;
    }
    d
}

/// Where a delivery unit stands in its life.
#[derive(Clone, Copy, Debug, PartialEq, Eq, Structural)]
pub enum UnitStatus {
    /// Waiting for its next-due time.
    Scheduled,
    /// Claimed by the worker that holds its lease.
    InProgress,
    /// Every recipient was delivered.
    Delivered,
    /// Every recipient was delivered or bounced, at least one bounced.
    Bounced,
}

/// One message paired with one destination domain and the recipients there.
#[derive(Clone, Debug)]
pub struct DeliveryUnit {
    pub message_id: u64,
    pub domain: String,
    pub recipients: Vec<String>,
    pub status: UnitStatus,
    pub retry: u32,
    pub next_due: u64,
    /// Absolute time after which the message is no longer retried.
    pub expires: u64,
    pub lease_token: u64,
    pub lease_expiry: u64,
}

/// What the policy decided after one attempt on a unit.
#[derive(Clone, Debug)]
pub struct Resolution {
    pub delivered: Vec<String>,
    pub bounced: Vec<String>,
    /// The unit that carries the recipients still worth retrying, if any.
    pub rescheduled: Option<DeliveryUnit>,
}

/// The recipients whose outcome is `o`, in the order they were given.
pub open spec fn with_outcome(
    rcpts: Seq<String>,
    outs: Seq<RecipientOutcome>,
    o: RecipientOutcome,
) -> Seq<String>
    decreases rcpts.len(),
{
    if rcpts.len() == 0 || outs.len() == 0 {
        Seq::empty()
    } else {
        let prev = with_outcome(rcpts.drop_last(), outs.drop_last(), o);
        if outs.last() == o {
            prev.push(rcpts.last())
        } else {
            prev
        }
    }
}

/// Transient failures may be retried: the budget is not spent and the next
/// attempt would still come before the message expires.
pub open spec fn may_retry(unit: DeliveryUnit, now: u64, cfg: RetryConfig) -> bool {
    &&& unit.retry < cfg.max_retries
    &&& now + backoff_spec(cfg, unit.retry as nat) <= unit.expires
}

/// Whether the policy leaves a new scheduled unit behind.
pub open spec fn reschedules(
    unit: DeliveryUnit,
    outs: Seq<RecipientOutcome>,
    now: u64,
    cfg: RetryConfig,
) -> bool {
    may_retry(unit, now, cfg) && with_outcome(unit.recipients@, outs, RecipientOutcome::Transient).len() > 0
}

/// The recipients that the policy marks delivered.
pub open spec fn resolve_delivered(unit: DeliveryUnit, outs: Seq<RecipientOutcome>) -> Seq<String> {
    with_outcome(unit.recipients@, outs, RecipientOutcome::Delivered)
}

/// The recipients that the policy bounces.
pub open spec fn resolve_bounced(
    unit: DeliveryUnit,
    outs: Seq<RecipientOutcome>,
    now: u64,
    cfg: RetryConfig,
) -> Seq<String> {
    let perm = with_outcome(unit.recipients@, outs, RecipientOutcome::Permanent);
    if may_retry(unit, now, cfg) {
        perm
    } else {
        perm + with_outcome(unit.recipients@, outs, RecipientOutcome::Transient)
    }
}

/// The unit left behind for the recipients that failed transiently, if they
/// may be retried.
pub open spec fn rescheduled_unit(
    unit: DeliveryUnit,
    outs: Seq<RecipientOutcome>,
    now: u64,
    cfg: RetryConfig,
    r: DeliveryUnit,
) -> bool {
    &&& r.message_id == unit.message_id
    &&& r.domain@ == unit.domain@
    &&& r.recipients@ == with_outcome(unit.recipients@, outs, RecipientOutcome::Transient)
    &&& r.status == UnitStatus::Scheduled
    &&& r.retry == unit.retry + 1
    &&& r.next_due == now + backoff_spec(cfg, unit.retry as nat)
    &&& r.expires == unit.expires
    &&& r.lease_token == 0
    &&& r.lease_expiry == 0
}

/// Collects the recipients whose outcome is `o`.
pub fn select_recipients(
    rcpts: &Vec<String>,
    outs: &Vec<RecipientOutcome>,
    o: RecipientOutcome,
) -> (r: Vec<String>)
    requires
        rcpts.len() == outs.len(),
    ensures
        r@ == with_outcome(rcpts@, outs@, o),
{
    let mut r: Vec<String> = Vec::new();
    let mut i: usize = 0;
    while i < rcpts.len()
        invariant
            i <= rcpts.len(),
            rcpts.len() == outs.len(),
            r@ == with_outcome(rcpts@.take(i as int), outs@.take(i as int), o),
        decreases rcpts.len() - i,
    {
        proof {
            assert(rcpts@.take(i as int + 1).drop_last() =~= rcpts@.take(i as int));
            assert(outs@.take(i as int + 1).drop_last() =~= outs@.take(i as int));
        }
        if outs[i] == o {
            r.push(rcpts[i].clone());
        }
        i = i + 1;
    }
    proof {
        assert(rcpts@.take(i as int) =~= rcpts@);
        assert(outs@.take(i as int) =~= outs@);
    }
    r
}

/// Applies the retry policy to the outcome of one attempt made at `now`:
/// delivered recipients are done, permanent failures bounce, and transient
/// failures are rescheduled together in a new unit, or bounce where the retry
/// budget is spent or the next attempt would fall after the expiration.
pub fn resolve(
    unit: &DeliveryUnit,
    outs: &Vec<RecipientOutcome>,
    now: u64,
    cfg: &RetryConfig,
) -> (r: Resolution)
    requires
        outs.len() == unit.recipients.len(),
    ensures
        r.delivered@ == resolve_delivered(*unit, outs@),
        r.bounced@ == resolve_bounced(*unit, outs@, now, *cfg),
        r.rescheduled is Some <==> reschedules(*unit, outs@, now, *cfg),
        r.rescheduled matches Some(u) ==> rescheduled_unit(*unit, outs@, now, *cfg, u),
{
    let delivered = select_recipients(&unit.recipients, outs, RecipientOutcome::Delivered);
    let mut bounced = select_recipients(&unit.recipients, outs, RecipientOutcome::Permanent);
    let transient = select_recipients(&unit.recipients, outs, RecipientOutcome::Transient);
    let delay = backoff(cfg, unit.retry);
    proof {
        lemma_backoff_bounds(*cfg, unit.retry as nat);
    }
    let retry_ok = unit.retry < cfg.max_retries && now <= unit.expires && delay <= unit.expires
        - now;
    if retry_ok {
        if transient.len() == 0 {
            Resolution { delivered, bounced, rescheduled: None }
        } else {
            let next = DeliveryUnit {
                message_id: unit.message_id,
                domain: unit.domain.clone(),
                recipients: transient,
                status: UnitStatus::Scheduled,
                retry: unit.retry + 1,
                next_due: now + delay,
                expires: unit.expires,
                lease_token: 0,
                lease_expiry: 0,
            };
            Resolution { delivered, bounced, rescheduled: Some(next) }
        }
    } else {
        let ghost perm = bounced@;
        let mut t = transient;
        bounced.append(&mut t);
        proof {
            assert(bounced@ =~= perm + with_outcome(unit.recipients@, outs@, RecipientOutcome::Transient));
        }
        Resolution { delivered, bounced, rescheduled: None }
    }
}

/// Over consecutive transient failures of a unit, the next-due time never
/// moves back, the wait never shrinks, and no wait exceeds the ceiling.
pub proof fn law_next_due_monotone(
    cfg: RetryConfig,
    u0: DeliveryUnit,
    outs0: Seq<RecipientOutcome>,
    now0: u64,
    u1: DeliveryUnit,
    outs1: Seq<RecipientOutcome>,
    now1: u64,
    u2: DeliveryUnit,
)
    requires
        rescheduled_unit(u0, outs0, now0, cfg, u1),
        u1.next_due <= now1,
        rescheduled_unit(u1, outs1, now1, cfg, u2),
    ensures
        u1.next_due <= u2.next_due,
        u1.next_due - now0 <= u2.next_due - now1 <= cfg.max_delay,
{
    lemma_backoff_monotone(cfg, u0.retry as nat, u1.retry as nat);
    lemma_backoff_bounds(cfg, u1.retry as nat);
}

/// A unit whose next attempt would fall after the message's expiration is
/// not rescheduled: its transient failures bounce at once.
pub proof fn law_expiration_overrides_retry(
    unit: DeliveryUnit,
    outs: Seq<RecipientOutcome>,
    now: u64,
    cfg: RetryConfig,
)
    requires
        now + backoff_spec(cfg, unit.retry as nat) > unit.expires,
    ensures
        !reschedules(unit, outs, now, cfg),
        resolve_bounced(unit, outs, now, cfg) == with_outcome(
            unit.recipients@,
            outs,
            RecipientOutcome::Permanent,
        ) + with_outcome(unit.recipients@, outs, RecipientOutcome::Transient),
{
}

/// A unit with one recipient that failed permanently and one that failed
/// transiently splits: the first bounces, the second alone is rescheduled.
pub proof fn law_partial_split(unit: DeliveryUnit, now: u64, cfg: RetryConfig)
    requires
        unit.recipients.len() == 2,
        may_retry(unit, now, cfg),
    ensures
        ({
            let outs = seq![RecipientOutcome::Permanent, RecipientOutcome::Transient];
            &&& resolve_bounced(unit, outs, now, cfg) == seq![unit.recipients[0]]
            &&& resolve_delivered(unit, outs) == Seq::<String>::empty()
            &&& reschedules(unit, outs, now, cfg)
            &&& with_outcome(unit.recipients@, outs, RecipientOutcome::Transient) == seq![
                unit.recipients[1],
            ]
        }),
{
    let outs = seq![RecipientOutcome::Permanent, RecipientOutcome::Transient];
    let rs = unit.recipients@;
    assert(rs.drop_last().drop_last().len() == 0);
    assert(outs.drop_last().last() == RecipientOutcome::Permanent);
    assert(with_outcome(rs.drop_last().drop_last(), outs.drop_last().drop_last(), RecipientOutcome::Permanent)
            == Seq::<String>::empty());
    assert(with_outcome(rs.drop_last().drop_last(), outs.drop_last().drop_last(), RecipientOutcome::Transient)
            == Seq::<String>::empty());
    assert(with_outcome(rs.drop_last().drop_last(), outs.drop_last().drop_last(), RecipientOutcome::Delivered)
            == Seq::<String>::empty());
    assert(outs.drop_last() =~= seq![RecipientOutcome::Permanent]);
    assert(rs.drop_last().last() == rs[0]);
    assert(with_outcome(rs.drop_last(), outs.drop_last(), RecipientOutcome::Permanent) =~= seq![
        rs[0],
    ]);
    assert(with_outcome(rs.drop_last(), outs.drop_last(), RecipientOutcome::Transient)
        =~= Seq::<String>::empty());
    assert(with_outcome(rs.drop_last(), outs.drop_last(), RecipientOutcome::Delivered)
        =~= Seq::<String>::empty());
    assert(with_outcome(rs, outs, RecipientOutcome::Transient) =~= seq![rs[1]]);
    assert(with_outcome(rs, outs, RecipientOutcome::Permanent) =~= seq![rs[0]]);
    assert(with_outcome(rs, outs, RecipientOutcome::Delivered) =~= Seq::<String>::empty());
}

} // verus!
