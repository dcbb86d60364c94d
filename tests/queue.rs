use mta_core::executor::{classify_reply, has_pending, initial_outcomes, merge_attempt};
use mta_core::message::{recipient_domain, split_by_domain};
use mta_core::queue::QueueStore;
use mta_core::retry::{backoff, resolve, DeliveryUnit, RecipientOutcome, RetryConfig, UnitStatus};

fn unit(id: u64, domain: &str, rcpts: &[&str], expires: u64) -> DeliveryUnit {
    DeliveryUnit {
        message_id: id,
        domain: domain.to_string(),
        recipients: rcpts.iter().map(|r| r.to_string()).collect(),
        status: UnitStatus::Scheduled,
        retry: 0,
        next_due: 0,
        expires,
        lease_token: 0,
        lease_expiry: 0,
    }
}

fn cfg() -> RetryConfig {
    RetryConfig { base_delay: 60, max_delay: 3600, max_retries: 10 }
}

// 100 messages for one remote recipient, 20 workers (10 at first, 10 joining
// later) racing for the same store: the store ends settled and the remote side
// has each message exactly once.
#[test]
fn concurrent_queue() {
    let mut store = QueueStore::new();
    for i in 0..100u64 {
        store.enqueue(unit(i, "foobar.org", &["bill@foobar.org"], 10_000));
    }
    let mut remote: Vec<u64> = Vec::new();
    let mut now: u64 = 0;
    let mut workers: u64 = 10;
    for round in 0..200u64 {
        if round == 5 {
            workers = 20;
        }
        store.reap_expired_leases(now);
        let due = store.list_due(now);
        // Every worker tries to claim every due unit; only one wins each.
        let mut claimed: Vec<(usize, u64)> = Vec::new();
        for (k, id) in due.iter().enumerate() {
            for w in 0..workers {
                let token = 1 + (w + k as u64) % workers;
                if store.try_claim(*id, token, now, 30) {
                    claimed.push((*id, token));
                }
            }
        }
        for (id, token) in claimed {
            let u = store.unit(id);
            let outs = vec![RecipientOutcome::Delivered; u.recipients.len()];
            let msg = u.message_id;
            if let Some(st) = store.settle(id, token, now, &outs, &cfg()) {
                assert_eq!(st.delivered.len(), 1);
                remote.push(msg);
            }
        }
        if store.is_settled() {
            break;
        }
        now += 1;
    }
    assert!(store.is_settled());
    assert_eq!(remote.len(), 100);
    remote.sort();
    remote.dedup();
    assert_eq!(remote.len(), 100);
}

#[test]
fn claim_is_exclusive_and_release_needs_the_lease() {
    let mut store = QueueStore::new();
    let id = store.enqueue(unit(1, "example.org", &["a@example.org"], 1000));
    assert!(store.try_claim(id, 7, 10, 30));
    assert!(!store.try_claim(id, 8, 20, 30));
    let outs = vec![RecipientOutcome::Delivered];
    assert!(store.settle(id, 8, 20, &outs, &cfg()).is_none());
    assert_eq!(store.unit(id).status, UnitStatus::InProgress);
    assert!(store.settle(id, 7, 20, &outs, &cfg()).is_some());
    assert_eq!(store.unit(id).status, UnitStatus::Delivered);
    // A finished unit is never claimed or released again.
    assert!(!store.try_claim(id, 9, 500, 30));
    assert!(store.settle(id, 7, 21, &outs, &cfg()).is_none());
    assert!(store.list_due(500).is_empty());
}

#[test]
fn lease_expiry_reclaim() {
    let mut store = QueueStore::new();
    let id = store.enqueue(unit(1, "example.org", &["a@example.org"], 1000));
    assert!(store.try_claim(id, 1, 0, 30));
    // The first worker crashes. Before the lease ends nobody may claim it.
    assert!(store.list_due(29).is_empty());
    assert!(!store.try_claim(id, 2, 29, 30));
    store.reap_expired_leases(29);
    assert_eq!(store.unit(id).status, UnitStatus::InProgress);
    // Once it has run out the unit is due again and another worker delivers it.
    store.reap_expired_leases(30);
    assert_eq!(store.unit(id).status, UnitStatus::Scheduled);
    assert_eq!(store.list_due(30), vec![id]);
    assert!(store.try_claim(id, 2, 30, 30));
    let outs = vec![RecipientOutcome::Delivered];
    // The crashed worker's late result is discarded.
    assert!(store.settle(id, 1, 31, &outs, &cfg()).is_none());
    let st = store.settle(id, 2, 31, &outs, &cfg()).unwrap();
    assert_eq!(st.delivered, vec!["a@example.org".to_string()]);
    assert!(store.is_settled());
}

#[test]
fn backoff_monotonicity() {
    let c = cfg();
    let expected = [60u64, 120, 240, 480, 960, 1920, 3600, 3600, 3600];
    for (i, e) in expected.iter().enumerate() {
        assert_eq!(backoff(&c, i as u32), *e);
    }
    let c = RetryConfig { base_delay: 0, max_delay: 100, max_retries: 3 };
    assert_eq!(backoff(&c, 5), 0);
    let c = RetryConfig { base_delay: 500, max_delay: 100, max_retries: 3 };
    assert_eq!(backoff(&c, 0), 100);

    // Repeated transient failures: next-due never decreases, waits capped.
    let mut u = unit(1, "example.org", &["a@example.org"], u64::MAX);
    let mut now = 0u64;
    let mut last_due = 0u64;
    let c = RetryConfig { base_delay: 60, max_delay: 3600, max_retries: 20 };
    for _ in 0..12 {
        let res = resolve(&u, &vec![RecipientOutcome::Transient], now, &c);
        let next = res.rescheduled.unwrap();
        assert!(next.next_due >= last_due);
        assert!(next.next_due - now <= 3600);
        last_due = next.next_due;
        now = next.next_due;
        u = next;
    }
    assert_eq!(u.retry, 12);
}

#[test]
fn retry_budget_exhausted_bounces() {
    let mut u = unit(1, "example.org", &["a@example.org"], u64::MAX);
    u.retry = 3;
    let c = RetryConfig { base_delay: 60, max_delay: 3600, max_retries: 3 };
    let res = resolve(&u, &vec![RecipientOutcome::Transient], 0, &c);
    assert!(res.rescheduled.is_none());
    assert_eq!(res.bounced, vec!["a@example.org".to_string()]);
}

#[test]
fn expiration_overrides_retry() {
    let u = unit(1, "example.org", &["a@example.org", "b@example.org"], 1000);
    let outs = vec![RecipientOutcome::Transient, RecipientOutcome::Delivered];
    // The next attempt would be due at 1000 + 60 > 1000.
    let res = resolve(&u, &outs, 1000 - 59, &cfg());
    assert!(res.rescheduled.is_none());
    assert_eq!(res.bounced, vec!["a@example.org".to_string()]);
    assert_eq!(res.delivered, vec!["b@example.org".to_string()]);
    // Exactly at the expiration it is still rescheduled.
    let res = resolve(&u, &outs, 1000 - 60, &cfg());
    assert_eq!(res.rescheduled.unwrap().next_due, 1000);
}

#[test]
fn partial_recipient_split() {
    let mut store = QueueStore::new();
    let id = store.enqueue(unit(5, "example.org", &["r1@example.org", "r2@example.org"], 10_000));
    assert!(store.try_claim(id, 3, 100, 30));
    let outs = vec![RecipientOutcome::Permanent, RecipientOutcome::Transient];
    let st = store.settle(id, 3, 110, &outs, &cfg()).unwrap();
    assert_eq!(st.bounced, vec!["r1@example.org".to_string()]);
    assert!(st.delivered.is_empty());
    assert_eq!(store.unit(id).status, UnitStatus::Bounced);
    let at = st.rescheduled_at.unwrap();
    assert_eq!(at, 1);
    let next = store.unit(at);
    assert_eq!(next.recipients, vec!["r2@example.org".to_string()]);
    assert_eq!(next.message_id, 5);
    assert_eq!(next.domain, "example.org");
    assert_eq!(next.retry, 1);
    assert_eq!(next.next_due, 170);
    assert_eq!(next.status, UnitStatus::Scheduled);
    assert!(store.list_due(169).is_empty());
    assert_eq!(store.list_due(170), vec![at]);
}

#[test]
fn all_delivered_finishes_the_unit() {
    let u = unit(1, "example.org", &["a@example.org", "b@example.org"], 1000);
    let outs = vec![RecipientOutcome::Delivered, RecipientOutcome::Delivered];
    let res = resolve(&u, &outs, 10, &cfg());
    assert_eq!(res.delivered.len(), 2);
    assert!(res.bounced.is_empty());
    assert!(res.rescheduled.is_none());
}

#[test]
fn reply_classes() {
    assert_eq!(classify_reply(250), RecipientOutcome::Delivered);
    assert_eq!(classify_reply(421), RecipientOutcome::Transient);
    assert_eq!(classify_reply(550), RecipientOutcome::Permanent);
    assert_eq!(classify_reply(0), RecipientOutcome::Transient);
}

#[test]
fn hosts_tried_until_nothing_pending() {
    let outs = initial_outcomes(3);
    assert_eq!(outs, vec![RecipientOutcome::Transient; 3]);
    assert!(has_pending(&outs));
    // First host: one accepted, one refused for good, one deferred.
    let outs = merge_attempt(&outs, &vec![250, 550, 451]);
    assert_eq!(
        outs,
        vec![RecipientOutcome::Delivered, RecipientOutcome::Permanent, RecipientOutcome::Transient]
    );
    assert!(has_pending(&outs));
    // Second host answers for all; only the pending recipient takes its reply.
    let outs = merge_attempt(&outs, &vec![550, 250, 250]);
    assert_eq!(
        outs,
        vec![RecipientOutcome::Delivered, RecipientOutcome::Permanent, RecipientOutcome::Delivered]
    );
    assert!(!has_pending(&outs));
}

#[test]
fn message_split_by_domain() {
    let rcpts: Vec<String> = ["a@one.org", "b@two.org", "c@one.org", "x@y@three.org", "nodomain"]
        .iter()
        .map(|s| s.to_string())
        .collect();
    let units = split_by_domain(42, &rcpts, 100, 5000);
    let view: Vec<(String, Vec<String>)> =
        units.iter().map(|u| (u.domain.clone(), u.recipients.clone())).collect();
    assert_eq!(
        view,
        vec![
            ("one.org".to_string(), vec!["a@one.org".to_string(), "c@one.org".to_string()]),
            ("two.org".to_string(), vec!["b@two.org".to_string()]),
            ("three.org".to_string(), vec!["x@y@three.org".to_string()]),
            ("nodomain".to_string(), vec!["nodomain".to_string()]),
        ]
    );
    assert!(units.iter().all(|u| u.message_id == 42
        && u.next_due == 100
        && u.expires == 5000
        && u.status == UnitStatus::Scheduled));
    assert_eq!(recipient_domain(&"user@Example.org".to_string()), "Example.org");

    let mut store = QueueStore::new();
    store.enqueue(unit(1, "other.org", &["z@other.org"], 10));
    let first = store.enqueue_message(units);
    assert_eq!(first, 1);
    assert_eq!(store.len(), 5);
    assert_eq!(store.list_due(100), vec![0, 1, 2, 3, 4]);
    assert_eq!(store.list_due(99), vec![0]);
}

#[test]
fn next_wake_time() {
    let mut store = QueueStore::new();
    assert_eq!(store.next_wake(100, 60), 160);
    let mut u = unit(1, "a.org", &["x@a.org"], 10_000);
    u.next_due = 130;
    let id = store.enqueue(u);
    assert_eq!(store.next_wake(100, 60), 130);
    assert!(store.try_claim(id, 1, 130, 300));
    // Claimed: the lease end is what matters now.
    assert_eq!(store.next_wake(130, 60), 190);
    assert_eq!(store.next_wake(430, 60), 430);
    assert!(store.settle(id, 1, 140, &vec![RecipientOutcome::Delivered], &cfg()).is_some());
    assert_eq!(store.next_wake(140, 60), 200);
}

#[test]
fn claim_next_takes_the_first_claimable() {
    let mut store = QueueStore::new();
    let mut late = unit(1, "a.org", &["x@a.org"], 10_000);
    late.next_due = 50;
    store.enqueue(late);
    store.enqueue(unit(2, "b.org", &["y@b.org"], 10_000));
    store.enqueue(unit(3, "c.org", &["z@c.org"], 10_000));
    assert_eq!(store.claim_next(1, 10, 30), Some(1));
    assert_eq!(store.claim_next(2, 10, 30), Some(2));
    assert_eq!(store.claim_next(3, 10, 30), None);
    // Worker 1 never comes back; its unit is reclaimed after the lease.
    assert_eq!(store.claim_next(3, 40, 30), Some(1));
    assert_eq!(store.unit(1).lease_token, 3);
    assert_eq!(store.claim_next(4, 50, 30), Some(0));
}
