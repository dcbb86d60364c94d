use mta_core::bayes::{BayesTokenCache, CacheItem, TokenHash, Weights};
use mta_core::dns::{order_mx, DnsCache, DnsCacheConfig, DnsFailure, MxRecord, RecordType};

fn dns_cfg() -> DnsCacheConfig {
    DnsCacheConfig { min_ttl: 10, max_ttl: 3600, negative_ttl: 30 }
}

#[test]
fn dns_cache_correctness() {
    let mut cache = DnsCache::new(dns_cfg());
    let domain = "foobar.org".to_string();
    // Nothing cached: a query is due.
    assert!(cache.lookup(&domain, RecordType::Mx, 0).is_none());
    cache.insert(domain.clone(), RecordType::Mx, Ok(vec!["mx.foobar.org".to_string()]), 0, 100);
    // Within the TTL the answer is served from the cache.
    let hit = cache.lookup(&domain, RecordType::Mx, 99).unwrap();
    assert_eq!(hit, &Ok(vec!["mx.foobar.org".to_string()]));
    // From the expiry on, a fresh query is due.
    assert!(cache.lookup(&domain, RecordType::Mx, 100).is_none());
    // A refresh replaces the entry.
    cache.insert(domain.clone(), RecordType::Mx, Ok(vec!["mx2.foobar.org".to_string()]), 100, 100);
    assert_eq!(cache.lookup(&domain, RecordType::Mx, 150).unwrap(), &Ok(vec!["mx2.foobar.org".to_string()]));
    assert_eq!(cache.entries.len(), 1);
    // Another record type of the same domain is a separate entry.
    assert!(cache.lookup(&domain, RecordType::Addr, 150).is_none());
    cache.insert(domain.clone(), RecordType::Addr, Ok(vec!["127.0.0.1".to_string()]), 100, 100);
    assert_eq!(cache.lookup(&domain, RecordType::Addr, 150).unwrap(), &Ok(vec!["127.0.0.1".to_string()]));
    assert_eq!(cache.lookup(&domain, RecordType::Mx, 150).unwrap(), &Ok(vec!["mx2.foobar.org".to_string()]));
    assert_eq!(cache.entries.len(), 2);
}

#[test]
fn dns_ttl_is_clamped() {
    let mut cache = DnsCache::new(dns_cfg());
    let a = "a.org".to_string();
    let b = "b.org".to_string();
    cache.insert(a.clone(), RecordType::Mx, Ok(vec!["mx.a.org".to_string()]), 0, 1);
    assert!(cache.lookup(&a, RecordType::Mx, 9).is_some());
    assert!(cache.lookup(&a, RecordType::Mx, 10).is_none());
    cache.insert(b.clone(), RecordType::Mx, Ok(vec!["mx.b.org".to_string()]), 0, 1_000_000);
    assert!(cache.lookup(&b, RecordType::Mx, 3599).is_some());
    assert!(cache.lookup(&b, RecordType::Mx, 3600).is_none());
    // Other domains are untouched.
    assert!(cache.lookup(&a, RecordType::Mx, 5).is_some());
}

#[test]
fn dns_negative_answers_are_cached_briefly() {
    let mut cache = DnsCache::new(dns_cfg());
    let d = "nowhere.invalid".to_string();
    cache.insert(d.clone(), RecordType::Mx, Err(DnsFailure::NotFound), 0, 86400);
    assert_eq!(cache.lookup(&d, RecordType::Mx, 29).unwrap(), &Err(DnsFailure::NotFound));
    assert!(cache.lookup(&d, RecordType::Mx, 30).is_none());
}

fn h(n: u64) -> TokenHash {
    TokenHash { h1: n, h2: n + 1 }
}

#[test]
fn bayes_cache_positive_and_negative() {
    let mut cache = BayesTokenCache::new(16, 100, 50);
    assert_eq!(cache.get(&h(1), 0), None);
    cache.insert_positive(h(1), Weights { spam: 3, ham: 4 }, 0);
    cache.insert_negative(h(2), 0);
    assert_eq!(cache.get(&h(1), 100), Some(Some(Weights { spam: 3, ham: 4 })));
    assert_eq!(cache.get(&h(2), 50), Some(None));
    // Expired entries are dropped.
    assert_eq!(cache.get(&h(1), 101), None);
    assert_eq!(cache.get(&h(2), 51), None);
    assert_eq!(cache.get(&h(1), 0), None);
}

#[test]
fn bayes_cache_invalidate() {
    let mut cache = BayesTokenCache::new(16, 100, 100);
    cache.insert_positive(h(1), Weights { spam: 1, ham: 0 }, 0);
    cache.insert_negative(h(1), 0);
    // The known weights go first, then the known absence.
    cache.invalidate(&h(1));
    assert_eq!(cache.get(&h(1), 0), Some(None));
    cache.invalidate(&h(1));
    assert_eq!(cache.get(&h(1), 0), None);
}

#[test]
fn bayes_cache_evicts_least_recent() {
    let mut cache = BayesTokenCache::new(2, 100, 100);
    cache.insert_positive(h(1), Weights { spam: 1, ham: 1 }, 0);
    cache.insert_positive(h(2), Weights { spam: 2, ham: 2 }, 0);
    assert!(cache.get(&h(1), 0).is_some());
    cache.insert_positive(h(3), Weights { spam: 3, ham: 3 }, 0);
    assert_eq!(cache.get(&h(2), 0), None);
    assert_eq!(cache.get(&h(1), 0), Some(Some(Weights { spam: 1, ham: 1 })));
    assert_eq!(cache.get(&h(3), 0), Some(Some(Weights { spam: 3, ham: 3 })));
}

#[test]
fn bayes_cache_default() {
    let mut cache = BayesTokenCache::default();
    cache.insert_positive(h(9), Weights { spam: 1, ham: 2 }, 10);
    assert_eq!(cache.get(&h(9), 10), Some(Some(Weights { spam: 1, ham: 2 })));
    assert_eq!(cache.get(&h(9), 11), None);
}

#[test]
fn cache_item_validity() {
    let item = CacheItem::new(Weights { spam: 5, ham: 6 }, 100);
    assert!(item.is_valid(100));
    assert!(!item.is_valid(101));
    assert_eq!(item.weights(), Weights { spam: 5, ham: 6 });
    assert_eq!(item.valid_until(), 100);
}

#[test]
fn mx_records_in_preference_order() {
    let mx = |p: u16, h: &str| MxRecord { preference: p, exchange: h.to_string() };
    let ordered = order_mx(vec![mx(20, "b.example"), mx(10, "z.example"), mx(20, "a.example"), mx(5, "m.example")]);
    assert_eq!(
        ordered,
        vec![mx(5, "m.example"), mx(10, "z.example"), mx(20, "a.example"), mx(20, "b.example")]
    );
    assert_eq!(order_mx(vec![]), vec![]);
    assert_eq!(order_mx(vec![mx(1, "ab"), mx(1, "a")]), vec![mx(1, "a"), mx(1, "ab")]);
}
