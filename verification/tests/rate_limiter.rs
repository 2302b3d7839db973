use syslab::rate_limiter::counter::{set_up_rate_limiter, Counter};
use syslab::rate_limiter::{ArgRateLimiter, RateLimiterStrategy};

#[test]
fn a_client_is_allowed_up_to_the_limit() {
    let mut counter = Counter::new(3);
    assert!(counter.register_request(7));
    assert!(counter.register_request(7));
    assert!(counter.register_request(7));
    assert!(!counter.register_request(7));
    assert!(!counter.register_request(7));
}

#[test]
fn each_client_is_counted_by_itself() {
    let mut counter = Counter::new(1);
    assert!(counter.register_request(1));
    assert!(counter.register_request(2));
    assert!(!counter.register_request(1));
    assert!(counter.register_request(u128::MAX));
    assert!(!counter.register_request(2));
}

#[test]
fn a_limit_of_nothing_allows_nothing() {
    let mut counter = Counter::new(0);
    assert!(!counter.register_request(9));
}

#[test]
fn a_new_period_forgets_the_requests() {
    let mut counter = Counter::new(1);
    assert!(counter.register_request(5));
    assert!(!counter.register_request(5));
    counter.clear();
    assert!(counter.register_request(5));
    assert!(!counter.register_request(5));
    counter.refresh();
    assert!(RateLimiterStrategy::register_request(&mut counter, 5));
    assert!(!RateLimiterStrategy::register_request(&mut counter, 5));
}

#[test]
fn the_limiter_is_set_up_with_its_limit() {
    let mut limiter = set_up_rate_limiter(ArgRateLimiter::Counter, 2);
    assert!(limiter.register_request(3));
    assert!(limiter.register_request(3));
    assert!(!limiter.register_request(3));
}
