use mangadex_dl::ratelimits::RateLimiter;

#[test]
fn fresh_limiter_is_ready_once_the_clock_advances() {
    let rl = RateLimiter::new(200, 1000);
    assert_eq!(rl.last_hit, 800);
    assert_eq!(rl.timeout, 200);
    assert!(!rl.can_query(1000));
    assert!(rl.can_query(1001));
    assert_eq!(rl.get_timeout(1000), 0);
}

#[test]
fn fresh_limiter_near_the_clock_origin() {
    let rl = RateLimiter::new(500, 100);
    assert_eq!(rl.last_hit, 0);
    assert!(!rl.can_query(400));
    assert!(rl.can_query(501));
}

#[test]
fn wait_is_the_remainder_of_the_interval() {
    let mut rl = RateLimiter::new(200, 1000);
    rl.update(1000);
    assert_eq!(rl.last_hit, 1000);
    assert_eq!(rl.get_timeout(1000), 200);
    assert_eq!(rl.get_timeout(1150), 50);
    assert_eq!(rl.get_timeout(1200), 0);
    assert!(!rl.can_query(1200));
    assert!(rl.can_query(1201));
}

#[test]
fn hits_only_move_forward() {
    let mut rl = RateLimiter::new(100, 1000);
    rl.update(1000);
    rl.update(1500);
    assert_eq!(rl.last_hit, 1500);
    assert!(!rl.can_query(1550));
    assert!(rl.can_query(1601));
}
