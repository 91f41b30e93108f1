use geph5_core::cache::FailureCache;
use geph5_core::net::{Endpoint, IpAddrBytes};
use geph5_core::route::{
    compose_dialer, route_to_dialer, BridgeMode, Dialer, RouteDescriptor, DIRECT_HEAD_START_MS,
};

fn addr(a: u8, b: u8, c: u8, d: u8, port: u16) -> Endpoint {
    Endpoint { ip: IpAddrBytes::V4(vec![a, b, c, d]), port }
}

#[test]
fn failure_cache_delay() {
    // compile a TCP leaf, strike the address three times, and see the
    // dial-time delay reflect every strike until the TTL has passed
    let target = addr(9, 9, 9, 9, 80);
    let dialer = route_to_dialer(&RouteDescriptor::Tcp(addr(9, 9, 9, 9, 80)));
    assert_eq!(dialer, Dialer::Tcp(addr(9, 9, 9, 9, 80)));

    let mut cache = FailureCache::new();
    let t0: u64 = 1_000_000;
    cache.deprioritize_route(&target, t0);
    cache.deprioritize_route(&target, t0);
    cache.deprioritize_route(&target, t0);
    assert!(cache.penalty(&target, t0) >= 3);
    assert_eq!(cache.penalty(&target, t0), 3);
    // after the TTL with no further strikes the delay is gone
    assert_eq!(cache.penalty(&target, t0 + 600), 0);
}

#[test]
fn penalty_monotone_under_bumps() {
    let target = addr(1, 1, 1, 1, 443);
    let mut cache = FailureCache::new();
    let now: u64 = 50_000;
    let mut last = cache.penalty(&target, now);
    for _ in 0..10 {
        cache.deprioritize_route(&target, now);
        let p = cache.penalty(&target, now);
        assert!(p >= last);
        last = p;
    }
    assert_eq!(last, 10);
}

#[test]
fn penalty_expired_then_restarts_at_one() {
    let target = addr(2, 2, 2, 2, 443);
    let mut cache = FailureCache::new();
    cache.deprioritize_route(&target, 1000);
    cache.deprioritize_route(&target, 1000);
    assert_eq!(cache.penalty(&target, 1000), 2);
    // a bump after expiry restarts the count at one
    cache.deprioritize_route(&target, 2000);
    assert_eq!(cache.penalty(&target, 2000), 1);
}

#[test]
fn penalty_other_address_untouched() {
    let a = addr(3, 3, 3, 3, 1);
    let b = addr(4, 4, 4, 4, 1);
    let mut cache = FailureCache::new();
    cache.deprioritize_route(&a, 10);
    assert_eq!(cache.penalty(&b, 10), 0);
    assert_eq!(cache.penalty(&a, 10), 1);
}

#[test]
fn empty_race_fallback_other_fail_definitely() {
    assert_eq!(route_to_dialer(&RouteDescriptor::Race(vec![])), Dialer::Failing);
    assert_eq!(route_to_dialer(&RouteDescriptor::Fallback(vec![])), Dialer::Failing);
    assert_eq!(route_to_dialer(&RouteDescriptor::Other(b"unknown".to_vec())), Dialer::Failing);
}

#[test]
fn compile_folds_left_to_right() {
    let r = route_to_dialer(&RouteDescriptor::Race(vec![
        RouteDescriptor::Tcp(addr(1, 0, 0, 1, 1)),
        RouteDescriptor::Tcp(addr(1, 0, 0, 2, 2)),
        RouteDescriptor::Tcp(addr(1, 0, 0, 3, 3)),
    ]));
    let expect = Dialer::Race(
        Box::new(Dialer::Race(
            Box::new(Dialer::Tcp(addr(1, 0, 0, 1, 1))),
            Box::new(Dialer::Tcp(addr(1, 0, 0, 2, 2))),
        )),
        Box::new(Dialer::Tcp(addr(1, 0, 0, 3, 3))),
    );
    assert_eq!(r, expect);
}

#[test]
fn compile_nested_combinators() {
    let r = route_to_dialer(&RouteDescriptor::Timeout {
        milliseconds: 700,
        lower: Box::new(RouteDescriptor::Sosistab3 {
            cookie: b"c".to_vec(),
            lower: Box::new(RouteDescriptor::Delay {
                milliseconds: 20,
                lower: Box::new(RouteDescriptor::Tcp(addr(8, 8, 8, 8, 53))),
            }),
        }),
    });
    let expect = Dialer::Timeout(
        700,
        Box::new(Dialer::Sosistab3(
            b"c".to_vec(),
            Box::new(Dialer::Delay(20, Box::new(Dialer::Tcp(addr(8, 8, 8, 8, 53))))),
        )),
    );
    assert_eq!(r, expect);
}

#[test]
fn race_head_start_composition() {
    // under Auto the direct dialer races the bridge dialer, which starts
    // only after the head start, so a direct dial that lands first wins
    let direct = || Dialer::Tcp(addr(7, 7, 7, 7, 443));
    let bridge = || Dialer::Tcp(addr(6, 6, 6, 6, 443));
    let composed = compose_dialer(direct(), bridge(), &BridgeMode::Auto);
    assert_eq!(
        composed,
        Dialer::Race(
            Box::new(Dialer::Tcp(addr(7, 7, 7, 7, 443))),
            Box::new(Dialer::Delay(
                DIRECT_HEAD_START_MS,
                Box::new(Dialer::Tcp(addr(6, 6, 6, 6, 443)))
            )),
        )
    );
    assert_eq!(DIRECT_HEAD_START_MS, 1000);

    let only_bridge = compose_dialer(direct(), bridge(), &BridgeMode::ForceBridges);
    assert_eq!(only_bridge, bridge());
    let only_direct = compose_dialer(direct(), bridge(), &BridgeMode::ForceDirect);
    assert_eq!(only_direct, direct());
}
