use rserver::transport::shutdown::Shutdown;
use std::time::{Duration, Instant};

#[test]
fn test_poll_timeout_bounds() {
    assert_eq!(
        Shutdown::poll_timeout(None, Duration::from_secs(30)),
        1_000
    );

    let remaining = Shutdown::poll_timeout(
        Some(Instant::now() + Duration::from_millis(50)),
        Duration::from_secs(30),
    );
    assert!((40..=50).contains(&remaining), "unexpected timeout: {remaining}");

    let expired = Shutdown::poll_timeout(Some(Instant::now()), Duration::from_secs(30));
    assert_eq!(expired, 1, "expired deadline must still yield a positive timeout");
}

#[test]
fn clamp_timeout_bounds() {
    assert_eq!(Shutdown::clamp_timeout(0), 1);
    assert_eq!(Shutdown::clamp_timeout(1), 1);
    assert_eq!(Shutdown::clamp_timeout(250), 250);
    assert_eq!(Shutdown::clamp_timeout(1000), 1000);
    assert_eq!(Shutdown::clamp_timeout(u128::MAX), 1000);
}

#[test]
fn poll_timeout_uses_short_fallback() {
    assert_eq!(Shutdown::poll_timeout(None, Duration::from_millis(20)), 20);
}

#[test]
fn shutdown_parts_roundtrip() {
    let s = Shutdown::from_parts(7, 8, 3);
    assert_eq!(s.wake_fd(), 7);
    assert_eq!(s.write_fd(), 8);
    assert_eq!(s.generation(), 3);
}

#[test]
fn timeout_at_counts_down_to_the_deadline() {
    let now = std::time::Instant::now();
    let fallback = std::time::Duration::from_secs(100);
    assert_eq!(Shutdown::timeout_at(Some(now + std::time::Duration::from_millis(50)), now, fallback), 50);
    assert_eq!(Shutdown::timeout_at(Some(now + std::time::Duration::from_secs(5)), now, fallback), 1000);
    assert_eq!(Shutdown::timeout_at(Some(now), now + std::time::Duration::from_millis(10), fallback), 1);
    assert_eq!(Shutdown::timeout_at(None, now, std::time::Duration::from_millis(250)), 250);
}
