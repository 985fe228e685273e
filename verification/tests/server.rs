use lx_music_sync::server::{BlockedIpError, ServerContext};
use lx_music_sync::utils::RwCounter;

#[test]
fn ip_from_proxy_header_or_peer() {
    let ctx = ServerContext::new();
    let real = Some("1.2.3.4".to_string());
    let peer = Some("127.0.0.1".to_string());
    assert_eq!(ctx.get_ip(true, real.clone(), peer.clone()), Ok("1.2.3.4".to_string()));
    assert_eq!(ctx.get_ip(false, real.clone(), peer.clone()), Ok("127.0.0.1".to_string()));
    assert_eq!(ctx.get_ip(true, None, peer.clone()), Ok("127.0.0.1".to_string()));
    assert_eq!(ctx.get_ip(true, None, None), Err(BlockedIpError));
}

#[test]
fn ip_blocked_after_twenty_failures() {
    let mut ctx = ServerContext::new();
    let ip = "10.0.0.1".to_string();
    for i in 0..19u64 {
        ctx.record_auth_failed_ip(&ip, i);
    }
    assert_eq!(ctx.get_ip(false, None, Some(ip.clone())), Ok(ip.clone()));
    ctx.record_auth_failed_ip(&ip, 19);
    assert_eq!(ctx.get_ip(false, None, Some(ip.clone())), Err(BlockedIpError));
    assert_eq!(ctx.get_ip(false, None, Some("10.0.0.2".to_string())), Ok("10.0.0.2".to_string()));
}

#[test]
fn failures_are_forgotten_after_two_days() {
    let mut ctx = ServerContext::new();
    let ip = "10.0.0.1".to_string();
    for _ in 0..20 {
        ctx.record_auth_failed_ip(&ip, 1_000);
    }
    ctx.cleanup_failed_logins(1_000 + 172_800_000);
    assert!(ctx.get_ip(false, None, Some(ip.clone())).is_err());
    ctx.cleanup_failed_logins(1_001 + 172_800_000);
    assert_eq!(ctx.get_ip(false, None, Some(ip.clone())), Ok(ip));
}

#[test]
fn counter_counts_and_cleans_up() {
    let mut c = RwCounter::new();
    let a = "a".to_string();
    let b = "b".to_string();
    assert_eq!(c.count(&a), 0);
    c.increase(a.clone(), 10);
    c.increase(a.clone(), 20);
    c.increase(b.clone(), 5);
    assert_eq!(c.count(&a), 2);
    assert_eq!(c.count(&b), 1);
    c.cleanup(100);
    assert_eq!(c.count(&a), 2);
    c.cleanup(172_800_000 + 10);
    assert_eq!(c.count(&a), 2);
    assert_eq!(c.count(&b), 0);
}

#[test]
fn device_users() {
    let mut ctx = ServerContext::new();
    assert_eq!(ctx.get_username(&"d1".to_string()), None);
    ctx.register_each_device(&vec!["d1".to_string(), "d2".to_string()], &"alice".to_string());
    ctx.update_device_username_map("d3".to_string(), "bob".to_string());
    assert_eq!(ctx.get_username(&"d1".to_string()), Some("alice".to_string()));
    assert_eq!(ctx.get_username(&"d2".to_string()), Some("alice".to_string()));
    assert_eq!(ctx.get_username(&"d3".to_string()), Some("bob".to_string()));
    ctx.update_device_username_map("d1".to_string(), "bob".to_string());
    assert_eq!(ctx.get_username(&"d1".to_string()), Some("bob".to_string()));
}
