use std::collections::HashSet;

use nq_deribit::pool::{ConnectionPool, PoolConfig};

fn channels(n: usize) -> Vec<String> {
    channels_from(0, n)
}

fn channels_from(start: usize, count: usize) -> Vec<String> {
    (start..start + count).map(|i| format!("ch_{}", i)).collect()
}

fn pool(capacity: usize) -> ConnectionPool {
    ConnectionPool::new(PoolConfig { capacity_per_connection: capacity })
}

#[test]
fn test_subscribe_empty() {
    let mut pool = pool(100);
    let assignments = pool.subscribe(&Vec::new());
    assert!(assignments.is_empty());
    let conns = pool.connection_runners();
    assert_eq!(conns.len(), 1, "empty subscribe should not create connections");
    assert_eq!(conns[0].channel_count(), 0);
}

#[test]
fn test_subscribe_within_capacity() {
    let mut pool = pool(100);
    let _ = pool.subscribe(&channels(50));
    let conns = pool.connection_runners();
    assert_eq!(conns.len(), 1);
    assert_eq!(conns[0].channel_count(), 50);
}

#[test]
fn test_subscribe_exact_capacity() {
    let mut pool = pool(200);
    let _ = pool.subscribe(&channels(200));
    let conns = pool.connection_runners();
    assert_eq!(conns.len(), 1, "exact capacity should fit in 1 connection");
    assert_eq!(conns[0].channel_count(), 200);
}

#[test]
fn test_subscribe_capacity_plus_one() {
    let mut pool = pool(200);
    let _ = pool.subscribe(&channels(201));
    let conns = pool.connection_runners();
    assert_eq!(conns.len(), 2, "201 channels with cap=200 needs 2 connections");
    let total: usize = conns.iter().map(|c| c.channel_count()).sum();
    assert_eq!(total, 201);
    assert!(conns.iter().all(|c| c.channel_count() <= 200));
}

#[test]
fn test_subscribe_small_capacity_distribution() {
    let mut pool = pool(3);
    let _ = pool.subscribe(&channels(10));
    let conns = pool.connection_runners();
    assert_eq!(conns.len(), 4, "ceil(10/3) = 4");
    let counts: Vec<usize> = conns.iter().map(|c| c.channel_count()).collect();
    assert_eq!(counts.iter().sum::<usize>(), 10);
    assert_eq!(counts[0], 3);
    assert_eq!(counts[1], 3);
    assert_eq!(counts[2], 3);
    assert_eq!(counts[3], 1);
}

#[test]
fn test_subscribe_production_scale() {
    let mut pool = pool(200);
    let _ = pool.subscribe(&channels(1680));
    let conns = pool.connection_runners();
    assert_eq!(conns.len(), 9, "ceil(1680/200) = 9");
    let total: usize = conns.iter().map(|c| c.channel_count()).sum();
    assert_eq!(total, 1680, "all channels must be followed");
    assert!(conns.iter().all(|c| c.channel_count() <= 200), "no connection should exceed capacity");
    for i in 0..8 {
        assert_eq!(conns[i].channel_count(), 200, "connection {} should be full", i);
    }
    assert_eq!(conns[8].channel_count(), 80, "last connection gets remainder");
}

#[test]
fn test_subscribe_with_existing_channels() {
    let mut pool = pool(200);
    let _ = pool.subscribe(&channels_from(0, 100));
    let _ = pool.subscribe(&channels_from(100, 150));
    let conns = pool.connection_runners();
    assert_eq!(conns.len(), 2, "100 + 150 = 250, needs 2 connections with cap=200");
    assert_eq!(conns[0].channel_count(), 200);
    assert_eq!(conns[1].channel_count(), 50);
}

#[test]
fn test_subscribe_multiple_rounds() {
    let mut pool = pool(200);
    let _ = pool.subscribe(&channels_from(0, 150));
    let _ = pool.subscribe(&channels_from(150, 100));
    let _ = pool.subscribe(&channels_from(250, 300));
    let conns = pool.connection_runners();
    assert_eq!(conns.len(), 3, "150+100+300=550, ceil(550/200)=3");
    let total: usize = conns.iter().map(|c| c.channel_count()).sum();
    assert_eq!(total, 550);
    assert!(conns.iter().all(|c| c.channel_count() <= 200));
}

#[test]
fn test_subscribe_no_duplicate_channels() {
    let mut pool = pool(200);
    let chs: Vec<String> = (0..500).map(|i| format!("ticker.OPT-{}.agg2", i)).collect();
    let _ = pool.subscribe(&chs);
    let conns = pool.connection_runners();
    let total: usize = conns.iter().map(|c| c.channel_count()).sum();
    assert_eq!(total, 500);
    let mut all: HashSet<String> = HashSet::new();
    for conn in conns {
        for ch in conn.subscribed_channels() {
            assert!(all.insert(ch.clone()), "duplicate channel: {}", ch);
        }
    }
    assert_eq!(all.len(), 500);
}

#[test]
fn test_subscribe_deterministic_distribution() {
    for _ in 0..5 {
        let mut pool = pool(200);
        let _ = pool.subscribe(&channels(500));
        let conns = pool.connection_runners();
        assert_eq!(conns.len(), 3, "ceil(500/200) = 3");
        assert_eq!(conns[0].channel_count(), 200);
        assert_eq!(conns[1].channel_count(), 200);
        assert_eq!(conns[2].channel_count(), 100);
    }
}

#[test]
fn test_subscribe_connection_ids() {
    let mut pool = pool(200);
    let _ = pool.subscribe(&channels(500));
    let conns = pool.connection_runners();
    assert_eq!(conns[0].id(), 0);
    assert_eq!(conns[1].id(), 1);
    assert_eq!(conns[2].id(), 2);
}

#[test]
fn subscribe_assignments_name_connections_and_channels() {
    let mut pool = pool(3);
    let assignments = pool.subscribe(&channels(5));
    assert_eq!(assignments.len(), 2);
    assert_eq!(assignments[0].connection_id, 0);
    assert_eq!(assignments[0].channels, channels(3));
    assert_eq!(assignments[1].connection_id, 1);
    assert_eq!(assignments[1].channels, channels_from(3, 2));
}

#[test]
fn cleanup_keeps_one_connection() {
    let mut pool = pool(2);
    let _ = pool.subscribe(&channels(4));
    assert_eq!(pool.connection_count(), 2);
    pool.remove_channels(0, &channels(2));
    pool.remove_channels(1, &channels_from(2, 2));
    pool.cleanup_empty_connections();
    assert_eq!(pool.connection_count(), 1);
    assert_eq!(pool.first_connection().channel_count(), 0);
}

#[test]
fn cleanup_drops_empty_connections_only() {
    let mut pool = pool(2);
    let _ = pool.subscribe(&channels(6));
    assert_eq!(pool.connection_count(), 3);
    pool.remove_channels(1, &channels_from(2, 2));
    pool.cleanup_empty_connections();
    let ids: Vec<usize> = pool.connection_runners().iter().map(|c| c.id()).collect();
    assert_eq!(ids, vec![0, 2]);
    assert_eq!(pool.find_connection_with(&"ch_5".to_string()), Some(2));
    assert_eq!(pool.find_connection_with(&"ch_2".to_string()), None);
}

#[test]
fn new_connections_cover_only_what_the_room_left_cannot_hold() {
    let mut pool = pool(200);
    let _ = pool.subscribe(&channels(150));
    assert_eq!(pool.connection_count(), 1);
    // 50 places are left; 300 more channels need ceil(250 / 200) = 2 new connections.
    let _ = pool.subscribe(&channels_from(150, 300));
    assert_eq!(pool.connection_count(), 3);
    // 100 places are left; 100 more fit without a new connection.
    let _ = pool.subscribe(&channels_from(450, 100));
    assert_eq!(pool.connection_count(), 3);
}

#[test]
fn cleanup_keeps_followed_connections_in_order() {
    let mut pool = pool(2);
    let _ = pool.subscribe(&channels(6));
    assert_eq!(pool.connection_count(), 3);
    let first = pool.connection_runners()[0].id();
    let third = pool.connection_runners()[2].id();
    let second_channels = pool.connection_runners()[1].subscribed_channels();
    pool.remove_channels(pool.connection_runners()[1].id(), &second_channels);
    pool.cleanup_empty_connections();
    let ids: Vec<usize> = pool.connection_runners().iter().map(|c| c.id()).collect();
    assert_eq!(ids, vec![first, third]);
}

#[test]
fn tracking_adds_channels_within_capacity_only() {
    let mut pool = pool(3);
    let id = pool.connection_runners()[0].id();
    assert!(pool.track_channels(id, &channels(2)));
    assert_eq!(pool.connection_runners()[0].channel_count(), 2);
    // Already followed channels stay once.
    assert!(pool.track_channels(id, &channels(2)));
    assert_eq!(pool.connection_runners()[0].channel_count(), 2);
    assert!(!pool.track_channels(id, &channels_from(2, 2)));
    assert_eq!(pool.connection_runners()[0].channel_count(), 2);
    assert!(!pool.track_channels(id + 100, &channels(1)));
}

#[test]
fn subscribe_keeps_old_channels_and_adds_exactly_the_new_ones() {
    let mut pool = pool(2);
    let _ = pool.subscribe(&channels(3));
    let _ = pool.subscribe(&channels_from(3, 2));
    let mut all: Vec<String> = pool.connection_runners().iter().flat_map(|c| c.subscribed_channels()).collect();
    all.sort();
    let mut expected = channels(5);
    expected.sort();
    assert_eq!(all, expected);
}
