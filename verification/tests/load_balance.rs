use syslab::load_balance::random::Random;
use syslab::load_balance::round_robin::RoundRobin;
use syslab::load_balance::upstreams::UpstreamsStatus;
use syslab::load_balance::{ArgLoadBalance, LoadBalanceStrategy, LoadBalancer};

#[test]
fn all_servers_are_alive_at_first() {
    let status = UpstreamsStatus::new(3);
    assert_eq!(status.len(), 3);
    assert_eq!(status.alive(), 3);
    assert!(status.is_alive(0) && status.is_alive(1) && status.is_alive(2));
    assert!(!status.all_dead());
    let none = UpstreamsStatus::new(0);
    assert!(none.all_dead());
    assert_eq!(none.len(), 0);
}

#[test]
fn the_number_of_servers_alive_follows_their_states() {
    let mut status = UpstreamsStatus::new(3);
    status.set_down(1);
    assert!(!status.is_alive(1));
    assert_eq!(status.alive(), 2);
    status.set_down(1);
    assert_eq!(status.alive(), 2);
    status.set_up(0);
    assert_eq!(status.alive(), 3 - 1);
    status.set_down(0);
    status.set_down(2);
    assert!(status.all_dead());
    assert_eq!(status.alive(), 0);
    status.set_up(2);
    assert!(!status.all_dead());
    assert!(status.is_alive(2));
    assert_eq!(status.alive(), 1);
}

#[test]
fn the_servers_alive_are_counted_through() {
    let mut status = UpstreamsStatus::new(5);
    status.set_down(0);
    status.set_down(3);
    assert_eq!(status.nth_alive(0), 1);
    assert_eq!(status.nth_alive(1), 2);
    assert_eq!(status.nth_alive(2), 4);
}

#[test]
fn round_robin_takes_the_servers_in_turn() {
    let status = UpstreamsStatus::new(3);
    let mut balancer = RoundRobin::new();
    assert_eq!(balancer.select_backend(&status), Some(1));
    assert_eq!(balancer.select_backend(&status), Some(2));
    assert_eq!(balancer.select_backend(&status), Some(0));
    assert_eq!(balancer.select_backend(&status), Some(1));
}

#[test]
fn round_robin_passes_over_servers_that_are_dead() {
    let mut status = UpstreamsStatus::new(4);
    status.set_down(1);
    status.set_down(2);
    let mut balancer = RoundRobin::new();
    assert_eq!(balancer.select_backend(&status), Some(3));
    assert_eq!(balancer.select_backend(&status), Some(0));
    assert_eq!(balancer.select_backend(&status), Some(3));
    status.set_down(3);
    assert_eq!(balancer.select_backend(&status), Some(0));
    assert_eq!(balancer.select_backend(&status), Some(0));
    status.set_down(0);
    assert_eq!(balancer.select_backend(&status), None);
    status.set_up(2);
    assert_eq!(balancer.select_backend(&status), Some(2));
}

#[test]
fn round_robin_with_one_server_takes_it_every_time() {
    let status = UpstreamsStatus::new(1);
    let mut balancer = RoundRobin::new();
    assert_eq!(balancer.select_backend(&status), Some(0));
    assert_eq!(balancer.select_backend(&status), Some(0));
    let none = UpstreamsStatus::new(0);
    assert_eq!(balancer.select_backend(&none), None);
}

#[test]
fn a_server_chosen_by_chance_is_alive() {
    let mut status = UpstreamsStatus::new(6);
    status.set_down(0);
    status.set_down(2);
    status.set_down(5);
    let mut balancer = Random::new();
    let mut seen = [false; 6];
    let mut i = 0;
    while i < 400 {
        let chosen = balancer.select_backend(&status).unwrap();
        assert!(status.is_alive(chosen));
        seen[chosen] = true;
        i += 1;
    }
    assert_eq!(seen, [false, true, false, true, true, false]);
    status.set_down(1);
    status.set_down(3);
    assert_eq!(balancer.select_backend(&status), Some(4));
    status.set_down(4);
    assert_eq!(balancer.select_backend(&status), None);
}

#[test]
fn the_way_of_choosing_is_the_one_that_was_asked_for() {
    let status = UpstreamsStatus::new(2);
    let mut turn = LoadBalancer::from(ArgLoadBalance::RoundRobin);
    assert!(matches!(turn, LoadBalancer::RoundRobin(_)));
    assert_eq!(turn.select_backend(&status), Some(1));
    assert_eq!(turn.select_backend(&status), Some(0));
    let mut chance = LoadBalancer::from(ArgLoadBalance::Random);
    assert!(matches!(chance, LoadBalancer::Random(_)));
    assert!(chance.select_backend(&status).unwrap() < 2);
    let dead = UpstreamsStatus::new(0);
    assert_eq!(chance.select_backend(&dead), None);
    assert_eq!(turn.select_backend(&dead), None);
}
