use slay_core::{Client, Component, EdgeConfig, Link, Server, Simulation};

fn run_for_ms(sim: &mut Simulation, ms: u64) {
    let end = sim.time + ms * 1000;
    sim.advance_until(end);
}

fn client_with_timeout(rate_milli: u64, timeout_ms: u64) -> Client {
    let mut c = Client::new("Client".to_string(), rate_milli);
    c.config.timeout = timeout_ms;
    c
}

#[test]
fn test_high_latency_timeout() {
    let mut sim = Simulation::new(21);
    sim.add_component(1, Component::Client(client_with_timeout(10_000, 100)));
    sim.add_component(2, Component::Server(Server::new("S1".to_string(), 10, 1, 10)));

    let mut link = Link::default();
    link.get_config_mut(1, 2).latency_us = 200_000;
    sim.connect_node(1, 2, link);

    sim.start();
    run_for_ms(&mut sim, 1000);

    assert_eq!(sim.success_count, 0, "Should have 0 successes due to timeout");
    assert!(sim.failure_count > 0, "Should have failures due to timeout");
}

#[test]
fn test_latency_delay_success() {
    let mut sim = Simulation::new(21);
    sim.add_component(1, Component::Client(client_with_timeout(10_000, 1000)));
    sim.add_component(2, Component::Server(Server::new("S1".to_string(), 10, 1, 10)));

    let mut link = Link::default();
    link.get_config_mut(1, 2).latency_us = 100_000;
    link.get_config_mut(2, 1).latency_us = 100_000;
    sim.connect_node(1, 2, link);

    sim.start();
    run_for_ms(&mut sim, 1000);

    assert!(sim.success_count > 0, "Should succeed despite latency");
    let p_min = sim.get_percentile(1, 500_000).unwrap_or(0);
    assert!(p_min >= 200_000, "RTT {} should be >= 200ms latency", p_min);
}

#[test]
fn test_packet_loss_50_percent() {
    let mut sim = Simulation::new(21);
    sim.add_component(1, Component::Client(Client::new("Client".to_string(), 100_000)));
    sim.add_component(2, Component::Server(Server::new("S1".to_string(), 10, 100, 100)));

    let mut link = Link::default();
    link.get_config_mut(1, 2).packet_loss_ppm = 500_000;
    sim.connect_node(1, 2, link);

    sim.start();
    run_for_ms(&mut sim, 1000);

    let total = sim.success_count + sim.failure_count;
    let rate = sim.success_count as f64 / total as f64;
    assert!(
        (rate - 0.5).abs() < 0.15,
        "Success rate {:.2} should be close to 0.5",
        rate
    );
}

#[test]
fn test_jitter_variability() {
    let mut sim = Simulation::new(21);
    sim.add_component(1, Component::Client(Client::new("Client".to_string(), 100_000)));
    sim.add_component(2, Component::Server(Server::new("S1".to_string(), 1, 1, 100)));

    let base = 10_000;
    let jitter = 50_000;
    let mut link = Link::default();
    *link.get_config_mut(1, 2) = EdgeConfig {
        latency_us: base,
        jitter_us: jitter,
        packet_loss_ppm: 0,
    };
    sim.connect_node(1, 2, link);

    sim.start();
    run_for_ms(&mut sim, 2000);

    let p1 = sim.get_percentile(1, 500_000).unwrap_or(0);
    let p99 = sim.get_percentile(99, 500_000).unwrap_or(0);
    let spread = p99 - p1;

    assert!(
        (spread as i64 - jitter as i64).abs() < 15_000,
        "Spread {} should be close to jitter {}",
        spread,
        jitter
    );
}

#[test]
fn test_dynamic_edge_update() {
    let mut sim = Simulation::new(21);
    sim.add_component(1, Component::Client(client_with_timeout(10_000, 50)));
    sim.add_component(2, Component::Server(Server::new("S1".to_string(), 10, 1, 10)));
    sim.connect_node(1, 2, Link::default());

    sim.start();
    run_for_ms(&mut sim, 500);
    let success_p1 = sim.success_count;
    assert!(success_p1 > 0);

    let mut link = Link::default();
    link.get_config_mut(1, 2).latency_us = 100_000;
    sim.connect_node(1, 2, link);

    run_for_ms(&mut sim, 500);
    let new_successes = sim.success_count - success_p1;
    assert!(new_successes <= 1, "Should stop succeeding after latency increase");

    sim.connect_node(1, 2, Link::default());
    run_for_ms(&mut sim, 500);
    assert!(sim.success_count > success_p1 + new_successes, "Should recover");
}

#[test]
fn test_default_edge_behavior() {
    let mut sim = Simulation::new(21);
    sim.add_component(1, Component::Client(Client::new("Client".to_string(), 10_000)));
    sim.add_component(2, Component::Server(Server::new("S1".to_string(), 10, 1, 10)));
    sim.connect_node(1, 2, Link::default());

    sim.start();
    run_for_ms(&mut sim, 1000);

    assert!(sim.success_count > 0, "Default link should work");
    let p_min = sim.get_percentile(1, 500_000).unwrap_or(0);
    assert!(p_min >= 20_000, "Default RTT {} should be >= 20ms latency", p_min);
}

#[test]
fn test_asymmetric_jitter() {
    let mut sim = Simulation::new(21);
    sim.add_component(1, Component::Client(Client::new("Client".to_string(), 100_000)));
    sim.add_component(2, Component::Server(Server::new("S1".to_string(), 1, 1, 100)));

    let mut link = Link::default();
    *link.get_config_mut(1, 2) = EdgeConfig {
        latency_us: 10_000,
        jitter_us: 40_000,
        packet_loss_ppm: 0,
    };
    *link.get_config_mut(2, 1) = EdgeConfig {
        latency_us: 100_000,
        jitter_us: 0,
        packet_loss_ppm: 0,
    };
    sim.connect_node(1, 2, link);

    sim.start();
    run_for_ms(&mut sim, 2000);

    let p_min = sim.get_percentile(1, 500_000).unwrap_or(0);
    let p_max = sim.get_percentile(99, 500_000).unwrap_or(0);

    assert!(p_min >= 100_000, "Min RTT should include return latency");
    assert!(p_max >= 140_000, "Max RTT should include jitter");
}
