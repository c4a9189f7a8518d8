use slay_core::balancer::{LoadBalancer, MAINTENANCE_US};
use slay_core::codec::{
    decode_client_config, decode_edge_config, decode_lb_config, decode_server_config,
    encode_client_config, encode_edge_config, encode_lb_config, encode_server_config,
};
use slay_core::events::{Event, EventType};
use slay_core::queue::EventQueue;
use slay_core::{
    BalancingStrategy, Client, ClientConfig, Component, EdgeConfig, Link, LoadBalancerConfig,
    MetricsCollector, RetryStrategy, Server, ServerConfig, Simulation, SystemInspector,
    canonical_key,
};

#[test]
fn test_service_delay_exact_formula() {
    let config = ServerConfig {
        service_time: 10,
        concurrency: 10,
        backlog_limit: 10,
        failure_ppm: 0,
        saturation_penalty_milli: 1_000,
    };
    // service_time * jitter * penalty / 1000, at the neutral jitter 1000.
    assert_eq!(Server::delay_for_jitter(&config, 0, 1000), 10_000);
    assert_eq!(Server::delay_for_jitter(&config, 5, 1000), 12_500);
    assert_eq!(Server::delay_for_jitter(&config, 10, 1000), 20_000);
    assert_eq!(Server::delay_for_jitter(&config, 10, 950), 19_000);
    assert_eq!(Server::delay_for_jitter(&config, 10, 1050), 21_000);
}

#[test]
fn test_canonical_key_orders_pairs() {
    assert_eq!(canonical_key(3, 9), (3, 9));
    assert_eq!(canonical_key(9, 3), (3, 9));
    assert_eq!(canonical_key(4, 4), (4, 4));
}

#[test]
fn test_event_queue_fifo_on_equal_times() {
    let mut q = EventQueue::new();
    q.push(Event { time: 5, node_id: 1, event_type: EventType::MaintenanceComplete });
    q.push(Event { time: 5, node_id: 2, event_type: EventType::MaintenanceComplete });
    q.push(Event { time: 3, node_id: 3, event_type: EventType::MaintenanceComplete });
    q.push(Event { time: 5, node_id: 4, event_type: EventType::MaintenanceComplete });

    let order: Vec<u32> = (0..4).map(|_| q.pop().unwrap().node_id).collect();
    assert_eq!(order, vec![3, 1, 2, 4]);
    assert!(q.pop().is_none());
}

#[test]
fn test_client_config_round_trip() {
    let cfg = ClientConfig { arrival_rate_milli: 12_500, timeout: 750, generation_id: 3 };
    let bytes = encode_client_config(&cfg);
    assert_eq!(
        String::from_utf8(bytes.clone()).unwrap(),
        "{\"arrival_rate\":12.500000,\"timeout\":750,\"generation_id\":3}"
    );
    let back = decode_client_config(&bytes).expect("canonical bytes decode");
    assert_eq!(back.arrival_rate_milli, cfg.arrival_rate_milli);
    assert_eq!(back.timeout, cfg.timeout);
    assert_eq!(back.generation_id, cfg.generation_id);
    assert!(decode_client_config(&b"{\"arrival_rate\":oops}".to_vec()).is_none());
}

#[test]
fn test_server_config_round_trip() {
    let cfg = ServerConfig {
        service_time: 10,
        concurrency: 4,
        backlog_limit: 50,
        failure_ppm: 250_000,
        saturation_penalty_milli: 500,
    };
    let bytes = encode_server_config(&cfg);
    assert_eq!(
        String::from_utf8(bytes.clone()).unwrap(),
        "{\"service_time\":10,\"concurrency\":4,\"backlog_limit\":50,\
         \"failure_probability\":0.250000,\"saturation_penalty\":0.500000}"
    );
    let back = decode_server_config(&bytes).expect("canonical bytes decode");
    assert_eq!(back.service_time, cfg.service_time);
    assert_eq!(back.concurrency, cfg.concurrency);
    assert_eq!(back.backlog_limit, cfg.backlog_limit);
    assert_eq!(back.failure_ppm, cfg.failure_ppm);
    assert_eq!(back.saturation_penalty_milli, cfg.saturation_penalty_milli);
}

#[test]
fn test_lb_config_round_trip() {
    let cfg = LoadBalancerConfig {
        strategy: BalancingStrategy::LeastConnections,
        max_retries: 2,
        retry_backoff_ms: 50,
        retry_strategy: RetryStrategy::Exponential,
        retry_budget_ratio_milli: 200,
        min_retry_rate: 10,
        retry_budget_max_tokens_milli: 10_000,
    };
    let bytes = encode_lb_config(&cfg);
    let back = decode_lb_config(&bytes).expect("canonical bytes decode");
    assert_eq!(back.strategy, cfg.strategy);
    assert_eq!(back.max_retries, cfg.max_retries);
    assert_eq!(back.retry_backoff_ms, cfg.retry_backoff_ms);
    assert_eq!(back.retry_strategy, cfg.retry_strategy);
    assert_eq!(back.retry_budget_ratio_milli, cfg.retry_budget_ratio_milli);
    assert_eq!(back.min_retry_rate, cfg.min_retry_rate);
    assert_eq!(back.retry_budget_max_tokens_milli, cfg.retry_budget_max_tokens_milli);
}

#[test]
fn test_edge_config_round_trip() {
    let cfg = EdgeConfig { latency_us: 10_000, jitter_us: 2_000, packet_loss_ppm: 120_000 };
    let bytes = encode_edge_config(&cfg);
    assert_eq!(
        String::from_utf8(bytes.clone()).unwrap(),
        "{\"latency_us\":10000,\"jitter_us\":2000,\"packet_loss_rate\":0.120000}"
    );
    let back = decode_edge_config(&bytes).expect("canonical bytes decode");
    assert_eq!(back.latency_us, cfg.latency_us);
    assert_eq!(back.jitter_us, cfg.jitter_us);
    assert_eq!(back.packet_loss_ppm, cfg.packet_loss_ppm);
}

#[test]
fn test_apply_config_bytes_reconfigures_lb() {
    let mut sim = Simulation::new(5);
    sim.add_component(2, Component::LoadBalancer(LoadBalancer::new("LB".to_string())));
    let mut cfg = LoadBalancerConfig::default();
    cfg.max_retries = 7;
    let bytes = encode_lb_config(&cfg);
    let cmds = sim.apply_config(2, &bytes);
    assert_eq!(cmds.len(), 1);
    assert_eq!(cmds[0].delay, MAINTENANCE_US);
    let snap = sim.encode_config(2).unwrap();
    assert_eq!(snap, bytes);
}

#[test]
fn test_round_robin_selection_cycles() {
    let mut lb = LoadBalancer::new("LB".to_string());
    lb.add_target(7);
    lb.add_target(8);
    lb.add_target(9);
    let mut insp = SystemInspector::new();
    insp.record(7, true);
    insp.record(8, true);
    insp.record(9, true);
    let excl: Vec<u32> = Vec::new();
    let picks: Vec<u32> = (0..6)
        .map(|_| lb.select_target(BalancingStrategy::RoundRobin, &insp, &excl).unwrap())
        .collect();
    assert_eq!(picks, vec![7, 8, 9, 7, 8, 9]);
}

#[test]
fn test_round_robin_skips_excluded_and_unhealthy() {
    let mut lb = LoadBalancer::new("LB".to_string());
    lb.add_target(7);
    lb.add_target(8);
    lb.add_target(9);
    let mut insp = SystemInspector::new();
    insp.record(7, true);
    insp.record(8, false);
    insp.record(9, true);
    let excl = vec![7u32];
    assert_eq!(
        lb.select_target(BalancingStrategy::RoundRobin, &insp, &excl),
        Some(9)
    );
    let all = vec![7u32, 9u32];
    assert_eq!(lb.select_target(BalancingStrategy::RoundRobin, &insp, &all), None);
}

#[test]
fn test_least_connections_prefers_lightest() {
    let mut lb = LoadBalancer::new("LB".to_string());
    lb.add_target(7);
    lb.add_target(8);
    let mut insp = SystemInspector::new();
    insp.record(7, true);
    insp.record(8, true);
    let excl: Vec<u32> = Vec::new();
    // Ties go to the earliest registered backend.
    assert_eq!(
        lb.select_target(BalancingStrategy::LeastConnections, &insp, &excl),
        Some(7)
    );
}

#[test]
fn test_percentile_reflects_recorded_latency() {
    // One client request against a near-instant server over a known
    // link: the histogram must hold a latency near the round trip, so a
    // percentile query cannot just echo its input back.
    let mut sim = Simulation::new(9);
    let mut c = Client::new("Client".to_string(), 10_000);
    c.config.timeout = 10_000;
    sim.add_component(1, Component::Client(c));
    sim.add_component(2, Component::Server(Server::new("S".to_string(), 1, 1, 10)));
    let mut link = Link::default();
    link.get_config_mut(1, 2).latency_us = 50_000;
    link.get_config_mut(2, 1).latency_us = 50_000;
    sim.connect_node(1, 2, link);
    sim.start();
    sim.advance_until(1_000_000);
    assert!(sim.success_count > 0);
    let p50 = sim.get_percentile(50, 1_000_000).unwrap();
    assert!(p50 >= 100_000, "round trip {} must include both link legs", p50);
    assert!(p50 < 200_000, "round trip {} should stay near the link latency", p50);
    assert!(sim.get_percentile(99, 0).is_some());
    sim.reset_stats();
    assert_eq!(sim.get_percentile(99, 0), None);
}

#[test]
fn test_metrics_collector_samples_rates() {
    let mut sim = Simulation::new(9);
    sim.add_component(1, Component::Client(Client::new("Client".to_string(), 100_000)));
    sim.add_component(2, Component::Server(Server::new("S".to_string(), 1, 10, 10)));
    sim.connect_node(1, 2, Link::default());
    sim.start();
    let mut collector = MetricsCollector::new(4);
    collector.update(&sim, 1_000_000);
    assert_eq!(collector.history.len(), 0, "no interval elapsed yet");
    for k in 1..=8u64 {
        sim.advance_until(k * 250_000);
        collector.update(&sim, 1_000_000);
    }
    assert_eq!(collector.history.len(), 4, "history is bounded");
    let last = collector.history.last().unwrap();
    assert!(last.success_rps_milli > 0, "successes must show up in the rate");
    assert_eq!(last.sim_time_us, 2_000_000);
    collector.reset();
    assert_eq!(collector.history.len(), 0);
}

#[test]
fn test_remove_node_purges_topology() {
    let mut sim = Simulation::new(9);
    sim.add_component(1, Component::Client(Client::new("Client".to_string(), 10_000)));
    sim.add_component(2, Component::Server(Server::new("S".to_string(), 1, 1, 10)));
    sim.connect_node(1, 2, Link::default());
    sim.remove_node(2);
    assert!(sim.get_component(2).is_none());
    let client = sim.get_component(1).unwrap();
    assert!(client.get_targets().is_empty(), "outbound reference must be purged");
    sim.start();
    sim.advance_until(500_000);
    assert_eq!(sim.success_count + sim.failure_count, 0, "no server, no outcomes");
}
