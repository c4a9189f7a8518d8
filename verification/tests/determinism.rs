use slay_core::{Client, Component, Link, Server, Simulation};

fn build(seed: u64, rate_milli: u64) -> Simulation {
    let mut sim = Simulation::new(seed);
    sim.add_component(1, Component::Client(Client::new("Client".to_string(), rate_milli)));
    sim.add_component(2, Component::Server(Server::new("Server".to_string(), 10, 10, 100)));
    sim.connect_node(1, 2, Link::default());
    sim.start();
    sim
}

fn run_for_ms(sim: &mut Simulation, ms: u64) {
    let end = sim.time + ms * 1000;
    sim.advance_until(end);
}

#[test]
fn test_determinism_across_runs() {
    let seed = 12345;

    let mut h1 = build(seed, 100_000);
    run_for_ms(&mut h1, 100);

    let mut h2 = build(seed, 100_000);
    run_for_ms(&mut h2, 100);

    assert_eq!(h1.success_count, h2.success_count, "Success count mismatch");
    assert_eq!(h1.failure_count, h2.failure_count, "Failure count mismatch");
    assert_eq!(h1.latencies.len(), h2.latencies.len(), "Latency count mismatch");

    for (i, (t1, l1)) in h1.latencies.iter().enumerate() {
        let (t2, l2) = h2.latencies[i];
        assert_eq!(*t1, t2, "Latency timestamp mismatch at index {}", i);
        assert_eq!(*l1, l2, "Latency value mismatch at index {}", i);
    }
}

#[test]
fn test_determinism_with_different_seeds() {
    let mut h1 = build(100, 100_000);
    run_for_ms(&mut h1, 200);

    let mut h2 = build(200, 100_000);
    run_for_ms(&mut h2, 200);

    let latency_sum1: u64 = h1.latencies.iter().map(|(_, l)| l).sum();
    let latency_sum2: u64 = h2.latencies.iter().map(|(_, l)| l).sum();

    assert_ne!(
        latency_sum1, latency_sum2,
        "Different seeds should produce different results"
    );
}
