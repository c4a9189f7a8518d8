use slay_core::{Client, ClientConfig, Component, Link, Server, Simulation};

fn run_for_ms(sim: &mut Simulation, ms: u64) {
    let end = sim.time + ms * 1000;
    sim.advance_until(end);
}

fn sla(sim: &Simulation) -> f64 {
    let total = sim.success_count + sim.failure_count;
    if total == 0 {
        return 100.0;
    }
    (sim.success_count as f64 / total as f64) * 100.0
}

fn p99_ms(sim: &Simulation) -> u64 {
    sim.get_percentile(99, 5_000_000).unwrap_or(0) / 1000
}

#[test]
fn test_aws_realism() {
    let mut sim = Simulation::new(41);
    sim.add_component(2, Component::Server(Server::new("Server".to_string(), 50, 2, 100)));
    sim.add_component(1, Component::Client(Client::new("Client".to_string(), 20_000)));
    sim.connect_node(1, 2, Link::default());

    sim.start();
    run_for_ms(&mut sim, 5000);
    assert!(sla(&sim) > 99.0);
    assert!(p99_ms(&sim) < 150);
}

#[test]
fn test_saturation_and_recovery() {
    let mut sim = Simulation::new(41);
    sim.add_component(2, Component::Server(Server::new("Server".to_string(), 100, 1, 5)));
    sim.add_component(1, Component::Client(Client::new("Client".to_string(), 50_000)));
    sim.connect_node(1, 2, Link::default());

    sim.start();
    run_for_ms(&mut sim, 5000);
    assert!(sla(&sim) < 90.0);

    // Drop the offered load; the running generation keeps ticking and
    // picks the new rate up on its next tick.
    let _ = sim.apply_client_config(
        1,
        ClientConfig { arrival_rate_milli: 2_000, timeout: 5_000, generation_id: 1 },
    );
    sim.reset_stats();
    for k in 0..sim.components.len() {
        if sim.components[k].0 == 2 {
            sim.components[k].1.reset_internal_stats();
        }
    }

    run_for_ms(&mut sim, 20000);
    assert!(sla(&sim) > 95.0);
}
