use slay_core::{Client, Component, Link, LoadBalancer, Server, Simulation};

fn run_for_ms(sim: &mut Simulation, ms: u64) {
    let end = sim.time + ms * 1000;
    sim.advance_until(end);
}

#[test]
fn test_chained_response_path() {
    let mut sim = Simulation::new(31);
    sim.add_component(1, Component::Client(Client::new("Client".to_string(), 10_000)));
    sim.add_component(2, Component::Server(Server::new("S1".to_string(), 100, 1, 10)));
    sim.connect_node(1, 2, Link::default());

    sim.start();
    run_for_ms(&mut sim, 1000);

    assert!(sim.success_count > 0);
    assert!(sim.get_percentile(50, 5_000_000).unwrap_or(0) > 80_000);
}

#[test]
fn test_strict_timeout() {
    let mut sim = Simulation::new(31);
    let mut client = Client::new("Client".to_string(), 50_000);
    client.config.timeout = 50;
    sim.add_component(1, Component::Client(client));
    sim.add_component(2, Component::Server(Server::new("Slow".to_string(), 200, 1, 10)));
    sim.connect_node(1, 2, Link::default());

    sim.start();
    run_for_ms(&mut sim, 1000);

    assert!(sim.failure_count > 0);
}

#[test]
fn test_rps_accounting_precision() {
    let mut sim = Simulation::new(31);
    sim.add_component(1, Component::Client(Client::new("Client".to_string(), 100_000)));
    sim.add_component(2, Component::LoadBalancer(LoadBalancer::new("LB".to_string())));
    sim.add_component(3, Component::Server(Server::new("S1".to_string(), 10, 100, 100)));

    sim.connect_node(1, 2, Link::default());
    sim.connect_node(2, 3, Link::default());

    sim.start();
    run_for_ms(&mut sim, 1000);

    let total = sim.success_count + sim.failure_count;
    assert!(
        total > 90 && total < 110,
        "RPS accounting must be precise, got {}",
        total
    );
}
