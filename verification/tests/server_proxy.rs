use slay_core::{Client, Component, Link, Server, Simulation};

fn run_for_ms(sim: &mut Simulation, ms: u64) {
    let end = sim.time + ms * 1000;
    sim.advance_until(end);
}

fn sla(sim: &Simulation) -> f64 {
    let total = sim.success_count + sim.failure_count;
    if total == 0 {
        return 100.0;
    }
    (sim.success_count as f64 / total as f64) * 100.0
}

#[test]
fn test_server_proxy_chain() {
    let mut sim = Simulation::new(51);
    sim.add_component(1, Component::Client(Client::new("Client".to_string(), 10_000)));
    sim.add_component(2, Component::Server(Server::new("Proxy A".to_string(), 10, 100, 100)));
    sim.add_component(3, Component::Server(Server::new("Backend B".to_string(), 10, 100, 100)));

    sim.connect_node(1, 2, Link::default());
    sim.connect_node(2, 3, Link::default());

    sim.start();
    run_for_ms(&mut sim, 100);

    assert!(sla(&sim) > 0.0, "SLA should be positive");
    assert!(
        sim.success_count > 0,
        "Simulation should have processed at least one request successfully"
    );
}
