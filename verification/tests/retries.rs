use slay_core::{
    Client, Component, ComponentSnapshot, Link, LoadBalancer, Server, Simulation,
};

fn run_for_ms(sim: &mut Simulation, ms: u64) {
    let end = sim.time + ms * 1000;
    sim.advance_until(end);
}

fn lb_total_retries(sim: &Simulation, id: u32) -> u64 {
    match sim.get_component(id).unwrap().get_visual_snapshot() {
        ComponentSnapshot::LoadBalancer(v) => v.total_retries,
        _ => panic!("expected a load balancer"),
    }
}

fn sla(sim: &Simulation) -> f64 {
    let total = sim.success_count + sim.failure_count;
    if total == 0 {
        return 100.0;
    }
    (sim.success_count as f64 / total as f64) * 100.0
}

#[test]
fn test_retry_on_failure() {
    let mut sim = Simulation::new(11);
    sim.add_component(1, Component::Client(Client::new("Client".to_string(), 10_000)));

    let mut lb = LoadBalancer::new("LB".to_string());
    lb.config.max_retries = 1;
    lb.config.retry_backoff_ms = 10;
    sim.add_component(2, Component::LoadBalancer(lb));

    let mut bad = Server::new("BadServer".to_string(), 100, 100, 100);
    bad.config.failure_ppm = 1_000_000;
    sim.add_component(3, Component::Server(bad));

    sim.add_component(4, Component::Server(Server::new("GoodServer".to_string(), 10, 100, 100)));

    sim.connect_node(1, 2, Link::default());
    sim.connect_node(2, 3, Link::default());
    sim.connect_node(2, 4, Link::default());

    sim.start();
    run_for_ms(&mut sim, 1000);

    let success_rate = sla(&sim);
    println!("SLA: {}%", success_rate);

    assert!(sim.success_count > 0);
    assert!(
        success_rate > 90.0,
        "SLA should be high because retries rescue failures from BadServer"
    );

    let total_retries = lb_total_retries(&sim, 2);
    println!("Total Retries: {}", total_retries);
    assert!(total_retries > 0, "LB should have performed retries");
}

#[test]
fn test_retry_exhaustion() {
    let mut sim = Simulation::new(11);
    sim.add_component(1, Component::Client(Client::new("Client".to_string(), 10_000)));

    let mut lb = LoadBalancer::new("LB".to_string());
    lb.config.max_retries = 1;
    sim.add_component(2, Component::LoadBalancer(lb));

    let mut bad1 = Server::new("Bad1".to_string(), 100, 100, 100);
    bad1.config.failure_ppm = 1_000_000;
    sim.add_component(3, Component::Server(bad1));

    let mut bad2 = Server::new("Bad2".to_string(), 100, 100, 100);
    bad2.config.failure_ppm = 1_000_000;
    sim.add_component(4, Component::Server(bad2));

    sim.connect_node(1, 2, Link::default());
    sim.connect_node(2, 3, Link::default());
    sim.connect_node(2, 4, Link::default());

    sim.start();
    run_for_ms(&mut sim, 500);

    let success_rate = sla(&sim);
    println!("SLA: {}%", success_rate);

    assert!(success_rate < 5.0, "Should have near 0% success as all servers fail");

    let total_retries = lb_total_retries(&sim, 2);
    assert!(total_retries > 0, "Retries should happen even if they eventually fail");
}

#[test]
fn test_retry_budget_exhaustion() {
    let mut sim = Simulation::new(11);
    sim.add_component(1, Component::Client(Client::new("Client".to_string(), 10_000)));

    let mut lb = LoadBalancer::new("LB".to_string());
    lb.config.max_retries = 1;
    lb.config.retry_budget_ratio_milli = 100;
    sim.add_component(2, Component::LoadBalancer(lb));

    let mut bad = Server::new("Bad".to_string(), 100, 100, 100);
    bad.config.failure_ppm = 1_000_000;
    sim.add_component(3, Component::Server(bad));

    sim.add_component(4, Component::Server(Server::new("Good".to_string(), 10, 100, 100)));

    sim.connect_node(1, 2, Link::default());
    sim.connect_node(2, 3, Link::default());
    sim.connect_node(2, 4, Link::default());

    sim.start();
    run_for_ms(&mut sim, 5000);

    let total_retries = lb_total_retries(&sim, 2);
    println!("Total Retries: {}", total_retries);

    assert!(
        total_retries < 25,
        "Budget should prevent some retries (Expected ~15, Got {})",
        total_retries
    );
    assert!(
        total_retries >= 10,
        "Budget should allow some retries (Expected ~15, Got {})",
        total_retries
    );
}
