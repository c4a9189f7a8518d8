use slay_core::{
    BalancingStrategy, Client, Component, ComponentSnapshot, Link, LoadBalancer, Server,
    Simulation,
};

fn run_for_ms(sim: &mut Simulation, ms: u64) {
    let end = sim.time + ms * 1000;
    sim.advance_until(end);
}

fn server_rps(sim: &Simulation, id: u32) -> u64 {
    match sim.get_component(id).unwrap().get_visual_snapshot() {
        ComponentSnapshot::Server(v) => v.rps,
        _ => panic!("expected a server"),
    }
}

#[test]
fn test_load_balancer_round_robin() {
    let mut sim = Simulation::new(7);
    sim.add_component(1, Component::Client(Client::new("Client".to_string(), 100_000)));
    let mut lb = LoadBalancer::new("LB".to_string());
    lb.config.strategy = BalancingStrategy::RoundRobin;
    sim.add_component(2, Component::LoadBalancer(lb));
    sim.add_component(3, Component::Server(Server::new("S1".to_string(), 10, 100, 100)));
    sim.add_component(4, Component::Server(Server::new("S2".to_string(), 10, 100, 100)));
    sim.connect_node(1, 2, Link::default());
    sim.connect_node(2, 3, Link::default());
    sim.connect_node(2, 4, Link::default());
    sim.start();
    run_for_ms(&mut sim, 1000);
    assert!(sim.success_count > 90);
    let s1_rps = server_rps(&sim, 3) as i64;
    let s2_rps = server_rps(&sim, 4) as i64;
    let diff = (s1_rps - s2_rps).abs();
    assert!(diff <= 5);
}

#[test]
fn test_load_balancer_least_connections() {
    let mut sim = Simulation::new(7);
    sim.add_component(1, Component::Client(Client::new("Client".to_string(), 200_000)));
    let mut lb = LoadBalancer::new("LB".to_string());
    lb.config.strategy = BalancingStrategy::LeastConnections;
    sim.add_component(2, Component::LoadBalancer(lb));
    sim.add_component(3, Component::Server(Server::new("Slow".to_string(), 500, 100, 100)));
    sim.add_component(4, Component::Server(Server::new("Fast".to_string(), 1, 100, 100)));
    sim.connect_node(1, 2, Link::default());
    sim.connect_node(2, 3, Link::default());
    sim.connect_node(2, 4, Link::default());
    sim.start();
    run_for_ms(&mut sim, 1000);

    let s3_rps = server_rps(&sim, 3);
    let s4_rps = server_rps(&sim, 4);
    assert!(
        s4_rps > s3_rps * 5,
        "Least Connections must favor the Fast server when Slow is bogged down"
    );
}

#[test]
fn test_load_balancer_maintenance_downtime() {
    let mut sim = Simulation::new(7);
    sim.add_component(1, Component::Client(Client::new("Client".to_string(), 100_000)));
    sim.add_component(2, Component::LoadBalancer(LoadBalancer::new("LB".to_string())));
    sim.add_component(3, Component::Server(Server::new("S1".to_string(), 10, 100, 100)));
    sim.connect_node(1, 2, Link::default());
    sim.connect_node(2, 3, Link::default());
    sim.start();
    run_for_ms(&mut sim, 500);
    let initial_success = sim.success_count;
    {
        let mut cfg = slay_core::LoadBalancerConfig::default();
        cfg.strategy = BalancingStrategy::Random;
        let cmds = sim.apply_lb_config(2, cfg);
        for cmd in cmds {
            sim.schedule(sim.time + cmd.delay, cmd.node_id, cmd.event_type);
        }
    }
    run_for_ms(&mut sim, 200);
    let during_maint = sim.success_count - initial_success;
    assert!(during_maint < 15);
    run_for_ms(&mut sim, 1000);
    assert!(sim.success_count > initial_success + 50);
}
