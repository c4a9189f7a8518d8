use rand::SeedableRng;
use slay_core::{Server, ServerConfig};

#[test]
fn test_saturation_penalty_calculation() {
    let mut rng = rand::rngs::StdRng::seed_from_u64(42);
    let config = ServerConfig {
        service_time: 10,
        concurrency: 10,
        backlog_limit: 10,
        failure_ppm: 0,
        saturation_penalty_milli: 1_000,
    };

    // Zero load: no penalty, about 10 ms.
    let delay_0 = Server::calculate_processing_delay(&mut rng, &config, 0);
    assert!(delay_0 >= 9_500 && delay_0 <= 10_500);

    // Half load: penalty 1.25, about 12.5 ms.
    let delay_50 = Server::calculate_processing_delay(&mut rng, &config, 5);
    assert!(delay_50 >= 11_800 && delay_50 <= 13_200);

    // Full load: penalty 2.0, about 20 ms.
    let delay_100 = Server::calculate_processing_delay(&mut rng, &config, 10);
    assert!(delay_100 >= 19_000 && delay_100 <= 21_000);
}
