use load_balancer_rs::backend::{Backend, BackendStatus, LoadBalancingStrategy};
use load_balancer_rs::cli::{Cli, ConfigError};
use load_balancer_rs::config::{local_backends, BackendConfig, Config};
use load_balancer_rs::backend::healthcheck::{HealthCheck, PROBE_TIMEOUT_SECS};
use load_balancer_rs::lb::{decimal_text, parse_strategy, LoadBalancer};
use load_balancer_rs::backend::pool::BackendPool;
use load_balancer_rs::text::{
    contains, find, header_lists, join, name_of_member, same_ignoring_case, skip_chars,
    starts_with, str_equal, trim_blanks, trim_end_slashes, trim_start_slashes,
};

fn cli() -> Cli {
    Cli {
        config: "config/config.yaml".to_string(),
        host: None,
        port: None,
        strategy: None,
        health_check_interval: None,
    }
}

fn file_config() -> Config {
    Config {
        host: "0.0.0.0".to_string(),
        port: 8080,
        lb_strategy: "random".to_string(),
        health_check_interval: 30,
        backends: vec![BackendConfig {
            name: "only".to_string(),
            url: "http://10.0.0.1:9000".to_string(),
            weight: None,
        }],
    }
}

#[test]
fn default_config_is_local_round_robin() {
    let config = Config::default();
    assert_eq!(config.host, "127.0.0.1");
    assert_eq!(config.port, 3000);
    assert_eq!(config.lb_strategy, "round_robin");
    assert_eq!(config.health_check_interval, 10);
    assert_eq!(config.backends.len(), 2);
    assert_eq!(config.backends[0].name, "backend-1");
    assert_eq!(config.backends[0].url, "http://127.0.0.1:8081");
    assert_eq!(config.backends[0].weight, Some(1));
    assert_eq!(config.backends[1].name, "backend-2");
    assert_eq!(config.backends[1].url, "http://127.0.0.1:8082");
    assert_eq!(config.backends[1].weight, Some(1));
    assert_eq!(local_backends().len(), 2);
}

#[test]
fn command_line_without_options_leaves_the_file_in_force() {
    let config = cli().parse(Some(file_config())).unwrap();
    assert_eq!(config.host, "0.0.0.0");
    assert_eq!(config.port, 8080);
    assert_eq!(config.lb_strategy, "random");
    assert_eq!(config.health_check_interval, 30);
    assert_eq!(config.backends.len(), 1);
    assert_eq!(config.backends[0].name, "only");
}

#[test]
fn command_line_options_override_the_file() {
    let mut given = cli();
    given.host = Some("192.168.1.1".to_string());
    given.port = Some(9999);
    given.strategy = Some("least_connections".to_string());
    given.health_check_interval = Some(5);
    let config = given.parse(Some(file_config())).unwrap();
    assert_eq!(config.host, "192.168.1.1");
    assert_eq!(config.port, 9999);
    assert_eq!(config.lb_strategy, "least_connections");
    assert_eq!(config.health_check_interval, 5);
    assert_eq!(config.backends[0].url, "http://10.0.0.1:9000");
    let mut partly = cli();
    partly.port = Some(81);
    let config = partly.parse(Some(file_config())).unwrap();
    assert_eq!(config.host, "0.0.0.0");
    assert_eq!(config.port, 81);
    assert_eq!(config.lb_strategy, "random");
    assert_eq!(config.health_check_interval, 30);
}

#[test]
fn a_supplied_option_overrides_even_at_its_usual_value() {
    let mut file = file_config();
    file.port = 9000;
    file.health_check_interval = 5;
    let mut given = cli();
    given.port = Some(3000);
    given.host = Some("127.0.0.1".to_string());
    let config = given.parse(Some(file)).unwrap();
    assert_eq!(config.port, 3000);
    assert_eq!(config.host, "127.0.0.1");
    assert_eq!(config.lb_strategy, "random");
    assert_eq!(config.health_check_interval, 5);
    let mut given = cli();
    given.strategy = Some("round_robin".to_string());
    given.health_check_interval = Some(10);
    let config = given.parse(Some(file_config())).unwrap();
    assert_eq!(config.lb_strategy, "round_robin");
    assert_eq!(config.health_check_interval, 10);
    assert_eq!(config.port, 8080);
}

#[test]
fn a_configuration_that_was_not_loaded_is_an_error() {
    assert_eq!(cli().parse(None).unwrap_err(), ConfigError::NotLoaded);
    let mut given = cli();
    given.host = Some("10.0.0.1".to_string());
    given.port = Some(4000);
    given.strategy = Some("random".to_string());
    given.health_check_interval = Some(1);
    assert_eq!(given.parse(None).unwrap_err(), ConfigError::NotLoaded);
}

#[test]
fn weights_must_be_positive() {
    let mut config = file_config();
    assert!(config.has_positive_weights());
    config.backends[0].weight = Some(1);
    assert!(config.has_positive_weights());
    config.backends.push(BackendConfig {
        name: "idle".to_string(),
        url: "http://10.0.0.3:9000".to_string(),
        weight: Some(0),
    });
    assert!(!config.has_positive_weights());
    config.backends.clear();
    assert!(config.has_positive_weights());
    assert!(Config::default().has_positive_weights());
}

#[test]
fn strategy_names() {
    assert_eq!(parse_strategy("round_robin"), LoadBalancingStrategy::RoundRobin);
    assert_eq!(parse_strategy("random"), LoadBalancingStrategy::Random);
    assert_eq!(parse_strategy("least_connections"), LoadBalancingStrategy::LeastConnections);
    assert_eq!(parse_strategy("weighted_round_robin"), LoadBalancingStrategy::WeightedRoundRobin);
    assert_eq!(parse_strategy("Random"), LoadBalancingStrategy::RoundRobin);
    assert_eq!(parse_strategy(""), LoadBalancingStrategy::RoundRobin);
}

#[test]
fn decimal_text_of_ports() {
    assert_eq!(decimal_text(0), "0");
    assert_eq!(decimal_text(7), "7");
    assert_eq!(decimal_text(10), "10");
    assert_eq!(decimal_text(3000), "3000");
    assert_eq!(decimal_text(8081), "8081");
    assert_eq!(decimal_text(65535), "65535");
    assert_eq!(decimal_text(12345), "12345");
    assert_eq!(decimal_text(60789), "60789");
}

#[test]
fn load_balancer_is_built_from_its_configuration() {
    let mut config = file_config();
    config.backends.push(BackendConfig {
        name: "heavy".to_string(),
        url: "http://10.0.0.2:9000".to_string(),
        weight: Some(5),
    });
    let balancer = LoadBalancer::new(config);
    assert_eq!(balancer.load_balancer_url, "http://0.0.0.0:8080");
    assert_eq!(balancer.config.port, 8080);
    let pool = balancer.get_backend_pool();
    assert_eq!(pool.strategy, LoadBalancingStrategy::Random);
    assert_eq!(pool.entries.len(), 2);
    assert_eq!(pool.entries[0].backend.name, "only");
    assert_eq!(pool.entries[0].backend.url, "http://10.0.0.1:9000");
    assert_eq!(pool.entries[0].backend.weight, 1);
    assert_eq!(pool.entries[1].backend.weight, 5);
    assert_eq!(pool.entries[1].status, BackendStatus::Unknown);
    assert_eq!(pool.entries[1].inflight, 0);
    let fallback = LoadBalancer::new(Config::default());
    assert_eq!(fallback.load_balancer_url, "http://127.0.0.1:3000");
    assert_eq!(fallback.backend_pool.strategy, LoadBalancingStrategy::RoundRobin);
}

#[test]
fn probe_outcomes_become_statuses() {
    assert_eq!(HealthCheck::check_single_backend(Some(200)), BackendStatus::Healthy);
    assert_eq!(HealthCheck::check_single_backend(Some(204)), BackendStatus::Healthy);
    assert_eq!(HealthCheck::check_single_backend(Some(299)), BackendStatus::Healthy);
    assert_eq!(HealthCheck::check_single_backend(Some(199)), BackendStatus::Unhealthy);
    assert_eq!(HealthCheck::check_single_backend(Some(301)), BackendStatus::Unhealthy);
    assert_eq!(HealthCheck::check_single_backend(Some(404)), BackendStatus::Unhealthy);
    assert_eq!(HealthCheck::check_single_backend(Some(503)), BackendStatus::Unhealthy);
    assert_eq!(HealthCheck::check_single_backend(None), BackendStatus::Unhealthy);
    assert_eq!(PROBE_TIMEOUT_SECS, 3);
}

#[test]
fn probe_url_goes_through_the_liveness_endpoint() {
    let prober = HealthCheck::new(10, "http://127.0.0.1:3000".to_string());
    assert_eq!(prober.interval_secs, 10);
    let backend = Backend::new("http://127.0.0.1:8081".to_string(), "backend-1".to_string(), 1);
    assert_eq!(prober.probe_url(&backend), "http://127.0.0.1:3000/health/backend-1");
}

#[test]
fn a_round_of_probes_is_published() {
    let backends = (0..4)
        .map(|i| Backend::new(format!("http://h:{}", i), format!("b{}", i), 1))
        .collect();
    let mut pool = BackendPool::new(backends, LoadBalancingStrategy::LeastConnections);
    assert!(pool.update_backend_status(2, BackendStatus::Healthy));
    assert_eq!(pool.select_and_increment(), Some(2));
    HealthCheck::check_all_backends(&mut pool, &vec![Some(Some(200)), Some(None), None]);
    assert_eq!(pool.entries[0].status, BackendStatus::Healthy);
    assert_eq!(pool.entries[1].status, BackendStatus::Unhealthy);
    assert_eq!(pool.entries[2].status, BackendStatus::Healthy);
    assert_eq!(pool.entries[3].status, BackendStatus::Unknown);
    assert_eq!(pool.entries[2].inflight, 1);
    HealthCheck::check_all_backends(
        &mut pool,
        &vec![Some(Some(500)), Some(Some(200)), Some(Some(404)), Some(Some(201)), Some(Some(200))],
    );
    assert_eq!(pool.entries[0].status, BackendStatus::Unhealthy);
    assert_eq!(pool.entries[1].status, BackendStatus::Healthy);
    assert_eq!(pool.entries[2].status, BackendStatus::Unhealthy);
    assert_eq!(pool.entries[3].status, BackendStatus::Healthy);
    assert_eq!(pool.entries[2].inflight, 1);
    assert_eq!(pool.entries.len(), 4);
}

#[test]
fn text_tests_and_trims() {
    assert!(starts_with("image/png", "image/"));
    assert!(!starts_with("ximage/png", "image/"));
    assert!(!starts_with("ima", "image/"));
    assert!(starts_with("abc", ""));
    assert!(contains("application/zip", "zip"));
    assert!(contains("zip", "zip"));
    assert!(!contains("zi", "zip"));
    assert!(!contains("z-i-p", "zip"));
    assert!(contains("", ""));
    assert!(contains("a\u{e9}zipb", "zip"));
    assert!(str_equal("abc", "abc"));
    assert!(!str_equal("abc", "abd"));
    assert!(!str_equal("abc", "ab"));
    assert_eq!(trim_start_slashes("///a/b/"), "a/b/");
    assert_eq!(trim_start_slashes("a"), "a");
    assert_eq!(trim_start_slashes("//"), "");
    assert_eq!(trim_start_slashes(""), "");
    assert_eq!(trim_end_slashes("/a/b///"), "/a/b");
    assert_eq!(trim_end_slashes("//"), "");
    assert_eq!(trim_end_slashes("\u{e9}/"), "\u{e9}");
    assert_eq!(skip_chars("/health/x", 8), "x");
    assert_eq!(skip_chars("abc", 3), "");
    assert_eq!(skip_chars("abc", 9), "");
    assert_eq!(join("ab", "cd"), "abcd");
    assert!(same_ignoring_case("Content-Type", "content-type"));
    assert!(same_ignoring_case("X-REAL-IP", "x-real-ip"));
    assert!(same_ignoring_case("", ""));
    assert!(!same_ignoring_case("content-type", "content-typ"));
    assert!(!same_ignoring_case("a@", "a`"));
    assert!(!same_ignoring_case("a[", "a{"));
    assert!(!same_ignoring_case("\u{c9}", "\u{e9}"));
    assert_eq!(trim_blanks("  gzip\t "), "gzip");
    assert_eq!(trim_blanks("a b"), "a b");
    assert_eq!(trim_blanks(" \t "), "");
    assert_eq!(trim_blanks(""), "");
    assert_eq!(trim_blanks("\ngzip"), "\ngzip");
    assert_eq!(name_of_member(" gzip ; q=0.5"), "gzip");
    assert_eq!(name_of_member(";q=1"), "");
    assert_eq!(name_of_member("br"), "br");
    assert!(header_lists("gzip", "gzip"));
    assert!(header_lists("br, gzip;q=0.8, deflate", "gzip"));
    assert!(header_lists("br,gzip", "gzip"));
    assert!(header_lists("gzip,", "gzip"));
    assert!(!header_lists("xgzipx", "gzip"));
    assert!(!header_lists("x-gzip", "gzip"));
    assert!(!header_lists("br;gzip", "gzip"));
    assert!(!header_lists("g zip", "gzip"));
    assert!(!header_lists("", "gzip"));
    assert!(header_lists("", ""));
    assert!(header_lists("a,,b", ""));
    assert_eq!(find("http://h", "://"), 4);
    assert_eq!(find("abc", "c"), 2);
    assert_eq!(find("abc", "d"), 3);
    assert_eq!(find("ab", "abc"), 2);
    assert_eq!(find("abc", ""), 0);
}
