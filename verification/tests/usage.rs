use hive_core::context::{GraphQLHiveContext, HiveInternalContext};
use hive_core::usage::{is_excluded, is_sampled, Config, UsageConfig, UsageReporter, ONE_BITS};

fn draws() -> Vec<u64> {
    vec![0.0f64, 1e-300, 0.25, 0.5, 0.75, 0.999_999_999].into_iter().map(f64::to_bits).collect()
}

fn contexts(name: Option<&str>) -> (GraphQLHiveContext, HiveInternalContext) {
    (
        GraphQLHiveContext::new(Some("web".to_string()), Some(String::new()), 1234),
        HiveInternalContext { operation_name: name.map(|s| s.to_string()), operation_body: "{ a }".to_string() },
    )
}

#[test]
fn the_bit_pattern_of_one() {
    assert_eq!(ONE_BITS, 1.0f64.to_bits());
}

#[test]
fn a_sample_rate_of_zero_drops_all() {
    for draw in draws() {
        assert!(!is_sampled(draw, 0.0f64.to_bits()));
    }
}

#[test]
fn a_sample_rate_of_one_keeps_all() {
    for draw in draws() {
        assert!(is_sampled(draw, 1.0f64.to_bits()));
    }
}

#[test]
fn sampling_agrees_with_the_order_of_numbers() {
    let rates = [0.0f64, 0.1, 0.25, 0.5, 0.9, 1.0, 2.0, f64::INFINITY, -0.0, -1.0, f64::NAN];
    for rate in rates {
        for draw in draws() {
            assert_eq!(is_sampled(draw, rate.to_bits()), f64::from_bits(draw) < rate);
        }
    }
}

#[test]
fn operations_are_excluded_by_name() {
    let exclude = vec!["Health".to_string(), "Ping".to_string()];
    assert!(is_excluded(&exclude, &Some("Ping".to_string())));
    assert!(!is_excluded(&exclude, &Some("ping".to_string())));
    assert!(!is_excluded(&exclude, &None));
    assert!(!is_excluded(&Vec::new(), &Some("Ping".to_string())));
}

#[test]
fn a_thousand_executions_at_rate_zero_report_nothing() {
    let mut config = UsageConfig::new("token".to_string(), None);
    config.sample_rate = 0.0f64.to_bits();
    let reporter = UsageReporter::new(config);
    for i in 0..1000u64 {
        let draw = (i as f64 / 1000.0).to_bits();
        let (public, internal) = contexts(Some("Q"));
        assert!(reporter.process(public, internal, 10, 0, draw).is_none());
    }
}

#[test]
fn a_kept_execution_becomes_a_record() {
    let reporter = UsageReporter::new(UsageConfig::new("token".to_string(), None));
    let (public, internal) = contexts(Some("Q"));
    let report = reporter.process(public, internal, 99, 2, 0.5f64.to_bits()).unwrap();
    assert_eq!(report.client_name, Some("web".to_string()));
    assert_eq!(report.client_version, None);
    assert_eq!(report.timestamp, 1234);
    assert_eq!(report.duration, 99);
    assert!(!report.ok);
    assert_eq!(report.errors, 2);
    assert_eq!(report.operation_body, "{ a }");
    assert_eq!(report.operation_name, Some("Q".to_string()));
    let (public, internal) = contexts(None);
    assert!(reporter.process(public, internal, 1, 0, 0).unwrap().ok);
}

#[test]
fn disabled_or_excluded_executions_are_dropped() {
    let mut config = UsageConfig::new("token".to_string(), None);
    config.exclude = vec!["Q".to_string()];
    let reporter = UsageReporter::new(config);
    let (public, internal) = contexts(Some("Q"));
    assert!(reporter.process(public, internal, 1, 0, 0).is_none());
    let (public, internal) = contexts(Some("R"));
    assert!(reporter.process(public, internal, 1, 0, 0).is_some());
    let mut config = UsageConfig::new("token".to_string(), None);
    config.enabled = false;
    let reporter = UsageReporter::new(config);
    let (public, internal) = contexts(Some("R"));
    assert!(reporter.process(public, internal, 1, 0, 0).is_none());
    assert!(reporter.is_dropped(0, &None));
}

#[test]
fn defaults_of_the_configuration() {
    let config = UsageConfig::new("token".to_string(), None);
    assert!(config.enabled);
    assert_eq!(config.token, "token");
    assert_eq!(config.endpoint, "https://app.graphql-hive.com/usage");
    assert_eq!(f64::from_bits(config.sample_rate), 1.0);
    assert!(config.exclude.is_empty());
    assert_eq!(config.buffer_size, 1000);
    assert_eq!(config.connect_timeout, 5);
    assert_eq!(config.request_timeout, 15);
    assert!(!config.accept_invalid_certs);
    assert_eq!(UsageConfig::new("t".to_string(), Some("http://e".to_string())).endpoint, "http://e");
}

#[test]
fn defaults_of_the_host_configuration() {
    let config = Config {
        enabled: None,
        sample_rate: None,
        exclude: None,
        client_name_header: None,
        client_version_header: None,
        buffer_size: None,
        connect_timeout: None,
        request_timeout: None,
        accept_invalid_certs: None,
    };
    assert!(config.enabled());
    assert_eq!(config.buffer_size(), 1000);
    assert_eq!(config.connect_timeout(), 5);
    assert_eq!(config.request_timeout(), 15);
    assert!(!config.accept_invalid_certs());
    let operation = config.operation_config();
    assert_eq!(f64::from_bits(operation.sample_rate), 1.0);
    assert!(operation.exclude.is_empty());
    assert_eq!(operation.client_name_header, "graphql-client-name");
    assert_eq!(operation.client_version_header, "graphql-client-version");
}

#[test]
fn the_host_configuration_overrides_the_defaults() {
    let config = Config {
        enabled: Some(false),
        sample_rate: Some(0.5f64.to_bits()),
        exclude: Some(vec!["Q".to_string()]),
        client_name_header: Some("x-name".to_string()),
        client_version_header: Some("x-version".to_string()),
        buffer_size: Some(7),
        connect_timeout: Some(1),
        request_timeout: Some(2),
        accept_invalid_certs: Some(true),
    };
    assert!(!config.enabled());
    assert_eq!(config.buffer_size(), 7);
    assert_eq!(config.connect_timeout(), 1);
    assert_eq!(config.request_timeout(), 2);
    assert!(config.accept_invalid_certs());
    let operation = config.operation_config();
    assert_eq!(f64::from_bits(operation.sample_rate), 0.5);
    assert_eq!(operation.exclude, vec!["Q".to_string()]);
    assert_eq!(operation.client_name_header, "x-name");
    assert_eq!(operation.client_version_header, "x-version");
}

#[test]
fn empty_client_headers_are_absent() {
    let context = GraphQLHiveContext::new(Some(String::new()), None, 5);
    assert_eq!(context.client_name, None);
    assert_eq!(context.client_version, None);
    assert_eq!(context.timestamp, 5);
    let context = GraphQLHiveContext::new(Some("a".to_string()), Some("1".to_string()), 5);
    assert_eq!(context.client_name, Some("a".to_string()));
    assert_eq!(context.client_version, Some("1".to_string()));
}

#[test]
fn every_field_is_optional() {
    let config = UsageConfig::new("token".to_string(), None);
    assert_eq!(config.token, "token");
    let reporter = UsageReporter::new(config);
    assert!(!reporter.is_dropped(0, &None));
}
