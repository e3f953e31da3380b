use hive_core::registry::{
    hash, is_flag_on, EntityTag, HiveRegistry, HiveRegistryConfig, RegistryEnvironment, RegistryError,
};
use hive_core::registry_logger::{LogLevel, Logger};

fn env(
    endpoint: Option<&str>,
    key: Option<&str>,
    poll_interval: Option<&str>,
    accept_invalid_certs: Option<&str>,
    schema_file_path: Option<&str>,
) -> RegistryEnvironment {
    RegistryEnvironment {
        endpoint: endpoint.map(|s| s.to_string()),
        key: key.map(|s| s.to_string()),
        poll_interval: poll_interval.map(|s| s.to_string()),
        accept_invalid_certs: accept_invalid_certs.map(|s| s.to_string()),
        schema_file_path: schema_file_path.map(|s| s.to_string()),
    }
}

fn logger() -> Logger {
    Logger { max_level: LogLevel::Info }
}

fn registry() -> HiveRegistry {
    HiveRegistry::new(None, env(Some("https://cdn"), Some("key"), None, None, None), logger())
        .unwrap()
        .unwrap()
}

#[test]
fn nothing_runs_without_endpoint_and_key() {
    assert!(matches!(HiveRegistry::new(None, env(None, None, None, None, None), logger()), Ok(None)));
    assert!(matches!(HiveRegistry::new(None, env(Some(""), Some(""), None, None, None), logger()), Ok(None)));
}

#[test]
fn exactly_one_of_endpoint_and_key_is_a_failure() {
    assert_eq!(
        HiveRegistry::new(None, env(None, Some("key"), None, None, None), logger()).err(),
        Some(RegistryError::EndpointMissing)
    );
    assert_eq!(
        HiveRegistry::new(None, env(Some("https://cdn"), None, None, None, None), logger()).err(),
        Some(RegistryError::KeyMissing)
    );
}

#[test]
fn a_poll_interval_that_is_no_number_is_a_failure() {
    for bad in ["soon", "", "1.5", "-3", " 7", "18446744073709551616"] {
        assert_eq!(
            HiveRegistry::new(None, env(Some("https://cdn"), Some("key"), Some(bad), None, None), logger()).err(),
            Some(RegistryError::PollIntervalInvalid)
        );
    }
}

#[test]
fn defaults_are_in_place() {
    let registry = registry();
    assert_eq!(registry.endpoint, "https://cdn");
    assert_eq!(registry.key, "key");
    assert_eq!(registry.poll_interval, 10);
    assert_eq!(registry.file_name, "supergraph-schema.graphql");
    assert_eq!(registry.etag, None);
    assert!(!registry.accept_invalid_certs);
    assert_eq!(registry.supergraph_url(), "https://cdn/supergraph");
}

#[test]
fn the_environment_is_read_where_nothing_is_configured() {
    let registry = HiveRegistry::new(
        None,
        env(Some("https://cdn"), Some("key"), Some("30"), Some("TRUE"), Some("schema.graphql")),
        logger(),
    )
    .unwrap()
    .unwrap();
    assert_eq!(registry.poll_interval, 30);
    assert!(registry.accept_invalid_certs);
    assert_eq!(registry.file_name, "schema.graphql");
}

#[test]
fn the_explicit_configuration_comes_first() {
    let config = HiveRegistryConfig {
        endpoint: Some("https://explicit".to_string()),
        key: None,
        poll_interval: Some(5),
        accept_invalid_certs: Some(false),
        schema_file_path: None,
    };
    let registry = HiveRegistry::new(
        Some(config),
        env(Some("https://cdn"), Some("key"), Some("not a number"), Some("on"), Some("schema.graphql")),
        logger(),
    )
    .unwrap()
    .unwrap();
    assert_eq!(registry.endpoint, "https://explicit");
    assert_eq!(registry.key, "key");
    assert_eq!(registry.poll_interval, 5);
    assert!(!registry.accept_invalid_certs);
    assert_eq!(registry.file_name, "schema.graphql");
}

#[test]
fn flags_of_the_environment() {
    for on in ["1", "true", "TRUE", "True", "on", "ON", "oN"] {
        assert!(is_flag_on(on));
    }
    for off in ["0", "", "yes", "false", "off", "11", "tru"] {
        assert!(!is_flag_on(off));
    }
}

#[test]
fn a_response_replaces_the_entity_tag() {
    let mut registry = registry();
    let fetched = registry.fetch_supergraph(EntityTag::Text("v1".to_string()), 200, Ok("schema".to_string()));
    assert_eq!(fetched, Ok(Some("schema".to_string())));
    assert_eq!(registry.etag, Some("v1".to_string()));
    let fetched = registry.fetch_supergraph(EntityTag::Text("v1".to_string()), 304, Ok(String::new()));
    assert_eq!(fetched, Ok(None));
    assert_eq!(registry.etag, Some("v1".to_string()));
    let fetched = registry.fetch_supergraph(EntityTag::Absent, 200, Ok("next".to_string()));
    assert_eq!(fetched, Ok(Some("next".to_string())));
    assert_eq!(registry.etag, None);
}

#[test]
fn an_unreadable_response_is_a_failure() {
    let mut registry = registry();
    registry.update_latest_etag(Some("v1".to_string()));
    let fetched = registry.fetch_supergraph(EntityTag::Unreadable("not text".to_string()), 200, Ok("s".to_string()));
    assert_eq!(fetched, Err("not text".to_string()));
    assert_eq!(registry.etag, Some("v1".to_string()));
    let fetched = registry.fetch_supergraph(EntityTag::Text("v2".to_string()), 200, Err("cut off".to_string()));
    assert_eq!(fetched, Err("cut off".to_string()));
    assert_eq!(registry.etag, Some("v2".to_string()));
}

#[test]
fn the_first_fetch_must_bring_a_schema() {
    assert_eq!(HiveRegistry::initial_supergraph(Some("schema".to_string())), Ok("schema".to_string()));
    assert_eq!(HiveRegistry::initial_supergraph(None), Err("Failed to fetch supergraph".to_string()));
}

#[test]
fn the_file_is_replaced_when_the_digest_differs() {
    assert!(!HiveRegistry::poll(b"type Query { a: Int }", b"type Query { a: Int }"));
    assert!(HiveRegistry::poll(b"type Query { a: Int }", b"type Query { b: Int }"));
    assert!(HiveRegistry::poll(b"", b"x"));
    assert!(!HiveRegistry::poll(b"", b""));
}

#[test]
fn the_digest_is_sha256_in_uppercase_hexadecimal() {
    assert_eq!(hash(b"abc"), "BA7816BF8F01CFEA414140DE5DAE2223B00361A396177A9CB410FF61F20015AD");
    assert_eq!(hash(b""), "E3B0C44298FC1C149AFBF4C8996FB92427AE41E4649B934CA495991B7852B855");
}
