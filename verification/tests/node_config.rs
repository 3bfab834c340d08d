use object_store::node_config::{EnvOverrides, StorageNodeConfig};
use object_store::settings::{
    metadata_urls, number_or, parse_bool, parse_list, parse_number, register_address,
};

fn file_config(addresses: &[&str]) -> StorageNodeConfig {
    StorageNodeConfig {
        metadata_addresses: addresses.iter().map(|a| a.to_string()).collect(),
        port: 3000,
        metrics_port: 9092,
        chunk_store_path: "chunkstore.dat".to_string(),
        ..StorageNodeConfig::default()
    }
}

#[test]
fn test_load_valid_config() {
    let file = file_config(&["http://localhost:3001"]);
    let config = StorageNodeConfig::load(file, &EnvOverrides::none()).unwrap();

    assert_eq!(config.metadata_addresses, vec!["http://localhost:3001"]);
    assert_eq!(config.port, 3000);
    assert_eq!(config.metrics_port, 9092);
    assert_eq!(config.chunk_store_path, "chunkstore.dat");
}

#[test]
fn test_default_values() {
    let config = StorageNodeConfig::default();

    assert_eq!(config.metadata_addresses, vec!["http://localhost:3001"]);
    assert_eq!(config.port, 3000);
    assert_eq!(config.metrics_port, 9092);
    assert_eq!(config.chunk_store_path, "chunkstore.dat");
}

#[test]
fn test_validation_empty_addresses() {
    let mut config = StorageNodeConfig::default();
    config.metadata_addresses = vec![];

    let result = config.validate();
    assert!(result.is_err());
    assert!(result.unwrap_err().to_string().contains("cannot be empty"));
}

#[test]
fn test_validation_zero_port() {
    let mut config = StorageNodeConfig::default();
    config.port = 0;

    let result = config.validate();
    assert!(result.is_err());
    assert!(result.unwrap_err().to_string().contains("port cannot be 0"));
}

#[test]
fn test_validation_zero_metrics_port() {
    let mut config = StorageNodeConfig::default();
    config.metrics_port = 0;

    let result = config.validate();
    assert!(result.is_err());
    assert!(result.unwrap_err().to_string().contains("metrics-port cannot be 0"));
}

#[test]
fn blank_addresses_are_refused() {
    let mut config = StorageNodeConfig::default();
    config.metadata_addresses.push(" \t\u{3000}".to_string());
    assert_eq!(
        config.validate().unwrap_err(),
        "metadata-addresses cannot contain empty strings"
    );
}

#[test]
fn test_address_normalization() {
    let file = file_config(&["localhost:3001", "http://metadata:3001"]);
    let config = StorageNodeConfig::load(file, &EnvOverrides::none()).unwrap();

    assert_eq!(
        config.metadata_addresses,
        vec!["http://localhost:3001", "http://metadata:3001"]
    );
}

#[test]
fn test_env_override_metadata_urls() {
    let file = file_config(&["http://localhost:3001"]);
    let mut env = EnvOverrides::none();
    env.metadata_urls = Some("http://server1:3001,http://server2:3001".to_string());
    let config = StorageNodeConfig::load(file, &env).unwrap();

    assert_eq!(
        config.metadata_addresses,
        vec!["http://server1:3001", "http://server2:3001"]
    );
}

#[test]
fn test_env_override_ports() {
    let file = file_config(&["http://localhost:3001"]);
    let mut env = EnvOverrides::none();
    env.grpc_port = Some("4000".to_string());
    env.metrics_port = Some("9999".to_string());
    let config = StorageNodeConfig::load(file, &env).unwrap();

    assert_eq!(config.port, 4000);
    assert_eq!(config.metrics_port, 9999);
}

#[test]
fn the_environment_overrides_what_it_can() {
    let mut env = EnvOverrides::none();
    env.metadata_urls = Some(" a:1 , https://b:2,".to_string());
    env.grpc_port = Some("65536".to_string());
    env.metrics_port = Some("+80".to_string());
    env.allocated_slots = Some("12".to_string());
    env.fsync_every_n_writes = Some("0".to_string());
    env.fsync_on_delete = Some("false".to_string());
    env.fast_recover = Some("True".to_string());
    let mut config = StorageNodeConfig::default();
    config.apply_env_overrides(&env);
    assert_eq!(config.metadata_addresses, vec!["http://a:1", "https://b:2", "http://"]);
    assert_eq!(config.port, 3000);
    assert_eq!(config.metrics_port, 80);
    assert_eq!(config.allocated_slots, Some(12));
    let options = config.chunk_store_options();
    assert_eq!(options.fsync_every_n_writes, Some(0));
    assert!(!options.fsync_on_delete);
    assert!(!options.fast_recover);

    let mut env = EnvOverrides::none();
    env.grpc_port = Some("0".to_string());
    let refused = StorageNodeConfig::load(StorageNodeConfig::default(), &env).unwrap_err();
    assert_eq!(refused, "port cannot be 0");
}

#[test]
fn lists_and_numbers_are_read() {
    assert_eq!(parse_list(" a, ,b ,,"), vec!["a", "b"]);
    assert!(parse_list("").is_empty());
    assert_eq!(metadata_urls(Some("x,y"), Some("z"), "d"), vec!["x", "y"]);
    assert!(metadata_urls(Some(" "), Some("z"), "d").is_empty());
    assert_eq!(metadata_urls(None, Some("z"), "d"), vec!["z"]);
    assert_eq!(metadata_urls(None, None, "d"), vec!["d"]);
    assert_eq!(parse_number(Some("17"), 65535), Some(17));
    assert_eq!(parse_number(Some("70000"), 65535), None);
    assert_eq!(parse_number(Some("-1"), 65535), None);
    assert_eq!(parse_number(None, 65535), None);
    assert_eq!(number_or(Some("no"), u64::MAX, 60), 60);
    assert_eq!(number_or(Some("18446744073709551615"), u64::MAX, 60), u64::MAX);
    assert_eq!(number_or(Some("18446744073709551616"), u64::MAX, 60), 60);
    assert_eq!(parse_bool("true"), Some(true));
    assert_eq!(parse_bool("1"), None);
    assert_eq!(register_address("10.0.0.7", 3000), "http://10.0.0.7:3000");
}
