use grow_a_cache::config::{CliArgs, Config, TomlConfig};

#[test]
fn test_default_config() {
    let config = TomlConfig::default();
    assert_eq!(config.server.listen, "127.0.0.1:11211");
    assert_eq!(config.storage.max_memory, 64 * 1024 * 1024);
    assert_eq!(config.storage.default_ttl, 0);
}

#[test]
fn test_resolve_cli_precedence() {
    let cli = CliArgs {
        listen: Some("0.0.0.0:9999".to_string()),
        max_memory: Some(1234),
        default_ttl: None,
        workers: Some(4),
        log_level: None,
    };
    let mut file = TomlConfig::default();
    file.storage.default_ttl = 60;
    file.logging.level = "debug".to_string();
    let config = Config::resolve(cli, file);
    assert_eq!(config.listen, "0.0.0.0:9999");
    assert_eq!(config.max_memory, 1234);
    assert_eq!(config.default_ttl, 60);
    assert_eq!(config.workers, Some(4));
    assert_eq!(config.log_level, "debug");
    assert_eq!(config.cleanup_interval, 60);
}
