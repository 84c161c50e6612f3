use restaurant_orders::config::{Config, ConfigError};

#[test]
fn test_config_new_success() {
    let config = Config::new((1, 100));
    assert!(config.is_ok());
    let config = config.unwrap();
    assert_eq!(config.table_range.0, 1);
    assert_eq!(config.table_range.1, 100);
}

#[test]
fn test_config_new_invalid_start() {
    let result = Config::new((0, 100));
    assert!(matches!(result, Err(ConfigError::InvalidStart)));
}

#[test]
fn test_config_new_invalid_range() {
    let result = Config::new((100, 1));
    assert!(matches!(result, Err(ConfigError::InvalidRange)));
}

#[test]
fn test_config_single_table_range() {
    let config = Config::new((7, 7));
    assert!(config.is_ok());
    assert_eq!(config.unwrap().table_range, (7, 7));
}
