use gmail_router::policy::{RoutingConfig, Timestamp};

#[test]
fn test_is_allowed_default() {
    let config = RoutingConfig::default();
    assert!(config.is_allowed("test"));
}

#[test]
fn test_is_allowed_explicit() {
    let mut config = RoutingConfig::default();
    config.set_address("allowed".to_string(), true);
    config.set_address("blocked".to_string(), false);

    assert!(config.is_allowed("allowed"));
    assert!(!config.is_allowed("blocked"));
    assert!(config.is_allowed("unknown"));
}

#[test]
fn empty_policy_allows_anything() {
    let config = RoutingConfig::new(Timestamp::epoch());
    assert!(config.is_allowed(""));
    assert!(config.is_allowed("someone"));
    assert!(config.entries().is_empty());
}

#[test]
fn add_address_keeps_blocked_entry() {
    let mut config = RoutingConfig::default();
    config.set_address("bob".to_string(), false);
    config.add_address("bob".to_string());
    config.add_address("bob".to_string());
    assert!(!config.is_allowed("bob"));
    assert_eq!(config.entries().len(), 1);
}

#[test]
fn add_address_twice_adds_once() {
    let mut config = RoutingConfig::default();
    config.add_address("alice".to_string());
    config.add_address("alice".to_string());
    assert_eq!(config.entries().len(), 1);
    assert_eq!(config.entries()[0], ("alice".to_string(), true));
}

#[test]
fn set_address_overwrites() {
    let mut config = RoutingConfig::default();
    config.set_address("carol".to_string(), true);
    config.set_address("carol".to_string(), false);
    assert_eq!(config.entries().len(), 1);
    assert!(!config.is_allowed("carol"));
}

#[test]
fn update_date_moves_watermark() {
    let mut config = RoutingConfig::default();
    assert_eq!(config.updated_date(), Timestamp::epoch());
    let t = Timestamp { year: 2024, month: 3, day: 9, hour: 1, minute: 2, second: 3, nanosecond: 0 };
    config.add_address("x".to_string());
    config.update_date(t);
    assert_eq!(config.updated_date(), t);
    assert_eq!(config.entries().len(), 1);
}
