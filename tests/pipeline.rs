use gmail_router::pipeline::{
    initialize_routing_config, listing_query, merge_discovered, scan_start,
    CycleTally, Listing,
};
use gmail_router::policy::{RoutingConfig, Timestamp};

fn ids(v: &[&str]) -> Vec<Option<String>> {
    v.iter().map(|s| Some(s.to_string())).collect()
}

#[test]
fn listing_over_three_pages() {
    let mut listing = Listing::new();
    assert_eq!(*listing.page_token(), None);
    listing.absorb_page(ids(&["m1", "m2"]), Some("t1".to_string()));
    assert!(!listing.is_finished());
    assert_eq!(*listing.page_token(), Some("t1".to_string()));
    let mut second = ids(&["m3"]);
    second.push(None);
    listing.absorb_page(second, Some("t2".to_string()));
    listing.absorb_page(ids(&["m4", "m5"]), None);
    assert!(listing.is_finished());
    assert_eq!(listing.into_ids(), vec!["m1", "m2", "m3", "m4", "m5"]);
}

#[test]
fn listing_single_empty_page() {
    let mut listing = Listing::new();
    listing.absorb_page(vec![], None);
    assert!(listing.is_finished());
    assert!(listing.into_ids().is_empty());
}

#[test]
fn bootstrap_twice_changes_nothing() {
    let t = Timestamp { year: 2024, month: 5, day: 1, hour: 0, minute: 0, second: 0, nanosecond: 0 };
    let found = vec!["a".to_string(), "b".to_string()];
    let mut first = initialize_routing_config(None, &found, t);
    assert!(first.is_allowed("a") && first.is_allowed("b"));
    first.set_address("b".to_string(), false);
    let second = initialize_routing_config(Some(first), &found, t);
    assert!(!second.is_allowed("b"));
    assert_eq!(second.entries().len(), 2);
    let third = initialize_routing_config(Some(second), &found, t);
    assert_eq!(third.entries().len(), 2);
    assert!(!third.is_allowed("b"));
    assert_eq!(third.updated_date(), t);
}

#[test]
fn merge_adds_only_new() {
    let mut config = RoutingConfig::default();
    config.set_address("x".to_string(), false);
    merge_discovered(&mut config, &vec!["x".to_string(), "y".to_string(), "y".to_string()]);
    assert_eq!(config.entries().len(), 2);
    assert!(!config.is_allowed("x"));
    assert!(config.is_allowed("y"));
    assert_eq!(config.updated_date(), Timestamp::epoch());
}

#[test]
fn listing_drops_repeated_ids() {
    let mut listing = Listing::new();
    listing.absorb_page(ids(&["a", "b"]), Some("t1".to_string()));
    listing.absorb_page(ids(&["b", "c", "c"]), Some("t2".to_string()));
    listing.absorb_page(ids(&["a", "d"]), None);
    assert_eq!(listing.into_ids(), vec!["a", "b", "c", "d"]);
}

#[test]
fn timestamp_validity() {
    let at = |year: i32, month: u32, day: u32| Timestamp { year, month, day, hour: 0, minute: 0, second: 0, nanosecond: 0 };
    assert!(Timestamp::epoch().is_valid());
    assert!(at(2024, 2, 29).is_valid());
    assert!(!at(2023, 2, 29).is_valid());
    assert!(!at(1900, 2, 29).is_valid());
    assert!(at(2000, 2, 29).is_valid());
    assert!(at(-4, 2, 29).is_valid());
    assert!(!at(2024, 4, 31).is_valid());
    assert!(!at(2024, 13, 1).is_valid());
    assert!(!at(2024, 0, 1).is_valid());
    assert!(!at(400000, 1, 1).is_valid());
    let late = Timestamp { hour: 24, ..at(2024, 1, 1) };
    assert!(!late.is_valid());
}

#[test]
fn scan_start_prefers_watermark() {
    let start = Timestamp { year: 2020, month: 1, day: 2, hour: 0, minute: 0, second: 0, nanosecond: 0 };
    let mark = Timestamp { year: 2023, month: 7, day: 8, hour: 9, minute: 0, second: 0, nanosecond: 0 };
    assert_eq!(scan_start(&None, start), start);
    let config = RoutingConfig::new(mark);
    assert_eq!(scan_start(&Some(config), start), mark);
}

#[test]
fn query_formats_day() {
    let t = Timestamp { year: 2024, month: 1, day: 5, hour: 13, minute: 4, second: 0, nanosecond: 0 };
    assert_eq!(listing_query(t), Some("in:inbox after:2024/01/05".to_string()));
    let bad = Timestamp { year: 2023, month: 2, day: 30, hour: 0, minute: 0, second: 0, nanosecond: 0 };
    assert_eq!(listing_query(bad), None);
    let leap = Timestamp { year: 2024, month: 2, day: 29, ..t };
    assert_eq!(listing_query(leap), Some("in:inbox after:2024/02/29".to_string()));
}

#[test]
fn tally_counts_outcomes() {
    let mut tally = CycleTally::new(3);
    tally.record(Some(true));
    tally.record(None);
    assert!(!tally.is_complete());
    tally.record(Some(false));
    assert!(tally.is_complete());
    assert_eq!((tally.found, tally.processed, tally.deleted, tally.skipped), (3, 2, 1, 1));
}
