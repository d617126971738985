use gmail_router::address::{extract_recipients, parse_email_addresses, Header, MailMessage, RecipientError};
use gmail_router::policy::RoutingConfig;
use gmail_router::processor::{classify_message, collect_all_addresses, note_recipients, should_delete_message};

fn header(name: &str, value: &str) -> Header {
    Header { name: Some(name.to_string()), value: Some(value.to_string()) }
}

fn message(headers: Vec<Header>) -> MailMessage {
    MailMessage { headers: Some(headers) }
}

#[test]
fn test_parse_email_addresses() {
    let domain = "example.com";

    let addrs = parse_email_addresses("test@example.com", domain);
    assert_eq!(addrs, vec!["test"]);

    let addrs = parse_email_addresses("John Doe <john@example.com>", domain);
    assert_eq!(addrs, vec!["john"]);

    let addrs = parse_email_addresses("test1@example.com, test2@example.com", domain);
    assert_eq!(addrs, vec!["test1", "test2"]);

    let addrs = parse_email_addresses("test1@example.com, John <john@example.com>", domain);
    assert_eq!(addrs, vec!["test1", "john"]);

    let addrs = parse_email_addresses("test@other.com", domain);
    assert_eq!(addrs.len(), 0);
}

#[test]
fn test_should_delete_message() {
    let mut config = RoutingConfig::default();
    config.set_address("allowed".to_string(), true);
    config.set_address("blocked".to_string(), false);

    assert!(!should_delete_message(&vec!["allowed".to_string()], &config));

    assert!(should_delete_message(&vec!["blocked".to_string()], &config));

    assert!(should_delete_message(
        &vec!["allowed".to_string(), "blocked".to_string()],
        &config
    ));
}

#[test]
fn other_domain_is_excluded() {
    assert!(parse_email_addresses("a@other.com", "example.com").is_empty());
    assert!(parse_email_addresses("a@sub.example.com", "example.com").is_empty());
    assert!(parse_email_addresses("a@example.com.evil", "example.com").is_empty());
    assert!(parse_email_addresses("a@EXAMPLE.COM", "example.com").is_empty());
    assert!(parse_email_addresses("example.com", "example.com").is_empty());
}

#[test]
fn extract_named_address() {
    let m = message(vec![header("To", "John Doe <john@example.com>")]);
    assert_eq!(extract_recipients(&m, "example.com"), Ok(vec!["john".to_string()]));
}

#[test]
fn extract_mixed_forms() {
    let m = message(vec![header("To", "a@example.com, Name <b@example.com>")]);
    assert_eq!(extract_recipients(&m, "example.com"), Ok(vec!["a".to_string(), "b".to_string()]));
}

#[test]
fn extract_only_other_domains() {
    let m = message(vec![header("To", "x@other.com, Y <y@else.org>")]);
    assert_eq!(extract_recipients(&m, "example.com"), Ok(vec![]));
}

#[test]
fn extract_lowercases_local_part() {
    let m = message(vec![header("To", "  Mixed <MiXeD@example.com>  ")]);
    assert_eq!(extract_recipients(&m, "example.com"), Ok(vec!["mixed".to_string()]));
}

#[test]
fn extract_header_name_any_case() {
    let m = message(vec![
        header("TO", "a@example.com"),
        header("Cc", "c@example.com"),
        header("to", "b@example.com"),
        Header { name: Some("To".to_string()), value: None },
    ]);
    assert_eq!(extract_recipients(&m, "example.com"), Ok(vec!["a".to_string(), "b".to_string()]));
}

#[test]
fn extract_drops_repeats() {
    let m = message(vec![
        header("To", "a@example.com, A@example.com, b@example.com"),
        header("To", "b@example.com, c@example.com"),
    ]);
    assert_eq!(
        extract_recipients(&m, "example.com"),
        Ok(vec!["a".to_string(), "b".to_string(), "c".to_string()])
    );
}

#[test]
fn extract_without_headers_fails() {
    let m = MailMessage { headers: None };
    assert_eq!(extract_recipients(&m, "example.com"), Err(RecipientError::NoHeaders));
}

#[test]
fn extract_without_to_header_is_empty() {
    let m = message(vec![header("Subject", "hello@example.com")]);
    assert_eq!(extract_recipients(&m, "example.com"), Ok(vec![]));
}

#[test]
fn blocked_recipient_means_delete() {
    let mut config = RoutingConfig::default();
    config.set_address("alice".to_string(), true);
    config.set_address("bob".to_string(), false);
    let m = message(vec![header("To", "Bob <bob@example.com>, Alice <alice@example.com>")]);
    assert_eq!(
        extract_recipients(&m, "example.com"),
        Ok(vec!["bob".to_string(), "alice".to_string()])
    );
    assert_eq!(classify_message(&m, "example.com", &config), Ok(true));
}

#[test]
fn unknown_recipient_means_keep() {
    let mut config = RoutingConfig::default();
    config.set_address("alice".to_string(), true);
    config.set_address("bob".to_string(), false);
    let m = message(vec![header("To", "carol@example.com")]);
    assert_eq!(classify_message(&m, "example.com", &config), Ok(false));
}

#[test]
fn no_recipients_means_keep() {
    let mut config = RoutingConfig::default();
    config.set_address("bob".to_string(), false);
    let m = message(vec![header("To", "bob@other.com")]);
    assert_eq!(classify_message(&m, "example.com", &config), Ok(false));
    assert!(!should_delete_message(&[], &config));
    let bare = MailMessage { headers: None };
    assert_eq!(classify_message(&bare, "example.com", &config), Err(RecipientError::NoHeaders));
}

#[test]
fn collect_skips_failures_and_dedups() {
    let messages = vec![
        Some(message(vec![header("To", "a@example.com, b@example.com")])),
        None,
        Some(MailMessage { headers: None }),
        Some(message(vec![header("To", "B@example.com, c@example.com, d@other.com")])),
    ];
    let found = collect_all_addresses(&messages, "example.com");
    assert_eq!(found, vec!["a".to_string(), "b".to_string(), "c".to_string()]);
}

#[test]
fn note_recipients_reports_missing_headers() {
    let mut found = vec!["a".to_string()];
    let m = message(vec![header("To", "a@example.com, z@example.com")]);
    assert_eq!(note_recipients(&mut found, &m, "example.com"), Ok(()));
    assert_eq!(found, vec!["a".to_string(), "z".to_string()]);
    let bare = MailMessage { headers: None };
    assert_eq!(note_recipients(&mut found, &bare, "example.com"), Err(RecipientError::NoHeaders));
    assert_eq!(found.len(), 2);
}
