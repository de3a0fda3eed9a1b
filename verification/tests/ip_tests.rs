use moesif_wasm::ip::{is_valid_ip, is_valid_ipv4, is_valid_ipv6};
use moesif_wasm::http_context::get_client_ip;

fn headers(items: &[(&str, &str)]) -> Vec<(String, String)> {
    items.iter().map(|(a, b)| (a.to_string(), b.to_string())).collect()
}

#[test]
fn dotted_quads() {
    assert!(is_valid_ipv4("10.0.0.5"));
    assert!(is_valid_ipv4("0.0.0.0"));
    assert!(is_valid_ipv4("255.255.255.255"));
    assert!(!is_valid_ipv4("256.1.1.1"));
    assert!(!is_valid_ipv4("01.2.3.4"));
    assert!(!is_valid_ipv4("1.2.3"));
    assert!(!is_valid_ipv4("1.2.3.4.5"));
    assert!(!is_valid_ipv4("1.2.3.a"));
    assert!(!is_valid_ipv4(""));
}

#[test]
fn colon_separated_forms() {
    assert!(is_valid_ipv6("::"));
    assert!(is_valid_ipv6("::1"));
    assert!(is_valid_ipv6("fe80::1"));
    assert!(is_valid_ipv6("1:2:3:4:5:6:7:8"));
    assert!(is_valid_ipv6("::ffff:1.2.3.4"));
    assert!(is_valid_ipv6("1:2:3:4:5:6:7.7.7.7"));
    assert!(is_valid_ipv6("1:2:3::"));
    assert!(!is_valid_ipv6("1::2::3"));
    assert!(!is_valid_ipv6(":"));
    assert!(!is_valid_ipv6(":1:2:3"));
    assert!(!is_valid_ipv6("1:2:3"));
    assert!(!is_valid_ipv6("12345::"));
    assert!(!is_valid_ipv6("1:2:3:4:5:6:7:8:9"));
    assert!(!is_valid_ipv6("g::1"));
}

#[test]
fn either_family_is_accepted() {
    assert!(is_valid_ip("10.0.0.9"));
    assert!(is_valid_ip("fe80::1"));
    assert!(!is_valid_ip("bad"));
}

#[test]
fn first_valid_token_of_most_trusted_header_wins() {
    let hs = headers(&[
        ("x-forwarded-for", "bad, 10.0.0.5"),
        ("x-real-ip", "10.0.0.9"),
    ]);
    assert_eq!(get_client_ip(&hs), Some("10.0.0.5".to_string()));
}

#[test]
fn header_without_valid_ip_does_not_stop_the_walk() {
    let hs = headers(&[
        ("x-client-ip", "nonsense"),
        ("x-forwarded-for", "also bad, still bad"),
        ("x-real-ip", "10.0.0.9"),
    ]);
    assert_eq!(get_client_ip(&hs), Some("10.0.0.9".to_string()));
}

#[test]
fn tokens_are_trimmed_before_validation() {
    let hs = headers(&[("x-client-ip", "  192.168.1.7  ")]);
    assert_eq!(get_client_ip(&hs), Some("192.168.1.7".to_string()));
}

#[test]
fn no_forwarding_header_yields_nothing() {
    let hs = headers(&[("host", "example.com")]);
    assert_eq!(get_client_ip(&hs), None);
}
