use isitblockedinrussia_bot::classify::{is_ipv4_literal, is_url_or_domain_like};

#[test]
fn ipv4_accepts_dotted_quad() {
    assert!(is_ipv4_literal("1.2.3.4"));
    assert!(is_ipv4_literal("8.8.8.8"));
    assert!(is_ipv4_literal("10.0.0.255"));
}

#[test]
fn ipv4_accepts_octets_above_255() {
    assert!(is_ipv4_literal("999.1.1.1"));
}

#[test]
fn ipv4_rejects_leading_zero_in_first_octet() {
    assert!(!is_ipv4_literal("0.1.1.1"));
    assert!(!is_ipv4_literal("01.1.1.1"));
}

#[test]
fn ipv4_rejects_leading_zero_in_later_octet() {
    assert!(!is_ipv4_literal("1.01.1.1"));
}

#[test]
fn ipv4_rejects_letters_and_wrong_shapes() {
    assert!(!is_ipv4_literal("a.b.c.d"));
    assert!(!is_ipv4_literal("1.2.3"));
    assert!(!is_ipv4_literal("1.2.3.4.5"));
    assert!(!is_ipv4_literal("1234.1.1.1"));
    assert!(!is_ipv4_literal("1.2.3.4 "));
    assert!(!is_ipv4_literal(""));
}

#[test]
fn domain_like_accepts_plain_domain() {
    assert!(is_url_or_domain_like("example.com"));
}

#[test]
fn domain_like_accepts_schemes() {
    assert!(is_url_or_domain_like("https://example.com"));
    assert!(is_url_or_domain_like("http://example.org"));
}

#[test]
fn domain_like_rejects_text_without_dot() {
    assert!(!is_url_or_domain_like("hello"));
    assert!(!is_url_or_domain_like(""));
}

#[test]
fn domain_like_rejects_short_or_upper_tld() {
    assert!(!is_url_or_domain_like("example.c"));
    assert!(!is_url_or_domain_like("example.COM"));
    assert!(!is_url_or_domain_like("ftp://example.com"));
}
