use signal_ops::domain::{
    conversion_reply, is_convertible, op_domain_to_ascii, try_domain_to_ascii, MAX_DOMAIN_BYTES,
};
use signal_ops::error::DomainEncodingError;

#[test]
fn an_ascii_domain_is_unchanged_when_lenient() {
    assert_eq!(op_domain_to_ascii("example.com", false), Ok("example.com".to_string()));
    assert_eq!(op_domain_to_ascii("deno.land", false), Ok("deno.land".to_string()));
}

#[test]
fn a_unicode_domain_becomes_punycode() {
    assert_eq!(op_domain_to_ascii("bücher.de", false), Ok("xn--bcher-kva.de".to_string()));
    assert_eq!(op_domain_to_ascii("bücher.de", true), Ok("xn--bcher-kva.de".to_string()));
}

#[test]
fn upper_case_is_folded() {
    assert_eq!(op_domain_to_ascii("EXAMPLE.com", false), Ok("example.com".to_string()));
}

#[test]
fn a_disallowed_character_fails_when_strict_only() {
    assert_eq!(op_domain_to_ascii("a_b.com", false), Ok("a_b.com".to_string()));
    let error = op_domain_to_ascii("a_b.com", true).unwrap_err();
    assert_eq!(error.diagnostic, "Errors { invalid_mapping, disallowed_by_std3_ascii_rules }");
    assert_eq!(
        error.message(),
        "Invalid IDNA encoded domain name: Errors { invalid_mapping, disallowed_by_std3_ascii_rules }"
    );
}

#[test]
fn an_empty_label_fails_when_strict_only() {
    assert_eq!(op_domain_to_ascii("", false), Ok(String::new()));
    assert!(op_domain_to_ascii("", true).is_err());
    assert!(op_domain_to_ascii("a..b", true).is_err());
}

#[test]
fn a_broken_punycode_label_fails_in_both_modes() {
    assert!(op_domain_to_ascii("xn--a.com", false).is_err());
    assert!(op_domain_to_ascii("xn--a.com", true).is_err());
}

#[test]
fn the_reply_keeps_the_ascii_form_or_the_diagnostic() {
    assert_eq!(conversion_reply(Ok("example.com".to_string())), Ok("example.com".to_string()));
    assert_eq!(
        conversion_reply(Err("Errors { punycode }".to_string())),
        Err(DomainEncodingError { diagnostic: "Errors { punycode }".to_string() })
    );
}

#[test]
fn the_message_opens_with_the_fixed_text() {
    let error = DomainEncodingError { diagnostic: "x".to_string() };
    assert_eq!(error.message(), "Invalid IDNA encoded domain name: x");
    let empty = DomainEncodingError { diagnostic: String::new() };
    assert_eq!(empty.message(), "Invalid IDNA encoded domain name: ");
}

#[test]
fn names_up_to_the_limit_are_converted() {
    assert_eq!(MAX_DOMAIN_BYTES, 600);
    let longest = "a".repeat(600);
    assert!(is_convertible(&longest));
    assert_eq!(try_domain_to_ascii(&longest, false), Some(Ok(longest.clone())));
    // Too long for the DNS, which the strict rules check.
    assert!(matches!(try_domain_to_ascii(&longest, true), Some(Err(_))));
    assert_eq!(
        try_domain_to_ascii("bücher.de", false),
        Some(Ok("xn--bcher-kva.de".to_string()))
    );
    assert_eq!(try_domain_to_ascii("", false), Some(Ok(String::new())));
}

#[test]
fn names_above_the_limit_are_left_out() {
    let too_long = "a".repeat(601);
    assert!(!is_convertible(&too_long));
    assert_eq!(try_domain_to_ascii(&too_long, false), None);
    assert_eq!(try_domain_to_ascii(&too_long, true), None);
    // The limit counts bytes, not characters.
    let umlauts = "ü".repeat(300);
    assert!(is_convertible(&umlauts));
    let more_umlauts = "ü".repeat(301);
    assert!(!is_convertible(&more_umlauts));
    assert_eq!(try_domain_to_ascii(&more_umlauts, false), None);
}

#[test]
fn a_label_that_would_overrun_the_encoder_is_left_out() {
    let mut label = "\u{fc}".repeat(4000);
    label.push('\u{10623e}');
    assert!(!is_convertible(&label));
    assert_eq!(try_domain_to_ascii(&label, false), None);
    assert_eq!(try_domain_to_ascii(&label, true), None);
}

#[test]
fn the_greatest_expansion_stays_in_range() {
    // 200 characters of three bytes, each of which maps to 18.
    let name = "\u{fdfa}".repeat(200);
    assert!(is_convertible(&name));
    assert!(try_domain_to_ascii(&name, false).is_some());
    assert!(try_domain_to_ascii(&name, true).is_some());
    let mixed = format!("{}{}", "\u{fc}".repeat(299), "\u{10623e}");
    assert!(!is_convertible(&mixed));
    let shorter = format!("{}{}", "\u{fc}".repeat(298), "\u{10623e}");
    assert!(is_convertible(&shorter));
    assert!(matches!(try_domain_to_ascii(&shorter, false), Some(Err(_))));
}

#[test]
fn the_same_name_gives_the_same_reply() {
    for name in ["example.com", "a_b.com", "xn--a.com", "bücher.de", ""] {
        for strict in [false, true] {
            assert_eq!(op_domain_to_ascii(name, strict), op_domain_to_ascii(name, strict));
        }
    }
}

#[test]
fn an_ascii_form_is_ascii() {
    for name in ["bücher.de", "EXAMPLE.com", "日本語.jp", "a_b.com"] {
        let ascii = op_domain_to_ascii(name, false).unwrap();
        assert!(ascii.is_ascii());
    }
}
