use auth_tui::clock::{seconds_remaining, seconds_remaining_at};
use auth_tui::code::{code_at, generate_code};
use auth_tui::descriptor::{parse, Algorithm, Descriptor};
use auth_tui::display::frame;
use auth_tui::store::{import_lines, join_lines, load_lines};
use auth_tui::text::{first_index_of, parse_unsigned, same_text};

fn strings(items: &[&str]) -> Vec<String> {
    items.iter().map(|s| s.to_string()).collect()
}

fn rfc_descriptor(algorithm: Algorithm, secret: &[u8]) -> Descriptor {
    Descriptor {
        account: "rfc".to_string(),
        issuer: String::new(),
        secret: secret.to_vec(),
        algorithm,
        digits: 8,
        period: 30,
    }
}

#[test]
fn rfc_reference_code_sha1() {
    let d = rfc_descriptor(Algorithm::SHA1, b"12345678901234567890");
    assert_eq!(code_at(&d, 59), Some("94287082".to_string()));
}

#[test]
fn rfc_reference_code_through_parse() {
    let d = parse("otpauth://totp/RFC?secret=GEZDGNBVGY3TQOJQGEZDGNBVGY3TQOJQ&digits=8").unwrap();
    assert_eq!(d.secret, b"12345678901234567890".to_vec());
    assert_eq!(code_at(&d, 59), Some("94287082".to_string()));
}

#[test]
fn rfc_reference_code_sha256() {
    let d = rfc_descriptor(Algorithm::SHA256, b"12345678901234567890123456789012");
    assert_eq!(code_at(&d, 59), Some("46119246".to_string()));
}

#[test]
fn rfc_reference_code_sha512() {
    let d = rfc_descriptor(
        Algorithm::SHA512,
        b"1234567890123456789012345678901234567890123456789012345678901234",
    );
    assert_eq!(code_at(&d, 59), Some("90693936".to_string()));
}

#[test]
fn six_digit_code_is_zero_padded_to_length() {
    let mut d = rfc_descriptor(Algorithm::SHA1, b"12345678901234567890");
    d.digits = 6;
    assert_eq!(code_at(&d, 59), Some("287082".to_string()));
    d.digits = 1;
    assert_eq!(code_at(&d, 59).unwrap().len(), 1);
}

#[test]
fn code_needs_nonzero_period_and_at_most_nine_digits() {
    let mut d = rfc_descriptor(Algorithm::SHA1, b"12345678901234567890");
    d.period = 0;
    assert_eq!(code_at(&d, 59), None);
    assert_eq!(generate_code(&d), None);
    d.period = 30;
    d.digits = 10;
    assert_eq!(code_at(&d, 59), None);
    d.digits = 9;
    assert_eq!(code_at(&d, 59).unwrap().len(), 9);
}

#[test]
fn generate_code_now_has_the_configured_length() {
    let d = rfc_descriptor(Algorithm::SHA1, b"12345678901234567890");
    assert_eq!(generate_code(&d).unwrap().len(), 8);
}

#[test]
fn parse_plain_account_takes_defaults() {
    let d = parse("otpauth://totp/Account?secret=JBSWY3DPEHPK3PXP").unwrap();
    assert_eq!(d.issuer, "");
    assert_eq!(d.account, "Account");
    assert_eq!(d.algorithm, Algorithm::SHA1);
    assert_eq!(d.digits, 6);
    assert_eq!(d.period, 30);
    assert_eq!(d.secret, vec![72, 101, 108, 108, 111, 33, 0xde, 0xad, 0xbe, 0xef]);
}

#[test]
fn parse_query_issuer_overrides_label_issuer() {
    let d = parse(
        "otpauth://totp/Example:alice@example.com?secret=JBSWY3DPEHPK3PXP&issuer=Example",
    )
    .unwrap();
    assert_eq!(d.issuer, "Example");
    assert_eq!(d.account, "alice@example.com");
}

#[test]
fn parse_label_issuer_used_without_query_issuer() {
    let d = parse("otpauth://totp/Acme:bob?secret=JBSWY3DPEHPK3PXP").unwrap();
    assert_eq!(d.issuer, "Acme");
    assert_eq!(d.account, "bob");
    let d = parse("otpauth://totp/Other:bob?secret=JBSWY3DPEHPK3PXP&issuer=Acme").unwrap();
    assert_eq!(d.issuer, "Acme");
}

#[test]
fn parse_percent_decodes_the_label() {
    let d = parse("otpauth://totp/ACME%20Co:john%40example.com:x?secret=JBSWY3DPEHPK3PXP").unwrap();
    assert_eq!(d.issuer, "ACME Co");
    assert_eq!(d.account, "john@example.com:x");
}

#[test]
fn parse_skips_missing_secret() {
    assert!(parse("otpauth://totp/Account").is_none());
    assert!(parse("otpauth://totp/Account?issuer=Example&digits=6").is_none());
}

#[test]
fn parse_skips_invalid_base32_secret() {
    assert!(parse("otpauth://totp/Account?secret=1!!1").is_none());
    assert!(parse("otpauth://totp/Account?secret=JBSWY3DPEHPK3PXP%3D%3D").is_none());
}

#[test]
fn parse_skips_what_is_not_a_url() {
    assert!(parse("not a url").is_none());
    assert!(parse("").is_none());
}

#[test]
fn parse_upper_cases_the_secret() {
    let d = parse("otpauth://totp/Account?secret=jbswy3dpehpk3pxp").unwrap();
    assert_eq!(d.secret, vec![72, 101, 108, 108, 111, 33, 0xde, 0xad, 0xbe, 0xef]);
}

#[test]
fn parse_reads_algorithm_digits_and_period() {
    let d = parse("otpauth://totp/A?secret=JBSWY3DPEHPK3PXP&algorithm=sha256&digits=8&period=60")
        .unwrap();
    assert_eq!(d.algorithm, Algorithm::SHA256);
    assert_eq!(d.digits, 8);
    assert_eq!(d.period, 60);
    let d = parse("otpauth://totp/A?secret=JBSWY3DPEHPK3PXP&algorithm=SHA512").unwrap();
    assert_eq!(d.algorithm, Algorithm::SHA512);
    let d = parse("otpauth://totp/A?secret=JBSWY3DPEHPK3PXP&algorithm=MD5").unwrap();
    assert_eq!(d.algorithm, Algorithm::SHA1);
}

#[test]
fn parse_falls_back_on_unreadable_numbers() {
    let d = parse("otpauth://totp/A?secret=JBSWY3DPEHPK3PXP&digits=abc&period=-5").unwrap();
    assert_eq!(d.digits, 6);
    assert_eq!(d.period, 30);
    let d = parse("otpauth://totp/A?secret=JBSWY3DPEHPK3PXP&digits=4294967296&period=%2B45").unwrap();
    assert_eq!(d.digits, 6);
    assert_eq!(d.period, 45);
}

#[test]
fn parse_keys_are_case_sensitive() {
    assert!(parse("otpauth://totp/A?SECRET=JBSWY3DPEHPK3PXP").is_none());
}

#[test]
fn parse_strips_repeated_type_segments_and_slashes() {
    let d = parse("otpauth://totp/totp//name?secret=JBSWY3DPEHPK3PXP").unwrap();
    assert_eq!(d.account, "name");
    let d = parse("otpauth://hotp/name?secret=JBSWY3DPEHPK3PXP").unwrap();
    assert_eq!(d.account, "name");
}

#[test]
fn remaining_seconds_in_fixed_window() {
    assert_eq!(seconds_remaining_at(0), 30);
    assert_eq!(seconds_remaining_at(1), 29);
    assert_eq!(seconds_remaining_at(29), 1);
    assert_eq!(seconds_remaining_at(30), 30);
    assert_eq!(seconds_remaining_at(59), 1);
    assert_eq!(seconds_remaining_at(u64::MAX), 30 - (u64::MAX % 30));
}

#[test]
fn remaining_seconds_count_down_and_wrap() {
    for t in 0u64..120 {
        let now = seconds_remaining_at(t);
        let next = seconds_remaining_at(t + 1);
        assert!((1..=30).contains(&now));
        if now == 1 {
            assert_eq!(next, 30);
        } else {
            assert_eq!(next, now - 1);
        }
    }
    let r = seconds_remaining();
    assert!((1..=30).contains(&r));
}

#[test]
fn load_keeps_only_scheme_lines() {
    let text = "# comment\notpauth://totp/A?secret=AA\n\nhttp://x\r\notpauth://totp/B?secret=BB\r\n";
    let lines = load_lines(text);
    assert_eq!(lines, strings(&["otpauth://totp/A?secret=AA", "otpauth://totp/B?secret=BB"]));
}

#[test]
fn load_of_empty_text_is_empty() {
    assert!(load_lines("").is_empty());
    assert!(load_lines("\n\n").is_empty());
}

#[test]
fn load_keeps_last_line_without_newline() {
    assert_eq!(load_lines("x\notpauth://c"), strings(&["otpauth://c"]));
}

#[test]
fn load_then_save_reproduces_source() {
    let source = "otpauth://totp/A?secret=AA\notpauth://totp/B?secret=BB\notpauth://totp/C?secret=CC";
    assert_eq!(join_lines(&load_lines(source)), source);
}

#[test]
fn load_then_save_drops_other_lines() {
    let source = "otpauth://a\njunk\n\notpauth://b\n";
    assert_eq!(join_lines(&load_lines(source)), "otpauth://a\notpauth://b");
}

#[test]
fn join_of_nothing_is_empty() {
    assert_eq!(join_lines(&Vec::new()), "");
    assert_eq!(join_lines(&strings(&["one"])), "one");
}

#[test]
fn import_appends_new_lines_and_counts_all() {
    let mut store = strings(&["otpauth://A", "otpauth://B"]);
    let count = import_lines(&mut store, strings(&["otpauth://B", "otpauth://C", "otpauth://D"]));
    assert_eq!(store, strings(&["otpauth://A", "otpauth://B", "otpauth://C", "otpauth://D"]));
    assert_eq!(store.len(), 4);
    assert_eq!(count, 3);
}

#[test]
fn import_skips_repeats_within_incoming() {
    let mut store = Vec::new();
    let count = import_lines(&mut store, strings(&["otpauth://C", "otpauth://C"]));
    assert_eq!(store, strings(&["otpauth://C"]));
    assert_eq!(count, 2);
}

#[test]
fn frame_omits_unparsable_rows_but_redraws_over_all_lines() {
    let store = strings(&[
        "otpauth://totp/Example:alice?secret=JBSWY3DPEHPK3PXP",
        "otpauth://totp/Broken",
        "otpauth://totp/RFC?secret=GEZDGNBVGY3TQOJQGEZDGNBVGY3TQOJQ&digits=8",
    ]);
    let first = frame(&store, true, 59);
    assert_eq!(first.cursor_up, 0);
    assert_eq!(first.rows.len(), 2);
    assert_eq!(first.remaining, 1);
    assert_eq!(first.rows[0].account, "alice");
    assert_eq!(first.rows[0].issuer, "Example");
    assert_eq!(first.rows[0].code.len(), 6);
    assert_eq!(first.rows[1].account, "RFC");
    assert_eq!(first.rows[1].code, "94287082");
    let next = frame(&store, false, 60);
    assert_eq!(next.cursor_up, 5);
    assert_eq!(next.rows.len(), 2);
    assert_eq!(next.remaining, 30);
}

#[test]
fn frame_shows_empty_code_where_none_can_be_computed() {
    let store = strings(&["otpauth://totp/Z?secret=JBSWY3DPEHPK3PXP&period=0"]);
    let f = frame(&store, false, 10);
    assert_eq!(f.cursor_up, 3);
    assert_eq!(f.rows.len(), 1);
    assert_eq!(f.rows[0].code, "");
}

#[test]
fn decimal_reading() {
    assert_eq!(parse_unsigned("42", 100), Some(42));
    assert_eq!(parse_unsigned("+7", 100), Some(7));
    assert_eq!(parse_unsigned("+", 100), None);
    assert_eq!(parse_unsigned("", 100), None);
    assert_eq!(parse_unsigned("101", 100), None);
    assert_eq!(parse_unsigned("1a", 100), None);
    assert_eq!(parse_unsigned("18446744073709551615", u64::MAX), Some(u64::MAX));
    assert_eq!(parse_unsigned("18446744073709551616", u64::MAX), None);
}

#[test]
fn text_helpers() {
    assert!(same_text("abc", "abc"));
    assert!(!same_text("abc", "abd"));
    assert!(!same_text("ab", "abc"));
    assert_eq!(first_index_of("a:b:c", ':'), Some(1));
    assert_eq!(first_index_of("abc", ':'), None);
}
