use luhn::{checksum, safe_checksum, valid};

fn with_check_digit(s: &str) -> String {
    let mut t = s.to_string();
    t.push(safe_checksum(s.as_bytes()).unwrap() as char);
    t
}

#[test]
fn appended_check_digit_validates() {
    for s in ["", "0", "7", "A", "Z", "11111111", "US594918104", "KR4101R6000", "ZZZZ", "9A9B"] {
        let t = with_check_digit(s);
        assert!(valid(&t), "{} should validate", t);
    }
}

#[test]
fn check_digit_of_empty_input_is_zero() {
    assert_eq!(safe_checksum(b""), Some(b'0'));
    assert!(valid("0"));
    assert!(!valid("1"));
}

#[test]
fn empty_string_validates() {
    assert!(valid(""));
}

#[test]
fn concrete_check_digits() {
    assert_eq!(safe_checksum(b"11111111"), Some(b'8'));
    assert_eq!(safe_checksum(b"US594918104"), Some(b'5'));
    assert_eq!(safe_checksum(b"401288888888188"), Some(b'1'));
    assert_eq!(safe_checksum(b"7992739871"), Some(b'3'));
    assert_eq!(checksum(b"37828224631000"), b'5');
    assert_eq!(checksum(b"KR4101R6000"), b'0');
    assert_eq!(checksum(b"KR4301Q9357"), b'9');
}

#[test]
fn concrete_validations() {
    assert!(valid("4111111111111111"));
    assert!(!valid("4111111111111112"));
    assert!(valid("49927398716"));
    assert!(!valid("234"));
    assert!(valid("111111118"));
    assert!(valid("US5949181045"));
    assert!(!valid("US5949181040"));
    assert!(!valid("SU5941981045"));
}

#[test]
fn lowercase_is_malformed() {
    assert!(!valid("banana"));
    assert_eq!(safe_checksum(b"banana"), None);
    assert!(!valid("us5949181045"));
    assert_eq!(safe_checksum(b"us594918104"), None);
}

#[test]
fn non_ascii_is_malformed() {
    assert!(!valid("口水鸡"));
    assert_eq!(safe_checksum("口水鸡".as_bytes()), None);
    assert_eq!(safe_checksum(&[0xff, b'1']), None);
}

#[test]
fn one_bad_byte_spoils_a_valid_string() {
    assert!(valid("4111111111111111"));
    assert!(!valid("4111 1111 1111 1111"));
    assert!(!valid("411111111111111-1"));
    assert_eq!(safe_checksum(b"4111-111"), None);
    assert_eq!(safe_checksum(b"US59491810\n"), None);
    // a malformed byte is not read as zero
    assert!(valid("4111111111111095"));
    assert!(!valid("4111111111111.95"));
}

#[test]
fn single_digit_change_is_detected() {
    let good = "4111111111111111";
    for i in 0..good.len() {
        for d in b'0'..=b'9' {
            let mut bytes = good.as_bytes().to_vec();
            if bytes[i] == d {
                continue;
            }
            bytes[i] = d;
            let s = String::from_utf8(bytes).unwrap();
            assert!(!valid(&s), "{} should not validate", s);
        }
    }
}

#[test]
fn adjacent_transposition_is_detected() {
    assert!(valid("79927398713"));
    assert!(!valid("97927398713"));
    assert!(!valid("79297398713"));
    assert!(!valid("79923798713"));
    // 0 and 9 exchanged: the one pair Luhn cannot see
    assert!(valid("4111111111111095"));
    assert!(valid("4111111111111905"));
}

#[test]
fn only_the_check_digit_completes() {
    for body in ["US594918104", "11111111", "4111111111111111"] {
        let check = checksum(body.as_bytes());
        for d in b'0'..=b'9' {
            let mut s = body.to_string();
            s.push(d as char);
            assert_eq!(valid(&s), d == check, "{}", s);
        }
    }
}
