use red_js_interpreter::radix::{decimal_text, radix_fmt};

#[test]
fn zero_is_one_digit() {
    assert_eq!(radix_fmt(0, 2), "0");
    assert_eq!(radix_fmt(0, 36), "0");
}

#[test]
fn formats_in_several_bases() {
    assert_eq!(radix_fmt(255, 16), "ff");
    assert_eq!(radix_fmt(255, 2), "11111111");
    assert_eq!(radix_fmt(35, 36), "z");
    assert_eq!(radix_fmt(36, 36), "10");
    assert_eq!(radix_fmt(1_000, 10), "1000");
}

#[test]
fn negative_numbers_get_a_sign() {
    assert_eq!(radix_fmt(-10, 2), "-1010");
    assert_eq!(radix_fmt(-255, 16), "-ff");
}

#[test]
fn digits_read_back_to_the_number() {
    for (n, base) in [(12345i64, 7u32), (987654321, 36), (i64::MAX, 2), (42, 3)] {
        let s = radix_fmt(n, base);
        assert_eq!(i64::from_str_radix(&s, base).unwrap(), n);
    }
}

#[test]
fn decimal_text_writes_every_u64() {
    assert_eq!(decimal_text(0), "0");
    assert_eq!(decimal_text(2000), "2000");
    assert_eq!(decimal_text(u64::MAX), u64::MAX.to_string());
}

#[test]
fn signed_text_reads_back() {
    for (n, base) in [(-255i64, 16u32), (-1, 2), (0, 10), (35, 36), (-36, 36), (i64::MAX, 36), (i64::MIN + 1, 2)] {
        let s = radix_fmt(n, base);
        assert_eq!(i64::from_str_radix(&s, base).unwrap(), n);
        assert_eq!(s.starts_with('-'), n < 0);
        let digits = s.trim_start_matches('-');
        assert!(!digits.is_empty());
        assert!(n == 0 || !digits.starts_with('0'));
        assert!(digits.chars().all(|c| c.to_digit(base).is_some() && !c.is_ascii_uppercase()));
    }
}
