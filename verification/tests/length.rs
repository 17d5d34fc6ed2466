use led_httpd::length::parse_length;

fn std_parse(text: &[u8]) -> Option<usize> {
    std::str::from_utf8(text).ok().and_then(|text| text.parse::<usize>().ok())
}

#[test]
fn plain_numbers() {
    assert_eq!(parse_length(b"0"), Some(0));
    assert_eq!(parse_length(b"6"), Some(6));
    assert_eq!(parse_length(b"42"), Some(42));
    assert_eq!(parse_length(b"1024"), Some(1024));
    assert_eq!(parse_length(b"007"), Some(7));
}

#[test]
fn leading_plus_is_accepted() {
    assert_eq!(parse_length(b"+6"), Some(6));
    assert_eq!(parse_length(b"+0"), Some(0));
}

#[test]
fn what_is_no_number() {
    assert_eq!(parse_length(b""), None);
    assert_eq!(parse_length(b"+"), None);
    assert_eq!(parse_length(b"-1"), None);
    assert_eq!(parse_length(b"++1"), None);
    assert_eq!(parse_length(b" 6"), None);
    assert_eq!(parse_length(b"6 "), None);
    assert_eq!(parse_length(b"6a"), None);
    assert_eq!(parse_length(b"a6"), None);
    assert_eq!(parse_length(b"1+1"), None);
    assert_eq!(parse_length(b"0x10"), None);
    assert_eq!(parse_length(b"1.5"), None);
    assert_eq!(parse_length(&[0x31, 0xff]), None);
    assert_eq!(parse_length(&[0xc3, 0xa9]), None);
}

#[test]
fn largest_number_fits() {
    let largest = usize::MAX.to_string();
    assert_eq!(parse_length(largest.as_bytes()), Some(usize::MAX));
}

#[test]
fn too_large_is_no_number() {
    let mut digits = usize::MAX.to_string().into_bytes();
    let last = digits.len() - 1;
    if digits[last] == b'9' {
        digits.push(b'0');
    } else {
        digits[last] += 1;
    }
    assert_eq!(parse_length(&digits), None);
    assert_eq!(parse_length(b"99999999999999999999999999999999"), None);
    let mut longer = usize::MAX.to_string().into_bytes();
    longer.push(b'0');
    assert_eq!(parse_length(&longer), None);
}

#[test]
fn agrees_with_the_standard_parser() {
    let samples: [&[u8]; 16] = [
        b"", b"0", b"+", b"+12", b"12", b"-12", b"12 ", b" 12", b"00012", b"18446744073709551615",
        b"18446744073709551616", b"4294967295", b"4294967296", b"1e3", b"\t1", b"+-1",
    ];
    for sample in samples {
        assert_eq!(parse_length(sample), std_parse(sample));
    }
    for number in 0..2000usize {
        let text = number.to_string();
        assert_eq!(parse_length(text.as_bytes()), Some(number));
    }
}
