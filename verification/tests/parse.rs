use ncd_cli::numbers::str_to_u32;

#[test]
fn test_str_to_u32_accepts() {
    assert_eq!(str_to_u32("0"), Ok(0));
    assert_eq!(str_to_u32("1"), Ok(1));
    assert_eq!(str_to_u32("42"), Ok(42));
    assert_eq!(str_to_u32("+42"), Ok(42));
    assert_eq!(str_to_u32("0042"), Ok(42));
    assert_eq!(str_to_u32("4294967295"), Ok(u32::MAX));
}

#[test]
fn test_str_to_u32_empty() {
    assert_eq!(
        str_to_u32(""),
        Err("Invalid integer: cannot parse integer from empty string".to_string())
    );
}

#[test]
fn test_str_to_u32_invalid_digit() {
    let msg = "Invalid integer: invalid digit found in string".to_string();
    assert_eq!(str_to_u32("x"), Err(msg.clone()));
    assert_eq!(str_to_u32("12x"), Err(msg.clone()));
    assert_eq!(str_to_u32("-1"), Err(msg.clone()));
    assert_eq!(str_to_u32("+"), Err(msg.clone()));
    assert_eq!(str_to_u32(" 1"), Err(msg.clone()));
    assert_eq!(str_to_u32("1 "), Err(msg));
}

#[test]
fn test_str_to_u32_matches_std() {
    let inputs = [
        "", "0", "1", "42", "+42", "+", "-", "-0", "-1", "007", "4294967295", "4294967296",
        "99999999999x", "12x", "x12", " 1", "1 ", "+ 1", "++1", "4294967295 ", "½", "٣",
    ];
    for s in inputs {
        let expected = s.parse::<u32>().map_err(|e| format!("Invalid integer: {}", e));
        assert_eq!(str_to_u32(s), expected, "input {:?}", s);
    }
}

#[test]
fn test_str_to_u32_too_large() {
    let msg = "Invalid integer: number too large to fit in target type".to_string();
    assert_eq!(str_to_u32("4294967296"), Err(msg.clone()));
    assert_eq!(str_to_u32("99999999999999999999"), Err(msg.clone()));
    // The scan overflows before it reaches the bad digit, as the standard
    // library's parser does.
    assert_eq!(str_to_u32("99999999999x"), Err(msg));
}
