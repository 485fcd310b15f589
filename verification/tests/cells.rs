use sheet_search::cell::{coerce_cell, CellValue, Numeral};

fn number_text(v: &CellValue) -> Option<String> {
    match v {
        CellValue::Number(n) => Some(n.as_str().to_string()),
        _ => None,
    }
}

#[test]
fn empty_cell_is_null() {
    assert_eq!(coerce_cell(""), CellValue::Null);
}

#[test]
fn leading_zero_identifier_stays_text() {
    assert_eq!(coerce_cell("0012345"), CellValue::Text("0012345".to_string()));
}

#[test]
fn decimal_becomes_number() {
    let v = coerce_cell("123.45");
    assert_eq!(number_text(&v), Some("123.45".to_string()));
    let value: f64 = number_text(&v).unwrap().parse().unwrap();
    assert_eq!(value, 123.45);
}

#[test]
fn sixteen_digits_stay_text() {
    assert_eq!(
        coerce_cell("1234567890123456"),
        CellValue::Text("1234567890123456".to_string())
    );
}

#[test]
fn fifteen_digits_become_number() {
    let v = coerce_cell("123456789012345");
    assert_eq!(number_text(&v), Some("123456789012345".to_string()));
}

#[test]
fn numeral_parse_accepts_plain_notation_only() {
    for good in ["0", "7", "67", "-5", "0.5", "-0.25", "10", "100.001", "-0"] {
        assert!(Numeral::parse(good).is_some(), "{}", good);
    }
    for bad in ["", "+5", "05", "5.", ".5", "5.0", "1.50", "1.2.3", "--1", "-", ".", "1-2", "00.5", "abc", "1e5"] {
        assert!(Numeral::parse(bad).is_none(), "{}", bad);
    }
}

#[test]
fn plain_notation_is_what_a_float_writes_back() {
    for text in ["0", "7", "67", "-5", "0.5", "-0.25", "10", "100.001", "-0", "+5", "05", "5.", ".5",
                 "5.0", "1.50", "00.5", "123456789012345", "0.1234567890123", "999999999999.99",
                 "-12345678.12345", "0.0000000000001", "1000000", "-1000.5"] {
        let written = text.parse::<f64>().map(|x| x.to_string());
        let round_trips = written == Ok(text.to_string());
        assert_eq!(Numeral::parse(text).is_some(), round_trips, "{}", text);
    }
}

#[test]
fn coercion_keeps_everything_else_as_text() {
    for text in ["12a", " 12", "12 ", "1e5", "0.50", "+7", "7.", ".7", "--7", "1.2.3", "٣", "1,5", "−5"] {
        assert_eq!(coerce_cell(text), CellValue::Text(text.to_string()), "{:?}", text);
    }
    for text in ["7", "-7.5", "0", "0.5", "-0", "100", "999999999999999", "-99999999999999", "1234567.1234567",
                 "-999999999999999", "-12345678.1234567", "1234567.12345678"] {
        assert_eq!(number_text(&coerce_cell(text)), Some(text.to_string()), "{:?}", text);
    }
    for text in ["-1234567890123456", "12345678.12345678", "-0.123456789012345"] {
        assert_eq!(coerce_cell(text), CellValue::Text(text.to_string()), "{:?}", text);
    }
}

#[test]
fn signed_fifteen_digits_become_number() {
    let v = coerce_cell("-123456789012345");
    assert_eq!(number_text(&v), Some("-123456789012345".to_string()));
    let v = coerce_cell("-12345678.123456");
    assert_eq!(number_text(&v), Some("-12345678.123456".to_string()));
}

fn digit_run(text: &str) -> usize {
    text.chars().filter(|c| c.is_ascii_digit()).count()
}

#[test]
fn coercion_agrees_with_reading_and_writing_a_float() {
    for text in ["7", "-7.5", "0", "0.5", "-0", "100", "999999999999999", "0012345", "123.45",
                 "1234567890123456", "+7", "7.", ".7", "0.50", "1.2.3", "00.5", "-", ".", "0.1", "0.3",
                 "1.1", "99999.99999", "4.35", "0.000001", "123456789.123456", "-123456789012345",
                 "-12345678.123456", "-1234567.12345678", "12345678.12345678"] {
        let looks_numeric = text.chars().all(|c| c.is_ascii_digit() || c == '.' || c == '-' || c == '+');
        let kept_as_text = digit_run(text) > 15
            || (text.len() > 1 && text.starts_with('0') && !text.contains('.'));
        let reads_back = text.parse::<f64>().map(|x| x.to_string() == text).unwrap_or(false);
        let expected_number = looks_numeric && !kept_as_text && reads_back;
        assert_eq!(number_text(&coerce_cell(text)).is_some(), expected_number, "{:?}", text);
    }
}

fn next(state: &mut u64) -> u64 {
    *state = state.wrapping_mul(6364136223846793005).wrapping_add(1442695040888963407);
    *state >> 33
}

fn digits(state: &mut u64, count: u64) -> String {
    (0..count).map(|_| char::from(b'0' + (next(state) % 10) as u8)).collect()
}

#[test]
fn coercion_agrees_with_a_float_on_many_numerals() {
    let mut state = 0x5eed_u64;
    let mut numbers = 0;
    for _ in 0..60_000 {
        let mut text = String::new();
        match next(&mut state) % 8 {
            0 => text.push('-'),
            1 => text.push_str(if next(&mut state) % 2 == 0 { "+" } else { "0" }),
            _ => {}
        }
        let whole = next(&mut state) % 10;
        text.push_str(&digits(&mut state, whole));
        if next(&mut state) % 2 == 0 {
            text.push('.');
            let part = next(&mut state) % 9;
            text.push_str(&digits(&mut state, part));
        }
        if next(&mut state) % 16 == 0 {
            let noise = ['.', '-', '+', '0'][(next(&mut state) % 4) as usize];
            let at = (next(&mut state) as usize) % (text.len() + 1);
            text.insert(at, noise);
        }
        let kept_as_text = digit_run(&text) > 15
            || (text.len() > 1 && text.starts_with('0') && !text.contains('.'));
        let reads_back = text.parse::<f64>().map(|x| x.to_string() == text).unwrap_or(false);
        let expected_number = !text.is_empty() && !kept_as_text && reads_back;
        let value = coerce_cell(&text);
        assert_eq!(number_text(&value).is_some(), expected_number, "{:?}", text);
        if text.is_empty() {
            assert_eq!(value, CellValue::Null);
        } else if expected_number {
            numbers += 1;
            assert_eq!(number_text(&value), Some(text.clone()));
        } else {
            assert_eq!(value, CellValue::Text(text.clone()));
        }
    }
    assert!(numbers > 5_000, "only {} numbers", numbers);
}
