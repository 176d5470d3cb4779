use github_contributions::year::{parse_year, timestamp_year};

fn by_prefix(text: &str) -> u16 {
    text.get(..4).and_then(|prefix| prefix.parse::<u16>().ok()).unwrap_or(0)
}

#[test]
fn year_of_full_timestamp() {
    assert_eq!(parse_year("2024-03-17T09:30:00Z"), 2024);
}

#[test]
fn year_of_bare_year() {
    assert_eq!(parse_year("1999"), 1999);
}

#[test]
fn year_with_leading_zeros() {
    assert_eq!(parse_year("0042-01-01"), 42);
    assert_eq!(parse_year("0000"), 0);
}

#[test]
fn year_with_plus_sign() {
    assert_eq!(parse_year("+123"), 123);
    assert_eq!(parse_year("+999-01-01"), 999);
}

#[test]
fn short_text_is_year_zero() {
    assert_eq!(parse_year(""), 0);
    assert_eq!(parse_year("2"), 0);
    assert_eq!(parse_year("202"), 0);
}

#[test]
fn unreadable_text_is_year_zero() {
    assert_eq!(parse_year("abcd"), 0);
    assert_eq!(parse_year("20x4-01-01"), 0);
    assert_eq!(parse_year("-123"), 0);
    assert_eq!(parse_year(" 202"), 0);
    assert_eq!(parse_year("++12"), 0);
    assert_eq!(parse_year("12+3"), 0);
}

#[test]
fn text_with_wide_characters_is_year_zero() {
    assert_eq!(parse_year("20é4"), 0);
    assert_eq!(parse_year("é2024"), 0);
    assert_eq!(parse_year("123é"), 0);
    assert_eq!(parse_year("12é"), 0);
    assert_eq!(parse_year("２０２４"), 0);
}

#[test]
fn wide_characters_after_the_year_do_not_matter() {
    assert_eq!(parse_year("2024é"), 2024);
}

#[test]
fn absent_timestamp_is_year_zero() {
    assert_eq!(timestamp_year(&None), 0);
}

#[test]
fn present_timestamp_is_read() {
    assert_eq!(timestamp_year(&Some(String::from("2021-12-31T23:59:59Z"))), 2021);
    assert_eq!(timestamp_year(&Some(String::from("soon"))), 0);
}

#[test]
fn year_agrees_with_parsing_the_first_four_bytes() {
    let alphabet = ['0', '1', '9', '+', '-', ' ', 'a', 'é', '٣'];
    let tails = ["", "-01-01T00:00:00Z", "é", "7"];
    let mut checked = 0u32;
    for a in alphabet {
        for b in alphabet {
            for c in alphabet {
                for d in alphabet {
                    for tail in tails {
                        let mut text = String::new();
                        text.push(a);
                        text.push(b);
                        text.push(c);
                        text.push(d);
                        text.push_str(tail);
                        assert_eq!(parse_year(&text), by_prefix(&text), "text {:?}", text);
                        checked += 1;
                    }
                }
            }
        }
    }
    for a in alphabet {
        for b in alphabet {
            for c in alphabet {
                let mut text = String::new();
                text.push(a);
                text.push(b);
                text.push(c);
                assert_eq!(parse_year(&text), by_prefix(&text), "text {:?}", text);
            }
        }
    }
    assert!(checked > 20000);
}

#[test]
fn every_four_digit_year_is_read() {
    for year in 0u16..=9999 {
        let text = format!("{:04}-06-15T12:00:00Z", year);
        assert_eq!(parse_year(&text), year);
    }
}
