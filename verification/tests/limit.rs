use idiomatic::framecodec::Delta;
use idiomatic::limit::{decode, negate, Limit, LimitError};

#[test]
fn ordinary_values() {
    assert_eq!(decode("3").unwrap().get(), 3);
    assert_eq!(negate(Delta::new(2).unwrap()).unwrap().get(), -2);
}

#[test]
fn all_entry_paths_agree() {
    let ten = Limit::new(10);
    assert_eq!(ten.unwrap().get(), 10);
    for value in 0..=u8::MAX {
        let raw = value.to_string();
        let valid = value <= 10;
        assert_eq!(Limit::new(value).is_some(), valid, "constructor {value}");
        assert_eq!(raw.parse::<Limit>().is_ok(), valid, "parse {value}");
        assert_eq!(decode(&raw).is_ok(), valid, "decode {value}");
        if valid {
            assert_eq!(decode(&raw).unwrap().get(), value);
        }
    }
}

#[test]
fn malformed_input_is_rejected() {
    for raw in ["", "-1", "256", "1.5", "null", "{}", "[]", "\"3\""] {
        assert!(decode(raw).is_err(), "{raw}");
    }
}

#[test]
fn signed_limits_preserve_both_guarantees() {
    for value in [i32::MIN, i32::MIN + 1, -1, 1, i32::MAX] {
        assert_eq!(negate(Delta::new(value).unwrap()).map(Delta::get), value.checked_neg());
    }
}

#[test]
fn each_error_says_which_check_failed() {
    assert!(matches!(decode("11"), Err(LimitError::AboveMax(11))));
    assert!(matches!(decode("x"), Err(LimitError::Json(_))));
    assert!(matches!(Limit::parse("11"), Err(LimitError::AboveMax(11))));
    assert!(matches!(Limit::parse("256"), Err(LimitError::Number(_))));
    assert!(matches!(Limit::parse("x"), Err(LimitError::Number(_))));
    assert!(matches!(Limit::checked(200), Err(LimitError::AboveMax(200))));
    assert_eq!(Limit::checked(0).unwrap().get(), 0);
}

#[test]
fn the_text_routes_read_the_number_they_are_given() {
    assert_eq!(Limit::parse("7").unwrap().get(), 7);
    assert_eq!(Limit::parse("+7").unwrap().get(), 7);
    assert_eq!(Limit::parse("007").unwrap().get(), 7);
    assert_eq!(decode(" 7 ").unwrap().get(), 7);
    assert_eq!(decode("9").unwrap().get(), 9);
}

#[test]
fn the_json_route_takes_only_plain_unsigned_integers() {
    for raw in ["-0", "1.0", "1e0", "01", "+1", "0x1", "1 2", "\u{a0}1"] {
        assert!(matches!(decode(raw), Err(LimitError::Json(_))), "{raw}");
    }
    assert_eq!(decode("\t\r\n 0 \n").unwrap().get(), 0);
    assert_eq!(decode("10").unwrap().get(), 10);
    assert!(matches!(decode("255"), Err(LimitError::AboveMax(255))));
}
