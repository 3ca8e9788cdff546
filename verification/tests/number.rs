use near_store::number::{
    check_float, decimal_string, is_float_literal, parse_i64, parse_u32, FloatFault, IntegerFault,
};

fn chars(s: &str) -> Vec<char> {
    s.chars().collect()
}

const INTEGERS: [&str; 33] = [
    "", "+", "-", "0", "00", "-0", "+0", "7", "+7", "-7", "--7", "+-7", "12a", " 12", "12 ", "1_0",
    "9223372036854775807", "9223372036854775808", "-9223372036854775808", "-9223372036854775809",
    "4294967295", "4294967296", "+0004294967295", "\u{0663}", "9223372036854775807x",
    "9223372036854775808x", "92233720368547758070x", "-9223372036854775808x",
    "-92233720368547758080x", "4294967295x", "42949672950x", "+4294967296-", "-4294967296",
];

/// The fault of the standard library that stands for the same.
fn kind_of(fault: IntegerFault) -> std::num::IntErrorKind {
    match fault {
        IntegerFault::Empty => std::num::IntErrorKind::Empty,
        IntegerFault::InvalidDigit => std::num::IntErrorKind::InvalidDigit,
        IntegerFault::PosOverflow => std::num::IntErrorKind::PosOverflow,
        IntegerFault::NegOverflow => std::num::IntErrorKind::NegOverflow,
    }
}

#[test]
fn integers_are_read_as_the_standard_library_reads_them() {
    for text in INTEGERS {
        assert_eq!(
            parse_i64(&chars(text)).map_err(kind_of),
            text.parse::<i64>().map_err(|e| e.kind().clone()),
            "{text:?}"
        );
        assert_eq!(
            parse_u32(&chars(text)).map_err(kind_of),
            text.parse::<u32>().map_err(|e| e.kind().clone()),
            "{text:?}"
        );
    }
}

#[test]
fn each_fault_of_an_integer() {
    assert_eq!(parse_i64(&[]), Err(IntegerFault::Empty));
    assert_eq!(parse_i64(&chars("-")), Err(IntegerFault::InvalidDigit));
    assert_eq!(parse_i64(&chars("9223372036854775808")), Err(IntegerFault::PosOverflow));
    assert_eq!(parse_i64(&chars("-9223372036854775809")), Err(IntegerFault::NegOverflow));
    assert_eq!(parse_u32(&[]), Err(IntegerFault::Empty));
    assert_eq!(parse_u32(&chars("-1")), Err(IntegerFault::InvalidDigit));
    assert_eq!(parse_u32(&chars("4294967296")), Err(IntegerFault::PosOverflow));
}

#[test]
fn float_literals_are_those_of_the_standard_library() {
    let mut texts: Vec<String> = vec![];
    for sign in ["", "+", "-", "+-"] {
        for whole in ["", "0", "12", "007", "1_0", " 1", "x"] {
            for fraction in ["", ".", ".5", ".50e", ".x", "..", ".5.5"] {
                for exponent in ["", "e", "e5", "E+5", "e-05", "e+", "e5.0", "ee5", "f"] {
                    texts.push(format!("{sign}{whole}{fraction}{exponent}"));
                }
            }
        }
        for word in ["inf", "INF", "Infinity", "infinit", "nan", "NaN", "nano", "in", "1inf"] {
            texts.push(format!("{sign}{word}"));
        }
    }
    for text in &texts {
        assert_eq!(is_float_literal(&chars(text)), text.parse::<f64>().is_ok(), "{text:?}");
        let fault = check_float(&chars(text)).map_err(|f| format!("ParseFloatError {{ kind: {f:?} }}"));
        let expected = text.parse::<f64>().map(|_| ()).map_err(|e| format!("{e:?}"));
        assert_eq!(fault, expected, "{text:?}");
    }
    assert_eq!(check_float(&[]), Err(FloatFault::Empty));
    assert_eq!(check_float(&['+']), Err(FloatFault::Invalid));
    assert_eq!(check_float(&['1']), Ok(()));
}

#[test]
fn numbers_are_written_in_decimal() {
    assert_eq!(decimal_string(0), "0");
    assert_eq!(decimal_string(9), "9");
    assert_eq!(decimal_string(10), "10");
    assert_eq!(decimal_string(1502), "1502");
    assert_eq!(decimal_string(u64::MAX), "18446744073709551615");
}

#[test]
fn written_numbers_are_read_back() {
    for n in [0u64, 1, 10, 99, 100, 65536, 4294967295] {
        assert_eq!(parse_u32(&chars(&decimal_string(n))), Ok(n as u32));
        assert_eq!(parse_i64(&chars(&decimal_string(n))), Ok(n as i64));
    }
}
