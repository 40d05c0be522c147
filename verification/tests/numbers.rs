use cyborgpl::numeral::{capped_whole_value, decimal_text, pointed_numeral, shown_numeral, whole_number};
use cyborgpl::numw::{magnitude_of, number_word_value, parse_numw_string};

fn words(s: &str) -> String {
    parse_numw_string(s).unwrap_or_else(|e| panic!("{e}"))
}

#[test]
fn magnitude_words_scale() {
    assert_eq!(words("1 thousand"), "1000");
    assert_eq!(words("1 million"), "1000000");
    assert_eq!(words("1 billion"), "1000000000");
    assert_eq!(words("1 trillion"), "1000000000000");
    assert_eq!(words("1 quadrillion"), "1000000000000000");
    assert_eq!(words("1 quintillion"), "1000000000000000000");
}

#[test]
fn decimals_and_negatives_scale_exactly() {
    assert_eq!(words("-2.5 billion"), "-2500000000");
    assert_eq!(words("0.0005 thousand"), "0.5");
    assert_eq!(words("1.2345 thousand"), "1234.5");
    assert_eq!(words("1,500 thousand"), "1500000");
}

#[test]
fn a_number_without_a_word_is_that_number() {
    assert_eq!(words("42"), "42");
    assert_eq!(words("  -7.25 "), "-7.25");
}

#[test]
fn words_in_any_case() {
    assert_eq!(words("3 MiLLion"), "3000000");
    assert_eq!(words("3   BILLION"), "3000000000");
}

#[test]
fn wrong_number_words() {
    assert_eq!(
        parse_numw_string("many million").err(),
        Some("invalid numw literal 'many million': 'many' isn't a number".to_string())
    );
    assert_eq!(
        parse_numw_string("5 Dozen").err(),
        Some("invalid numw literal '5 Dozen': unrecognized magnitude word 'dozen'".to_string())
    );
    assert_eq!(
        parse_numw_string(" 5 ÉON ").err(),
        Some("invalid numw literal '5 ÉON': unrecognized magnitude word 'éon'".to_string())
    );
    assert_eq!(parse_numw_string("").err(), Some("invalid numw literal '': '' isn't a number".to_string()));
    assert_eq!(parse_numw_string("1.2.3").err(), Some("invalid numw literal '1.2.3': '1.2.3' isn't a number".to_string()));
    assert_eq!(parse_numw_string("-").err(), Some("invalid numw literal '-': '-' isn't a number".to_string()));
}

#[test]
fn parts_of_a_number_word() {
    assert_eq!(number_word_value("5 k", "5", Some("million".to_string())), Ok("5000000".to_string()));
    assert_eq!(number_word_value("5", "5", None), Ok("5".to_string()));
    assert_eq!(magnitude_of("trillion"), Some(12));
    assert_eq!(magnitude_of("Trillion"), None);
}

#[test]
fn whole_numbers() {
    assert!(whole_number("5"));
    assert!(whole_number("5.000"));
    assert!(!whole_number("5.001"));
    assert_eq!(capped_whole_value("18446744073709551615"), 18446744073709551615);
    assert_eq!(capped_whole_value("99999999999999999999999"), 18446744073709551615);
    assert_eq!(capped_whole_value("0012.0"), 12);
}

#[test]
fn numbers_as_text() {
    assert_eq!(decimal_text(0), "0");
    assert_eq!(decimal_text(18446744073709551615), "18446744073709551615");
    assert_eq!(shown_numeral("007.50"), "7.5");
    assert_eq!(shown_numeral("5.0"), "5");
}

#[test]
fn numbers_with_a_point_or_an_exponent() {
    for text in [
        "0", "5", "007.50", "1000000000000000", "9000000000000000", "10000000000000000", "100000000000000000",
        "120000000000000000.0", "0.1", "0.0001", "0.00012", "0.00001", "0.0000123", "0.00009", "1.5", "123456.789",
    ] {
        let float: f64 = text.parse().unwrap();
        assert_eq!(pointed_numeral(text), format!("{float:?}"));
    }
}
