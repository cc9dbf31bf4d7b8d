use sheep_shed::apigw::SimpleError;
use sheep_shed::backend::classify_conditional_delete;
use sheep_shed::backend::classify_conditional_put;
use sheep_shed::backend::classify_scan_failure;
use sheep_shed::errors::Error;
use sheep_shed::handlers::get_count;
use sheep_shed::handlers::insert_sheep;
use sheep_shed::parse::parse_u64;
use sheep_shed::shed::MemorySheepShed;
use sheep_shed::shed::SheepShed;
use sheep_shed::sheep::Tattoo;

#[test]
fn decimal_numbers_parse() {
    assert_eq!(parse_u64("0"), Some(0));
    assert_eq!(parse_u64("123"), Some(123));
    assert_eq!(parse_u64("+5"), Some(5));
    assert_eq!(parse_u64("007"), Some(7));
    assert_eq!(parse_u64("18446744073709551615"), Some(u64::MAX));
}

#[test]
fn malformed_numbers_do_not_parse() {
    assert_eq!(parse_u64(""), None);
    assert_eq!(parse_u64("+"), None);
    assert_eq!(parse_u64("abc"), None);
    assert_eq!(parse_u64("12x"), None);
    assert_eq!(parse_u64("-3"), None);
    assert_eq!(parse_u64(" 12"), None);
    // one past the largest u64
    assert_eq!(parse_u64("18446744073709551616"), None);
}

#[test]
fn insert_sheep_accepts_a_decimal_tattoo() {
    let mut shed = MemorySheepShed::default();
    let s = insert_sheep(&mut shed, "42").unwrap();
    assert_eq!(s.tattoo, Tattoo(42));
    assert!(s.weight.as_ug() >= 80_000_000_000);
    assert!(s.weight.as_ug() < 160_000_000_000);
    assert_eq!(shed.sheep_count().unwrap(), 1);
}

#[test]
fn insert_sheep_rejects_a_malformed_tattoo() {
    let mut shed = MemorySheepShed::default();
    let e = insert_sheep(&mut shed, "forty-two").unwrap_err();
    assert!(
        matches!(e, SimpleError::InvalidInput(m) if m == "Tattoo parameter forty-two could not be parsed")
    );
    assert_eq!(shed.sheep_count().unwrap(), 0);
}

#[test]
fn insert_sheep_rejects_a_duplicated_tattoo() {
    let mut shed = MemorySheepShed::default();
    insert_sheep(&mut shed, "7").unwrap();
    let e = insert_sheep(&mut shed, "7").unwrap_err();
    assert!(matches!(e, SimpleError::InvalidInput(m) if m == "Sheep already in the shed: 7"));
    assert_eq!(shed.sheep_count().unwrap(), 1);
}

#[test]
fn count_handler_reports_the_flock() {
    let mut shed = MemorySheepShed::default();
    assert_eq!(get_count(&shed).unwrap(), 0);
    insert_sheep(&mut shed, "1").unwrap();
    insert_sheep(&mut shed, "2").unwrap();
    assert_eq!(get_count(&shed).unwrap(), 2);
}

#[test]
fn conditional_write_outcomes_classify() {
    let e = classify_conditional_put(true, "unused".to_string(), Tattoo(3));
    assert!(matches!(e, Error::SheepDuplicationError(Tattoo(3))));
    let e = classify_conditional_put(false, "wire fault".to_string(), Tattoo(3));
    assert!(matches!(e, Error::GenericError(m) if m == "wire fault"));
    let e = classify_conditional_delete(true, "unused".to_string(), Tattoo(4));
    assert!(matches!(e, Error::SheepNotPresent(Tattoo(4))));
    let e = classify_conditional_delete(false, "throttled".to_string(), Tattoo(4));
    assert!(matches!(e, Error::GenericError(m) if m == "throttled"));
    let e = classify_scan_failure("segment died".to_string());
    assert!(matches!(e, Error::GenericError(m) if m == "segment died"));
}
