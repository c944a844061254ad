use solana_chainlink::decimal::Decimal;
use solana_chainlink::fetch::execute;
use solana_chainlink::fetch::FetchError;

#[test]
fn stores_reading_and_logs_price() {
    let mut record = Decimal::new(0, 0);
    let log = execute(
        &mut record,
        Some(205000000000),
        Some(8),
        Some(String::from("SOL / USD")),
    );
    assert_eq!(record.value, 205000000000);
    assert_eq!(record.decimals, 8);
    assert_eq!(log, Ok(String::from("SOL / USD price is 2050.00000000")));
}

#[test]
fn overwrites_prior_record_content() {
    let mut record = Decimal::new(-77, 19);
    let log = execute(&mut record, Some(12345), Some(2), Some(String::from("A / B")));
    assert_eq!(record.value, 12345);
    assert_eq!(record.decimals, 2);
    assert_eq!(log, Ok(String::from("A / B price is 123.45")));
}

#[test]
fn missing_answer_leaves_record_untouched() {
    let mut record = Decimal::new(0, 0);
    let log = execute(&mut record, None, Some(8), Some(String::from("SOL / USD")));
    assert_eq!(log, Err(FetchError::OracleUnavailable));
    assert_eq!(record.value, 0);
    assert_eq!(record.decimals, 0);
}

#[test]
fn missing_decimals_leaves_record_untouched() {
    let mut record = Decimal::new(41, 3);
    let log = execute(&mut record, Some(7), None, Some(String::from("SOL / USD")));
    assert_eq!(log, Err(FetchError::OracleUnavailable));
    assert_eq!(record.value, 41);
    assert_eq!(record.decimals, 3);
}

#[test]
fn missing_description_leaves_record_untouched() {
    let mut record = Decimal::new(41, 3);
    let log = execute(&mut record, Some(7), Some(2), None);
    assert_eq!(log, Err(FetchError::OracleUnavailable));
    assert_eq!(record.value, 41);
    assert_eq!(record.decimals, 3);
}
