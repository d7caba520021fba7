use capellix::error::Error;
use capellix::fan::{parse_fan_target, Fan, DEFAULT_FAN_TARGET};

#[test]
fn fan_index_accepts_zero_through_seven() {
    for v in 0u8..=7 {
        let fan = Fan::from_index(v).expect("index in range");
        assert_eq!(fan.index(), v);
    }
    assert_eq!(Fan::from_index(0), Ok(Fan::Pump));
    assert_eq!(Fan::from_index(1), Ok(Fan::Fan(0)));
    assert_eq!(Fan::from_index(7), Ok(Fan::Fan(6)));
}

#[test]
fn fan_index_rejects_eight_and_above() {
    assert_eq!(Fan::from_index(8), Err(Error::InvalidFan));
    assert_eq!(Fan::from_index(9), Err(Error::InvalidFan));
    assert_eq!(Fan::from_index(255), Err(Error::InvalidFan));
}

#[test]
fn fan_index_is_injective() {
    let mut seen = [false; 8];
    for v in 0u8..=7 {
        let fan = Fan::from_index(v).unwrap();
        let idx = fan.index() as usize;
        assert!(!seen[idx]);
        seen[idx] = true;
    }
    assert!(seen.iter().all(|s| *s));
}

#[test]
fn fan_tokens_accept_exactly_the_seven_defined() {
    assert_eq!(Fan::from_token("pump"), Ok(Fan::Pump));
    assert_eq!(Fan::from_token("fan1"), Ok(Fan::Fan(0)));
    assert_eq!(Fan::from_token("fan2"), Ok(Fan::Fan(1)));
    assert_eq!(Fan::from_token("fan3"), Ok(Fan::Fan(2)));
    assert_eq!(Fan::from_token("fan4"), Ok(Fan::Fan(3)));
    assert_eq!(Fan::from_token("fan5"), Ok(Fan::Fan(4)));
    assert_eq!(Fan::from_token("fan6"), Ok(Fan::Fan(5)));
}

#[test]
fn fan_tokens_reject_everything_else() {
    for bad in ["", "pump ", "Pump", "fan0", "fan7", "fan", "fan10", "7", "pumpx"] {
        assert_eq!(Fan::from_token(bad), Err(Error::InvalidFan), "token {:?}", bad);
    }
}

#[test]
fn fan_target_file_reads_plain_decimal() {
    assert_eq!(parse_fan_target("50\n"), Some(50));
    assert_eq!(parse_fan_target("50"), Some(50));
    assert_eq!(parse_fan_target("0\n"), Some(0));
    assert_eq!(parse_fan_target("100\n"), Some(100));
    assert_eq!(parse_fan_target("007"), Some(7));
}

#[test]
fn fan_target_above_100_clamps_to_100() {
    assert_eq!(parse_fan_target("150\n"), Some(100));
    assert_eq!(parse_fan_target("101"), Some(100));
    assert_eq!(parse_fan_target("65535\n"), Some(100));
}

#[test]
fn fan_target_malformed_yields_none_for_healing() {
    for bad in ["", "\n", "12a", "a12", "1 2", "-5", "65536", "184467440737095516150", " 50"] {
        assert_eq!(parse_fan_target(bad), None, "contents {:?}", bad);
    }
}

#[test]
fn fan_target_default_is_full_duty() {
    assert_eq!(DEFAULT_FAN_TARGET, 100);
}
