use ip_notify::config::{parse_channel_id, parse_check_frequency, Config, EnvValue};
use ip_notify::error::Error;

#[test]
fn parse_check_frequency_with_valid_value() {
    let result = parse_check_frequency("key", "100");
    assert_eq!(result, Ok(100));

    let result = parse_check_frequency("key", "200");
    assert_eq!(result, Ok(200));
}

#[test]
fn parse_check_frequency_with_invalid_value() {
    let result = parse_check_frequency("key", "");
    assert_eq!(result, Err(Error::VarNotValid("key".to_owned())));
}

#[test]
fn parse_channel_id_with_one_id() {
    let result = parse_channel_id("key", "100");
    assert_eq!(result, Ok(vec![100]));

    let result = parse_channel_id("key", "200");
    assert_eq!(result, Ok(vec![200]));
}

#[test]
fn parse_channel_id_with_multiple_ids() {
    let result = parse_channel_id("key", "100,200");
    assert_eq!(result, Ok(vec![100, 200]));
}

#[test]
fn parse_channel_id_with_invalid_id() {
    let result = parse_channel_id("key", "");
    assert_eq!(result, Err(Error::VarNotValid("key".to_owned())));

    let result = parse_channel_id("key", "100,invalid,300");
    assert_eq!(result, Err(Error::VarNotValid("key".to_owned())));
}

#[test]
fn parse_check_frequency_refuses_sign_zero_and_overflow() {
    assert_eq!(
        parse_check_frequency("key", "+5"),
        Err(Error::VarNotValid("key".to_owned()))
    );
    // the period must be positive
    assert_eq!(
        parse_check_frequency("key", "0"),
        Err(Error::VarNotValid("key".to_owned()))
    );
    assert_eq!(parse_check_frequency("key", "007"), Ok(7));
    assert_eq!(
        parse_check_frequency("key", "18446744073709551615"),
        Ok(u64::MAX)
    );
    assert_eq!(
        parse_check_frequency("key", "18446744073709551616"),
        Err(Error::VarNotValid("key".to_owned()))
    );
}

#[test]
fn config_new_keeps_fields() {
    let config = Config::new(60, "token".to_owned(), vec![1, 2]);
    assert_eq!(config.check_frequency, 60);
    assert_eq!(config.discord_token, "token".to_owned());
    assert_eq!(config.channel_id, vec![1, 2]);
}

#[test]
fn from_env_with_everything_set() {
    let config = Config::from_env(
        &EnvValue::Present("42".to_owned()),
        &EnvValue::Present("token".to_owned()),
        &EnvValue::Present("100,200".to_owned()),
    )
    .unwrap();
    assert_eq!(config.check_frequency, 42);
    assert_eq!(config.discord_token, "token".to_owned());
    assert_eq!(config.channel_id, vec![100, 200]);
}

#[test]
fn from_env_defaults_frequency_only_when_absent() {
    let config = Config::from_env(
        &EnvValue::Missing,
        &EnvValue::Present("token".to_owned()),
        &EnvValue::Present("100".to_owned()),
    )
    .unwrap();
    assert_eq!(config.check_frequency, 300);
}

#[test]
fn from_env_with_bad_frequency_fails() {
    // a set but malformed, zero, or non-text period is fatal at startup
    for frequency in [
        EnvValue::Present("not a number".to_owned()),
        EnvValue::Present("0".to_owned()),
        EnvValue::NotText,
    ] {
        let result = Config::from_env(
            &frequency,
            &EnvValue::Present("token".to_owned()),
            &EnvValue::Present("100".to_owned()),
        );
        match result {
            Err(Error::VarNotValid(key)) => assert_eq!(key, "CHECK_FREQUENCY".to_owned()),
            other => panic!("unexpected outcome: {:?}", other),
        }
    }
}

#[test]
fn from_env_without_token_fails() {
    let result = Config::from_env(
        &EnvValue::Missing,
        &EnvValue::Missing,
        &EnvValue::Present("100".to_owned()),
    );
    match result {
        Err(Error::VarNotPresent(key)) => assert_eq!(key, "DISCORD_TOKEN".to_owned()),
        other => panic!("unexpected outcome: {:?}", other),
    }
}

#[test]
fn from_env_with_bad_channel_list_fails() {
    let result = Config::from_env(
        &EnvValue::Missing,
        &EnvValue::Present("token".to_owned()),
        &EnvValue::Present("100,,200".to_owned()),
    );
    match result {
        Err(Error::VarNotValid(key)) => assert_eq!(key, "CHANNEL_ID".to_owned()),
        other => panic!("unexpected outcome: {:?}", other),
    }

    let result = Config::from_env(
        &EnvValue::Missing,
        &EnvValue::Present("token".to_owned()),
        &EnvValue::Missing,
    );
    match result {
        Err(Error::VarNotPresent(key)) => assert_eq!(key, "CHANNEL_ID".to_owned()),
        other => panic!("unexpected outcome: {:?}", other),
    }
}
