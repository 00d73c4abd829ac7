use ip_notify::dns_client::{validate, Dig, DigCommand};
use ip_notify::error::DnsError;

#[test]
fn can_execute_dig() {
    let dig_client = Dig::new(DigCommand::new());
    let result = dig_client.get_ip_addr(Ok(r#""0.0.0.0""#.to_owned()));
    assert_eq!(result, Ok("0.0.0.0".to_owned()));
}

#[test]
fn dig_is_not_executable() {
    let dig_client = Dig::new(DigCommand::new());
    let result = dig_client.get_ip_addr(Err(DnsError::CommandFailed("dig".to_owned())));
    assert_eq!(result, Err(DnsError::CommandFailed("dig".to_owned())));
}

#[test]
fn invalid_ip_addr() {
    let dig_client = Dig::new(DigCommand::new());
    let result = dig_client.get_ip_addr(Ok(r#""0000""#.to_owned()));
    assert_eq!(result, Err(DnsError::IpNotValid("0000".to_owned())));

    let dig_client = Dig::new(DigCommand::new());
    let result = dig_client.get_ip_addr(Ok(r#""255.255.255.256""#.to_owned()));
    assert_eq!(result, Err(DnsError::IpNotValid("255.255.255.256".to_owned())));
}

#[test]
fn validate_rejects_malformed_addresses() {
    assert!(!validate(""));
    assert!(!validate("999.1.1.1"));
    assert!(!validate("1.2.3"));
    assert!(!validate("1.2.3.4.5"));
    // leading-zero octets are refused: strict dotted-quad convention
    assert!(!validate("01.2.3.4"));
    assert!(!validate("1.2.3."));
    assert!(!validate(".1.2.3"));
    assert!(!validate("1..2.3"));
    assert!(!validate("256.0.0.1"));
    assert!(!validate("a.b.c.d"));
}

#[test]
fn validate_accepts_dotted_quads() {
    assert!(validate("0.0.0.0"));
    assert!(validate("255.255.255.255"));
    assert!(validate("203.0.113.7"));
    assert!(validate("198.51.100.23"));
}

#[test]
fn extraction_strips_quoting_artifacts() {
    assert_eq!(
        Dig::drop_double_quotes(r#""198.51.100.23""#.to_owned()),
        "198.51.100.23".to_owned()
    );
    assert_eq!(
        Dig::drop_double_quotes("198.51.100.23\n".to_owned()),
        "198.51.100.23".to_owned()
    );
    assert_eq!(Dig::drop_double_quotes("no address here".to_owned()), "".to_owned());
    assert_eq!(
        Dig::drop_double_quotes(" \"10.0.0.1\" extra 2".to_owned()),
        "10.0.0.1".to_owned()
    );
}

#[test]
fn gen_command_is_the_fixed_lookup() {
    let command = DigCommand::new().gen_command();
    assert_eq!(
        command,
        vec![
            "dig".to_owned(),
            "-4".to_owned(),
            "@ns1.google.com".to_owned(),
            "o-o.myaddr.l.google.com".to_owned(),
            "TXT".to_owned(),
            "+short".to_owned(),
        ]
    );
}
