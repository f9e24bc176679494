//! Tests for argument parsing: flags, the worker-count value, the target
//! address, and the error messages.

use ip_sniffer::{Arguments, IpAddress, SnifferError};
use ip_sniffer::args::parse_i32;

fn toks(parts: &[&str]) -> Vec<String> {
    parts.iter().map(|s| s.to_string()).collect()
}

#[test]
fn jobs_flag_and_address() {
    let args = toks(&["-j", "8", "127.0.0.1"]);
    let a = Arguments::new(&args).unwrap();
    assert_eq!(a.num_threads(), 8);
    assert_eq!(a.ip_addr(), IpAddress::V4(127, 0, 0, 1));
}

#[test]
fn address_alone_defaults_to_four_workers() {
    let args = toks(&["10.0.0.7"]);
    let a = Arguments::new(&args).unwrap();
    assert_eq!(a.num_threads(), 4);
    assert_eq!(a.ip_addr(), IpAddress::V4(10, 0, 0, 7));
}

#[test]
fn help_flags() {
    for flag in ["--help", "-h"] {
        let args = toks(&[flag]);
        assert!(matches!(Arguments::new(&args), Err(SnifferError::Help)));
        let args = toks(&["-j", "2", flag, "127.0.0.1"]);
        assert!(matches!(Arguments::new(&args), Err(SnifferError::Help)));
    }
}

#[test]
fn second_positional_token_is_invalid() {
    let args = toks(&["127.0.0.1", "127.0.0.2"]);
    match Arguments::new(&args) {
        Err(SnifferError::InvalidArgs(t)) => assert_eq!(t, "127.0.0.2"),
        other => panic!("unexpected result: {:?}", other),
    }
}

#[test]
fn missing_address() {
    let args = toks(&["-j", "8"]);
    match Arguments::new(&args) {
        Err(SnifferError::MissingArg(t)) => assert_eq!(t, "ip_addr"),
        other => panic!("unexpected result: {:?}", other),
    }
}

#[test]
fn no_arguments_at_all() {
    let args: Vec<String> = Vec::new();
    assert!(matches!(Arguments::new(&args), Err(SnifferError::NotEnoughArgs)));
}

#[test]
fn unparsable_worker_count() {
    let args = toks(&["-j", "notanumber", "127.0.0.1"]);
    match Arguments::new(&args) {
        Err(SnifferError::InvalidArgs(t)) => assert_eq!(t, "notanumber"),
        other => panic!("unexpected result: {:?}", other),
    }
}

#[test]
fn jobs_flag_without_value() {
    let args = toks(&["127.0.0.1", "-j"]);
    match Arguments::new(&args) {
        Err(SnifferError::MissingArg(t)) => assert_eq!(t, "-j"),
        other => panic!("unexpected result: {:?}", other),
    }
}

#[test]
fn later_jobs_flag_wins() {
    let args = toks(&["-j", "3", "-j", "12", "192.168.1.9"]);
    let a = Arguments::new(&args).unwrap();
    assert_eq!(a.num_threads(), 12);
}

#[test]
fn negative_and_zero_worker_counts_are_accepted() {
    for (v, n) in [("-3", -3), ("0", 0), ("+7", 7)] {
        let args = toks(&["-j", v, "127.0.0.1"]);
        let a = Arguments::new(&args).unwrap();
        assert_eq!(a.num_threads(), n);
    }
}

#[test]
fn unknown_flag_is_invalid() {
    let args = toks(&["-x", "127.0.0.1"]);
    match Arguments::new(&args) {
        Err(SnifferError::InvalidArgs(t)) => assert_eq!(t, "-x"),
        other => panic!("unexpected result: {:?}", other),
    }
}

#[test]
fn ipv6_address_accepted() {
    let args = toks(&["::1"]);
    let a = Arguments::new(&args).unwrap();
    assert_eq!(a.ip_addr(), IpAddress::V6(0, 0, 0, 0, 0, 0, 0, 1));
}

#[test]
fn parse_i32_values() {
    assert_eq!(parse_i32("0"), Some(0));
    assert_eq!(parse_i32("42"), Some(42));
    assert_eq!(parse_i32("007"), Some(7));
    assert_eq!(parse_i32("-15"), Some(-15));
    assert_eq!(parse_i32("+15"), Some(15));
    assert_eq!(parse_i32("2147483647"), Some(2147483647));
    assert_eq!(parse_i32("-2147483648"), Some(-2147483648));
}

#[test]
fn parse_i32_rejections() {
    assert_eq!(parse_i32(""), None);
    assert_eq!(parse_i32("-"), None);
    assert_eq!(parse_i32("+"), None);
    assert_eq!(parse_i32("12a"), None);
    assert_eq!(parse_i32("2147483648"), None);
    assert_eq!(parse_i32("-2147483649"), None);
    assert_eq!(parse_i32("99999999999999999999"), None);
    assert_eq!(parse_i32(" 1"), None);
}

#[test]
fn error_messages() {
    assert_eq!(SnifferError::NotEnoughArgs.message(), "Not enough arguments");
    assert_eq!(
        SnifferError::InvalidArgs("bogus".to_string()).message(),
        "Invalid argument: bogus"
    );
    assert_eq!(
        SnifferError::MissingArg("ip_addr".to_string()).message(),
        "Missing argument for: ip_addr"
    );
    assert_eq!(SnifferError::Help.message(), "help");
}
