use yserver::cli::{parse_display, parse_u16, DEFAULT_DISPLAY};
use yserver::clock::server_time_ms;

fn parse(args: &[&str]) -> Result<u16, String> {
    let args: Vec<String> = args.iter().map(|s| (*s).to_string()).collect();
    parse_display(&args)
}

#[test]
fn no_args_is_default() {
    assert_eq!(parse(&[]).unwrap(), DEFAULT_DISPLAY);
    assert_eq!(DEFAULT_DISPLAY, 7);
}

#[test]
fn positional_display() {
    assert_eq!(parse(&["0"]).unwrap(), 0);
    assert_eq!(parse(&["42"]).unwrap(), 42);
}

#[test]
fn non_numeric_errors() {
    assert!(parse(&["foo"]).is_err());
    assert!(parse(&["--bogus"]).is_err());
}

#[test]
fn last_display_counts() {
    assert_eq!(parse(&["1", "2", "3"]).unwrap(), 3);
}

#[test]
fn first_bad_argument_is_named() {
    assert_eq!(parse(&["1", "x", "y"]).unwrap_err(), "unrecognized argument: x");
    assert_eq!(parse(&["-1"]).unwrap_err(), "unrecognized argument: -1");
    assert_eq!(parse(&[""]).unwrap_err(), "unrecognized argument: ");
}

#[test]
fn numbers_parse_as_std_does() {
    let texts = [
        "0", "7", "65535", "65536", "99999", "+5", "+", "-0", "00012", "000000000000065535", "1 ",
        " 1", "1_0", "0x10", "١", "4294967297", "18446744073709551616",
    ];
    for text in texts {
        assert_eq!(parse_u16(text), text.parse::<u16>().ok(), "{text:?}");
    }
}

#[test]
fn time_wraps_after_32_bits() {
    assert_eq!(server_time_ms(0), 0);
    assert_eq!(server_time_ms(0xffff_ffff), 0xffff_ffff);
    assert_eq!(server_time_ms(0x1_0000_0000), 0);
    assert_eq!(server_time_ms(0x1_0000_0000 + 1234), 1234);
}

#[test]
fn time_does_not_run_backwards() {
    assert!(server_time_ms(1000) <= server_time_ms(1001));
    assert!(server_time_ms(0) <= server_time_ms(0xffff_ffff));
}
