use shelly_web::options::{apply_command_line, get_run_options, RunOptions};
use shelly_web::text::{parse_u16, parse_unsigned_decimal, parse_usize, same_text};
use shelly_web::RunOptions as PlainRunOptions;

fn strings(items: &[&str]) -> Vec<String> {
    items.iter().map(|s| s.to_string()).collect()
}

#[test]
fn parse_u16_follows_std_rules() {
    for text in ["0", "8080", "+80", "65535", "007", "", "+", "-1", " 80", "80 ", "65536", "8o", "++1"] {
        assert_eq!(parse_u16(text), text.parse::<u16>().ok(), "text {:?}", text);
    }
}

#[test]
fn parse_usize_follows_std_rules() {
    for text in ["0", "1024", "+5", "18446744073709551615", "18446744073709551616", "", "-0", "1_000", "00000000000000000000042"] {
        assert_eq!(parse_usize(text), text.parse::<usize>().ok(), "text {:?}", text);
    }
}

#[test]
fn parse_unsigned_decimal_limit() {
    assert_eq!(parse_unsigned_decimal("100", 100), Some(100));
    assert_eq!(parse_unsigned_decimal("101", 100), None);
    assert_eq!(parse_unsigned_decimal("1000000000000000000000x", 100), None);
}

#[test]
fn same_text_compares_characters() {
    assert!(same_text("--port", "--port"));
    assert!(!same_text("--port", "--por"));
    assert!(!same_text("-p", "-a"));
    assert!(same_text("", ""));
}

#[test]
fn plain_run_options_new() {
    let options = PlainRunOptions::new(Some("9000".to_string()), Some("512".to_string()), None);
    assert_eq!(options.port, 9000);
    assert_eq!(options.archive, Some(512));
    assert_eq!(options.authorization, None);
    let fallback = PlainRunOptions::new(Some("port".to_string()), Some("big".to_string()), Some("a".to_string()));
    assert_eq!(fallback.port, 8080);
    assert_eq!(fallback.archive, None);
    assert_eq!(fallback.authorization, Some("a".to_string()));
    let none = PlainRunOptions::new(None, None, None);
    assert_eq!(none.port, 8080);
    assert_eq!(none.archive, None);
    let cloned = fallback.clone();
    assert_eq!(cloned.authorization, Some("a".to_string()));
}

#[test]
fn add_port_and_archive() {
    let mut options = RunOptions::default();
    options.add_port(Some("1234".to_string()));
    assert_eq!(options.port, 1234);
    options.add_port(Some("70000".to_string()));
    assert_eq!(options.port, 1234);
    options.add_port(None);
    assert_eq!(options.port, 1234);
    options.add_archive(Some("0".to_string()));
    assert_eq!(options.archive, Some(0));
    options.add_archive(Some("x".to_string()));
    assert_eq!(options.archive, Some(0));
}

#[test]
fn default_options() {
    let options = RunOptions::default();
    assert_eq!(options.port, 8080);
    assert_eq!(options.archive, None);
    assert_eq!(options.host, None);
    assert_eq!(options.authentication, None);
    assert_eq!(options.shelly_api_url, None);
}

#[test]
fn command_line_flags() {
    let mut options = RunOptions::default();
    apply_command_line(
        &mut options,
        &strings(&["-p", "81", "--archive", "100", "--auth", "tok", "--shelly-api-url", "10.0.0.2", "--host", "0.0.0.0", "stray"]),
    );
    assert_eq!(options.port, 81);
    assert_eq!(options.archive, Some(100));
    assert_eq!(options.authentication, Some("tok".to_string()));
    assert_eq!(options.shelly_api_url, Some("10.0.0.2".to_string()));
    assert_eq!(options.host, Some("0.0.0.0".to_string()));
}

#[test]
fn command_line_last_flag_wins_and_missing_value() {
    let mut options = RunOptions::default();
    apply_command_line(&mut options, &strings(&["--host", "a", "--host", "b", "-a", "7", "--auth"]));
    assert_eq!(options.host, Some("b".to_string()));
    assert_eq!(options.archive, Some(7));
    assert_eq!(options.authentication, None);
    let mut options = RunOptions::default();
    apply_command_line(&mut options, &strings(&["--port"]));
    assert_eq!(options.port, 8080);
}

#[test]
fn flag_consumes_next_argument() {
    let mut options = RunOptions::default();
    apply_command_line(&mut options, &strings(&["--auth", "--host", "x"]));
    assert_eq!(options.authentication, Some("--host".to_string()));
    assert_eq!(options.host, None);
}

#[test]
fn get_run_options_sources() {
    let config = RunOptions {
        host: Some("127.0.0.1".to_string()),
        port: 5000,
        archive: Some(10),
        authentication: Some("config".to_string()),
        shelly_api_url: Some("plug".to_string()),
    };
    let only_config = get_run_options(Some(config.clone()), None, strings(&["shelly_web"]));
    assert_eq!(only_config.port, 5000);
    assert_eq!(only_config.authentication, Some("config".to_string()));
    let with_env = get_run_options(Some(config.clone()), Some("env".to_string()), strings(&["shelly_web"]));
    assert_eq!(with_env.authentication, Some("env".to_string()));
    assert_eq!(with_env.host, Some("127.0.0.1".to_string()));
    let with_args = get_run_options(
        Some(config),
        Some("env".to_string()),
        strings(&["shelly_web", "--auth", "arg", "-p", "6000"]),
    );
    assert_eq!(with_args.authentication, Some("arg".to_string()));
    assert_eq!(with_args.port, 6000);
    let defaults = get_run_options(None, None, strings(&["--port", "1"]));
    assert_eq!(defaults.port, 8080);
    let empty = get_run_options(None, None, Vec::new());
    assert_eq!(empty.port, 8080);
}
