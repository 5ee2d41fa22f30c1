use formatter::cli::{parse_args, parse_width, Invocation};

fn line(words: &[&str]) -> Vec<String> {
    words.iter().map(|w| w.to_string()).collect()
}

#[test]
fn width_reads_decimal_digits() {
    assert_eq!(parse_width("5"), Some(5));
    assert_eq!(parse_width("+12"), Some(12));
    assert_eq!(parse_width("007"), Some(7));
}

#[test]
fn width_rejects_non_numbers() {
    assert_eq!(parse_width(""), None);
    assert_eq!(parse_width("+"), None);
    assert_eq!(parse_width("-3"), None);
    assert_eq!(parse_width("4a"), None);
    assert_eq!(parse_width(" 4"), None);
}

#[test]
fn width_rejects_overflow() {
    let max = usize::MAX.to_string();
    assert_eq!(parse_width(&max), Some(usize::MAX));
    let over = format!("{}0", max);
    assert_eq!(parse_width(&over), None);
}

#[test]
fn only_program_name_is_no_command() {
    assert!(matches!(parse_args(&line(&["formatter"])), Invocation::NoCommand));
    assert!(matches!(parse_args(&line(&[])), Invocation::NoCommand));
}

#[test]
fn options_without_command_is_no_command() {
    let r = parse_args(&line(&["formatter", "--prefix", "x"]));
    assert!(matches!(r, Invocation::NoCommand));
}

#[test]
fn help_wins_wherever_it_stands() {
    assert!(matches!(parse_args(&line(&["formatter", "-h"])), Invocation::Help));
    let r = parse_args(&line(&["formatter", "ls", "--help", "-l"]));
    assert!(matches!(r, Invocation::Help));
}

#[test]
fn options_and_command_are_read() {
    let r = parse_args(&line(&[
        "formatter", "--prefix", "> ", "--width", "8", "ls", "-l", "--suffix", "<", "/tmp",
    ]));
    match r {
        Invocation::Run(cfg) => {
            assert_eq!(cfg.prefix, "> ");
            assert_eq!(cfg.suffix, "<");
            assert_eq!(cfg.width, 8);
            assert_eq!(cfg.cmd, "ls");
            assert_eq!(cfg.args, vec!["-l".to_string(), "/tmp".to_string()]);
            assert_eq!(cfg.header, "");
        }
        _ => panic!("expected a command to run"),
    }
}

#[test]
fn decoration_options_are_read() {
    let r = parse_args(&line(&[
        "formatter", "--header", "==", "--footer", "--", "--line-breaker", "+", "echo",
    ]));
    match r {
        Invocation::Run(cfg) => {
            assert_eq!(cfg.header, "==");
            assert_eq!(cfg.footer, "--");
            assert_eq!(cfg.line_breaker, "+");
            assert_eq!(cfg.cmd, "echo");
            assert!(cfg.args.is_empty());
        }
        _ => panic!("expected a command to run"),
    }
}

#[test]
fn option_without_value_is_reported() {
    match parse_args(&line(&["formatter", "ls", "--width"])) {
        Invocation::MissingValue(flag) => assert_eq!(flag, "--width"),
        _ => panic!("expected a missing value"),
    }
}

#[test]
fn dash_argument_before_command_is_improper() {
    match parse_args(&line(&["formatter", "-x", "ls"])) {
        Invocation::ImproperArgument(arg) => assert_eq!(arg, "-x"),
        _ => panic!("expected an improper argument"),
    }
}

#[test]
fn bad_width_is_reported() {
    match parse_args(&line(&["formatter", "--width", "wide", "ls"])) {
        Invocation::InvalidWidth(value) => assert_eq!(value, "wide"),
        _ => panic!("expected an invalid width"),
    }
}
