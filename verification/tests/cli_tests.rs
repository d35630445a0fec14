use proc_monitor::cli::{parse_args, CliArgs, CliError};

fn argv(items: &[&str]) -> Vec<String> {
    items.iter().map(|s| s.to_string()).collect()
}

fn flags(c: &CliArgs) -> (bool, bool, bool) {
    (c.log_to_file, c.is_background, c.show_help)
}

#[test]
fn default_has_no_flag() {
    let c = CliArgs::default();
    assert_eq!(flags(&c), (false, false, false));
}

#[test]
fn no_option_gives_defaults() {
    let c = parse_args(&argv(&["proc_monitor"])).ok().unwrap();
    assert_eq!(flags(&c), (false, false, false));
}

#[test]
fn background_also_logs_to_file() {
    for opt in ["-b", "--background"] {
        let c = parse_args(&argv(&["proc_monitor", opt])).ok().unwrap();
        assert_eq!(flags(&c), (true, true, false));
    }
}

#[test]
fn log_file_option() {
    for opt in ["-l", "--log_file"] {
        let c = parse_args(&argv(&["proc_monitor", opt])).ok().unwrap();
        assert_eq!(flags(&c), (true, false, false));
    }
}

#[test]
fn help_option() {
    for opt in ["-h", "--help"] {
        let c = parse_args(&argv(&["proc_monitor", opt])).ok().unwrap();
        assert_eq!(flags(&c), (false, false, true));
    }
}

#[test]
fn options_combine_in_any_order() {
    let a = parse_args(&argv(&["p", "-h", "-l", "-h"])).ok().unwrap();
    let b = parse_args(&argv(&["p", "-l", "--help"])).ok().unwrap();
    assert_eq!(flags(&a), (true, false, true));
    assert_eq!(flags(&a), flags(&b));
}

#[test]
fn unknown_argument_is_refused() {
    match parse_args(&argv(&["p", "-l", "--verbose", "-x"])) {
        Err(CliError::UnknownArgument(a)) => assert_eq!(a, "--verbose"),
        Ok(_) => panic!("accepted an unknown argument"),
    }
}

#[test]
fn options_are_case_sensitive() {
    assert!(parse_args(&argv(&["p", "-B"])).is_err());
    assert!(parse_args(&argv(&["p", "--Help"])).is_err());
}

#[test]
fn program_name_is_not_an_option() {
    let c = parse_args(&argv(&["-x"])).ok().unwrap();
    assert_eq!(flags(&c), (false, false, false));
}
