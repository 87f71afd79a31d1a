use davbox::cli::{parse_command, Command, ServeArgs};

fn strings(items: &[&str]) -> Vec<String> {
    items.iter().map(|s| s.to_string()).collect()
}

#[test]
fn parses_serve_args() {
    let args = ["~/Movies", "--port", "9000", "--read-only", "--no-auth"].map(String::from);
    let parsed = ServeArgs::parse(&args).unwrap();
    assert_eq!(parsed.target, "~/Movies");
    assert_eq!(parsed.port, Some(9000));
    assert_eq!(parsed.read_only, Some(true));
    assert!(parsed.no_auth);
}

#[test]
fn serve_args_take_every_option() {
    let args = strings(&[
        "docs", "--host", "127.0.0.1", "--name", "Docs", "--user", "me", "--password", "pw",
        "--no-tui", "--config", "./d.toml",
    ]);
    let parsed = ServeArgs::parse(&args).unwrap();
    assert_eq!(parsed.target, "docs");
    assert_eq!(parsed.host.as_deref(), Some("127.0.0.1"));
    assert_eq!(parsed.name.as_deref(), Some("Docs"));
    assert_eq!(parsed.user.as_deref(), Some("me"));
    assert_eq!(parsed.password.as_deref(), Some("pw"));
    assert_eq!(parsed.tui, Some(false));
    assert_eq!(parsed.config_path.as_deref(), Some("./d.toml"));
    assert_eq!(parsed.port, None);
    assert!(!parsed.no_auth);
}

#[test]
fn serve_args_missing_value_is_an_error() {
    let err = ServeArgs::parse(&strings(&["x", "--port"])).unwrap_err();
    assert!(err.contains("--port"));
}

#[test]
fn serve_args_reject_bad_port() {
    assert!(ServeArgs::parse(&strings(&["x", "--port", "70000"])).is_err());
    assert!(ServeArgs::parse(&strings(&["x", "--port", "abc"])).is_err());
}

#[test]
fn serve_args_reject_unknown_option() {
    assert!(ServeArgs::parse(&strings(&["x", "--bogus"])).is_err());
}

#[test]
fn commands_are_recognised() {
    assert!(matches!(parse_command(&strings(&[])), Ok(Command::Help)));
    assert!(matches!(parse_command(&strings(&["--help"])), Ok(Command::Help)));
    assert!(matches!(parse_command(&strings(&["--version"])), Ok(Command::Version)));
    assert!(matches!(parse_command(&strings(&["config", "path"])), Ok(Command::ConfigPath)));
    match parse_command(&strings(&["config", "init", "--config", "a.toml"])) {
        Ok(Command::ConfigInit(Some(p))) => assert_eq!(p, "a.toml"),
        _ => panic!("expected config init"),
    }
    match parse_command(&strings(&["config", "show"])) {
        Ok(Command::ConfigShow(None)) => {}
        _ => panic!("expected config show"),
    }
    match parse_command(&strings(&["serve", "~/Movies", "--read-only"])) {
        Ok(Command::Serve(rest)) => assert_eq!(rest, strings(&["~/Movies", "--read-only"])),
        _ => panic!("expected serve"),
    }
    assert!(parse_command(&strings(&["frobnicate"])).is_err());
    assert!(parse_command(&strings(&["config", "nope"])).is_err());
}

#[test]
fn serve_args_need_exactly_one_target() {
    assert_eq!(
        ServeArgs::parse(&strings(&["--read-only"])).unwrap_err(),
        "Missing folder or profile. Try: davbox serve ~/Movies"
    );
    assert_eq!(
        ServeArgs::parse(&strings(&["a", "b"])).unwrap_err(),
        "Only one folder or profile can be served at a time"
    );
}

#[test]
fn subcommand_help_flags_ask_for_help() {
    assert!(matches!(parse_command(&strings(&["serve", "--help"])), Ok(Command::Help)));
    assert!(matches!(parse_command(&strings(&["serve", "-h"])), Ok(Command::Help)));
    assert!(matches!(parse_command(&strings(&["config", "--help"])), Ok(Command::Help)));
    assert!(matches!(parse_command(&strings(&["config", "-h"])), Ok(Command::Help)));
}
