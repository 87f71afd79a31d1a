use davbox::cli::ServeArgs;
use davbox::config::{
    config_path_in, expand_home, Config, ConfigError, EffectiveConfig, ServerConfig,
    EXAMPLE_CONFIG,
};

#[test]
fn parses_profile_config() {
    let source = r#"
[server]
port = 8080
read_only = false

[profiles.movies]
path = "~/Movies"
port = 9000
read_only = true
"#;
    let config = Config::parse(source).unwrap();
    let profile = config.profiles.get("movies").unwrap();
    assert_eq!(profile.port, Some(9000));
    assert_eq!(profile.read_only, Some(true));
}

#[test]
fn cli_overrides_profile() {
    let config = Config::parse(
        r#"
[profiles.movies]
path = "~/Movies"
port = 9000
read_only = true
"#,
    )
    .unwrap();
    let args = ServeArgs {
        target: "movies".to_string(),
        port: Some(7000),
        read_only: Some(false),
        no_auth: true,
        ..ServeArgs::default()
    };
    let effective = EffectiveConfig::from_inputs(config, args, &[], "/home/alice").unwrap();
    assert_eq!(effective.server.port, 7000);
    assert!(!effective.server.read_only);
    assert!(!effective.auth.enabled);
}

#[test]
fn profile_overrides_config_file() {
    let config = Config::parse(
        "[server]\nport = 8000\nread_only = false\n[profiles.movies]\npath = \"~/Movies\"\nport = 9000\nread_only = true\n",
    )
    .unwrap();
    let args = ServeArgs { target: "movies".to_string(), no_auth: true, ..ServeArgs::default() };
    let effective = EffectiveConfig::from_inputs(config, args, &[], "/home/alice").unwrap();
    assert_eq!(effective.server.port, 9000);
    assert!(effective.server.read_only);
    assert_eq!(effective.folder, "/home/alice/Movies");
}

#[test]
fn folder_target_is_served_as_given() {
    let args = ServeArgs { target: "/srv/share".to_string(), ..ServeArgs::default() };
    let env = vec![("DAVBOX_PASSWORD".to_string(), "pw".to_string())];
    let effective =
        EffectiveConfig::from_inputs(Config::default(), args, &env, "/home/alice").unwrap();
    assert_eq!(effective.folder, "/srv/share");
    assert_eq!(effective.server.port, 8080);
    assert!(effective.auth.enabled);
    assert_eq!(effective.auth.password.as_deref(), Some("pw"));
}

#[test]
fn example_config_parses_to_the_defaults_and_a_profile() {
    let config = Config::parse(EXAMPLE_CONFIG).unwrap();
    assert_eq!(config.server.port, 8080);
    assert_eq!(config.server.host, "0.0.0.0");
    assert!(config.server.hide_dotfiles);
    assert_eq!(config.tui.refresh_ms, 250);
    let movies = config.profiles.get("movies").unwrap();
    assert_eq!(movies.path.as_deref(), Some("~/Movies"));
    assert_eq!(movies.read_only, Some(true));
}

#[test]
fn config_reports_unknown_section() {
    match Config::parse("[nope]\n") {
        Err(ConfigError::Parse(m)) => assert_eq!(m, "Unsupported section [nope] at line 1"),
        _ => panic!("expected a parse error"),
    }
}

#[test]
fn config_reports_invalid_line() {
    match Config::parse("[server]\nport 8080\n") {
        Err(ConfigError::Parse(m)) => assert_eq!(m, "Invalid line 2: port 8080"),
        _ => panic!("expected a parse error"),
    }
}

#[test]
fn config_reports_wrong_value_type() {
    assert!(matches!(Config::parse("[server]\nport = \"x\"\n"), Err(ConfigError::Parse(_))));
}

#[test]
fn config_comments_and_blank_lines_are_ignored() {
    let config = Config::parse("# comment\n\n[server]\nport = 9001 # trailing\n").unwrap();
    assert_eq!(config.server.port, 9001);
}

#[test]
fn lone_quote_value_is_the_one_input_parse_cannot_take() {
    assert!(Config::parse_checked("[server]\nname = \"\n").is_none());
    assert!(Config::parse_checked("[server]\nname = \"x\"\n").is_some());
}

#[test]
fn home_is_expanded() {
    assert_eq!(expand_home("~/Movies", "/home/alice"), "/home/alice/Movies");
    assert_eq!(expand_home("~", "/home/alice"), "/home/alice");
    assert_eq!(expand_home("/abs", "/home/alice"), "/abs");
}

#[test]
fn config_lives_in_dot_davbox() {
    assert_eq!(config_path_in("/home/alice"), "/home/alice/.davbox/config.toml");
}

#[test]
fn server_defaults_are_safe() {
    let s = ServerConfig::default();
    assert_eq!(s.host, "0.0.0.0");
    assert_eq!(s.port, 8080);
    assert!(!s.read_only);
    assert!(s.hide_dotfiles);
    assert!(!s.follow_symlinks);
}

#[test]
fn blank_or_comment_only_source_gives_the_defaults() {
    for source in ["", "# note\n\n", "   \n\t# x\r\n"] {
        let config = Config::parse(source).unwrap();
        let defaults = Config::default();
        assert_eq!(config.server.port, defaults.server.port);
        assert_eq!(config.server.host, defaults.server.host);
        assert_eq!(config.auth.username, defaults.auth.username);
        assert_eq!(config.tui.refresh_ms, defaults.tui.refresh_ms);
        assert_eq!(config.profiles.len(), 0);
    }
}
