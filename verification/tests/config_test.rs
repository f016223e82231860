use redis_nav::config::AppConfig;
use redis_nav::config::ConfigFile;
use redis_nav::config::Defaults;
use redis_nav::config::Profile;
use redis_nav::config::connection_from_profile;
use redis_nav::config::resolve_delimiters;
use redis_nav::editor::bytes_equal;
use redis_nav::editor::sanitize_filename;
use redis_nav::kinds::kind_from_type_name;
use redis_nav::RedisType;

fn empty_profile() -> Profile {
    Profile {
        url: None,
        host: None,
        port: None,
        password: None,
        password_env: None,
        db: None,
        delimiters: vec![],
        readonly: false,
        protected_namespaces: vec![],
    }
}

#[test]
fn default_config_values() {
    let config = AppConfig::default();
    assert_eq!(config.connection.url, "redis://127.0.0.1:6379");
    assert_eq!(config.connection.db, 0);
    assert!(!config.connection.readonly);
    assert_eq!(config.ui.delimiters, vec![':', '/']);
    assert!(config.ui.protected_namespaces.is_empty());
}

#[test]
fn delimiters_resolve_by_precedence() {
    // command-line delimiters win
    let r = resolve_delimiters(&vec!['.', '-'], Some(&vec![":".to_string()]));
    assert_eq!(r, vec!['.', '-']);
    // else the file defaults' first characters, empty entries skipped
    let r = resolve_delimiters(
        &vec![],
        Some(&vec![":".to_string(), "".to_string(), "/x".to_string()]),
    );
    assert_eq!(r, vec![':', '/']);
    // else the colon
    let r = resolve_delimiters(&vec![], None);
    assert_eq!(r, vec![':']);
    // file defaults that yield no characters also fall back to the colon
    let r = resolve_delimiters(&vec![], Some(&vec!["".to_string(), "".to_string()]));
    assert_eq!(r, vec![':']);
}

#[test]
fn type_names_map_to_kinds() {
    assert_eq!(kind_from_type_name("string"), RedisType::String);
    assert_eq!(kind_from_type_name("list"), RedisType::List);
    assert_eq!(kind_from_type_name("set"), RedisType::SetKind);
    assert_eq!(kind_from_type_name("zset"), RedisType::ZSet);
    assert_eq!(kind_from_type_name("hash"), RedisType::Hash);
    assert_eq!(kind_from_type_name("stream"), RedisType::Stream);
    assert_eq!(kind_from_type_name("none"), RedisType::Unknown);
    assert_eq!(kind_from_type_name(""), RedisType::Unknown);
}

#[test]
fn profile_url_overrides_everything() {
    let mut profile = empty_profile();
    profile.url = Some("redis://example:7000".to_string());
    let r = connection_from_profile(
        &profile,
        &"clihost".to_string(),
        6379,
        &None,
        &None,
        &None,
    );
    assert_eq!(r.url.as_deref(), Some("redis://example:7000"));
}

#[test]
fn profile_password_precedence() {
    let cli_host = "clihost".to_string();
    // the profile's own password wins
    let mut profile = empty_profile();
    profile.password = Some("own".to_string());
    profile.password_env = Some("MY_ENV".to_string());
    let r = connection_from_profile(
        &profile,
        &cli_host,
        6379,
        &Some("cli".to_string()),
        &Some("fromenv".to_string()),
        &Some("fallback".to_string()),
    );
    assert_eq!(r.password.as_deref(), Some("own"));
    assert_eq!(r.host, "clihost");
    assert_eq!(r.port, 6379);

    // then the profile's password environment variable
    profile.password = None;
    let r = connection_from_profile(
        &profile,
        &cli_host,
        6379,
        &Some("cli".to_string()),
        &Some("fromenv".to_string()),
        &Some("fallback".to_string()),
    );
    assert_eq!(r.password.as_deref(), Some("fromenv"));

    // then the command line's
    profile.password_env = None;
    let r = connection_from_profile(
        &profile,
        &cli_host,
        6379,
        &Some("cli".to_string()),
        &None,
        &Some("fallback".to_string()),
    );
    assert_eq!(r.password.as_deref(), Some("cli"));

    // then the default environment variable
    let r = connection_from_profile(
        &profile,
        &cli_host,
        6379,
        &None,
        &None,
        &Some("fallback".to_string()),
    );
    assert_eq!(r.password.as_deref(), Some("fallback"));

    // host and port fall back to the profile's own when set
    profile.host = Some("profhost".to_string());
    profile.port = Some(7001);
    let r = connection_from_profile(&profile, &cli_host, 6379, &None, &None, &None);
    assert_eq!(r.host, "profhost");
    assert_eq!(r.port, 7001);
    assert!(r.password.is_none());
}

#[test]
fn profiles_are_found_by_name() {
    let file = ConfigFile {
        defaults: Defaults { delimiters: vec![], theme: None },
        profiles: vec![
            ("dev".to_string(), empty_profile()),
            ("prod".to_string(), {
                let mut p = empty_profile();
                p.readonly = true;
                p
            }),
        ],
    };
    assert!(file.get_profile(&"dev".to_string()).is_some());
    assert!(file.get_profile(&"prod".to_string()).unwrap().readonly);
    assert!(file.get_profile(&"missing".to_string()).is_none());
}

#[test]
fn filenames_are_sanitized() {
    assert_eq!(sanitize_filename("user:1/name"), "user_1_name");
    assert_eq!(sanitize_filename("abc-DEF_123"), "abc-DEF_123");
    let long: String = "x".repeat(80);
    assert_eq!(sanitize_filename(&long).len(), 50);
}

#[test]
fn byte_change_detection() {
    assert!(bytes_equal(b"same", b"same"));
    assert!(!bytes_equal(b"same", b"Same"));
    assert!(!bytes_equal(b"short", b"longer"));
    assert!(bytes_equal(b"", b""));
}
