use exchange_core::config::{Config, ConfigError, Setting, Settings};
use exchange_core::sink::{Delivery, SinkAction};
use exchange_core::text::{all_digits, names_match, parse_digits};

fn vars(pairs: &[(&str, &str)]) -> Vec<(String, String)> {
    pairs.iter().map(|(k, v)| (k.to_string(), v.to_string())).collect()
}

fn required() -> Vec<(String, String)> {
    vars(&[
        ("DATABASE__URL", "postgres://db"),
        ("REDIS__URL", "redis://cache"),
        ("JWT__SECRET", "s3cret"),
    ])
}

#[test]
fn from_env_takes_defaults() {
    let c = Config::from_env(&required()).unwrap();
    assert_eq!(c.server.host, "0.0.0.0");
    assert_eq!(c.server.port, 8080);
    assert_eq!(c.database.url, "postgres://db");
    assert_eq!(c.database.max_connections, 10);
    assert_eq!(c.database.min_connections, 2);
    assert_eq!(c.redis.url, "redis://cache");
    assert_eq!(c.jwt.secret, "s3cret");
    assert_eq!(c.jwt.expiration, 86400);
    assert_eq!(c.cors.allowed_origins, vec!["*"]);
    assert_eq!(c.cors.allowed_methods, vec!["GET", "POST", "PUT", "DELETE", "OPTIONS"]);
    assert_eq!(c.cors.allowed_headers, vec!["*"]);
}

#[test]
fn from_env_reads_nested_keys_whatever_their_case() {
    let mut v = required();
    v.extend(vars(&[
        ("SERVER__PORT", "9000"),
        ("server__host", "127.0.0.1"),
        ("Database__Max_Connections", "50"),
        ("DATABASE__MIN_CONNECTIONS", "5"),
        ("JWT__EXPIRATION", "60"),
        ("SERVER_PORT", "1"),
        ("PATH", "/bin"),
    ]));
    let c = Config::from_env(&v).unwrap();
    assert_eq!(c.server.port, 9000);
    assert_eq!(c.server.host, "127.0.0.1");
    assert_eq!(c.database.max_connections, 50);
    assert_eq!(c.database.min_connections, 5);
    assert_eq!(c.jwt.expiration, 60);
    v.push(("SERVER__PORT".to_string(), "9001".to_string()));
    assert_eq!(Config::from_env(&v).unwrap().server.port, 9001);
}

#[test]
fn from_env_reports_what_is_missing_or_invalid() {
    assert_eq!(Config::from_env(&vars(&[])).unwrap_err(), ConfigError::Missing(Setting::DatabaseUrl));
    let v = vars(&[("DATABASE__URL", "x")]);
    assert_eq!(Config::from_env(&v).unwrap_err(), ConfigError::Missing(Setting::RedisUrl));
    let v = vars(&[("DATABASE__URL", "x"), ("REDIS__URL", "y")]);
    assert_eq!(Config::from_env(&v).unwrap_err(), ConfigError::Missing(Setting::JwtSecret));
    for bad in ["65536", "-1", "", "80a", "8 0", "+80"] {
        let mut v = required();
        v.push(("SERVER__PORT".to_string(), bad.to_string()));
        assert_eq!(
            Config::from_env(&v).unwrap_err(),
            ConfigError::Invalid(Setting::ServerPort),
            "{:?}",
            bad
        );
    }
    let mut v = required();
    v.push(("SERVER__PORT".to_string(), "65535".to_string()));
    assert_eq!(Config::from_env(&v).unwrap().server.port, 65535);
    let mut v = required();
    v.push(("DATABASE__MAX_CONNECTIONS".to_string(), "4294967296".to_string()));
    assert_eq!(
        Config::from_env(&v).unwrap_err(),
        ConfigError::Invalid(Setting::DatabaseMaxConnections)
    );
    let mut v = required();
    v.push(("JWT__EXPIRATION".to_string(), "18446744073709551616".to_string()));
    assert_eq!(Config::from_env(&v).unwrap_err(), ConfigError::Invalid(Setting::JwtExpiration));
    let mut v = required();
    v.push(("JWT__EXPIRATION".to_string(), "18446744073709551615".to_string()));
    assert_eq!(Config::from_env(&v).unwrap().jwt.expiration, u64::MAX);
    let mut v = required();
    v.push(("CORS__ALLOWED_ORIGINS".to_string(), "a,b".to_string()));
    assert_eq!(
        Config::from_env(&v).unwrap_err(),
        ConfigError::Invalid(Setting::CorsAllowedOrigins)
    );
    assert_eq!(Setting::ServerPort.env_name(), "SERVER__PORT");
    assert_eq!(Setting::CorsAllowedHeaders.env_name(), "CORS__ALLOWED_HEADERS");
}

#[test]
fn from_settings_takes_settings_defaults_and_variables() {
    let env = vars(&[("DATABASE_URL", "postgres://db"), ("JWT_SECRET", "s3cret"), ("database_url", "no")]);
    let empty = Settings { texts: vec![], numbers: vec![], lists: vec![] };
    let c = Config::from_settings(&empty, &env);
    assert_eq!(c.server.host, "0.0.0.0");
    assert_eq!(c.server.port, 8080);
    assert_eq!(c.database.url, "postgres://db");
    assert_eq!(c.database.max_connections, 10);
    assert_eq!(c.database.min_connections, 2);
    assert_eq!(c.redis.url, "redis://localhost:6379");
    assert_eq!(c.jwt.secret, "s3cret");
    assert_eq!(c.jwt.expiration, 86400);
    assert_eq!(c.cors.allowed_origins, vec!["*"]);
    assert_eq!(c.cors.allowed_methods, vec!["GET", "POST"]);
    assert_eq!(c.cors.allowed_headers, vec!["*"]);
    let full = Settings {
        texts: vec![("server.host".to_string(), "10.0.0.1".to_string())],
        numbers: vec![
            ("server.port".to_string(), 65536 + 443),
            ("database.max_connections".to_string(), -1),
            ("database.min_connections".to_string(), 1),
            ("jwt.expiration".to_string(), -1),
        ],
        lists: vec![(
            "cors.allowed_methods".to_string(),
            vec!["GET".to_string(), "HEAD".to_string()],
        )],
    };
    let mut env = env;
    env.push(("REDIS_URL".to_string(), "redis://cache".to_string()));
    let c = Config::from_settings(&full, &env);
    assert_eq!(c.server.host, "10.0.0.1");
    assert_eq!(c.server.port, 443);
    assert_eq!(c.database.max_connections, u32::MAX);
    assert_eq!(c.database.min_connections, 1);
    assert_eq!(c.jwt.expiration, u64::MAX);
    assert_eq!(c.redis.url, "redis://cache");
    assert_eq!(c.cors.allowed_methods, vec!["GET", "HEAD"]);
}

#[test]
fn names_and_digits() {
    assert!(names_match("Server__Port", "SERVER__PORT"));
    assert!(!names_match("SERVER_PORT", "SERVER__PORT"));
    assert!(!names_match("SERVER__PORT", "SERVER__PORTS"));
    assert!(names_match("", ""));
    assert_eq!(parse_digits("x123y", 1, 4, 1000), Some(123));
    assert_eq!(parse_digits("x123y", 1, 4, 122), None);
    assert_eq!(parse_digits("x123y", 0, 4, 1000), None);
    assert_eq!(parse_digits("x123y", 2, 2, 1000), Some(0));
    assert_eq!(
        parse_digits("340282366920938463463374607431768211455", 0, 39, u128::MAX),
        Some(u128::MAX)
    );
    assert_eq!(parse_digits("340282366920938463463374607431768211456", 0, 39, u128::MAX), None);
    assert!(all_digits("a09b", 1, 3));
    assert!(!all_digits("a09b", 0, 3));
}

#[test]
fn delivery_emits_in_order_retries_and_gives_up() {
    let mut d = Delivery::new(2, 2);
    assert_eq!(d.next(), SinkAction::Emit(0));
    d.report(false);
    assert_eq!(d.next(), SinkAction::Emit(0));
    d.report(true);
    assert_eq!(d.next(), SinkAction::Emit(1));
    assert_eq!(d.failures, 0);
    d.report(false);
    d.report(false);
    assert_eq!(d.next(), SinkAction::Emit(1));
    d.report(false);
    assert!(d.fatal);
    assert_eq!(d.next(), SinkAction::Halt);
    d.report(true);
    assert_eq!(d.next(), SinkAction::Halt);
    assert_eq!(d.delivered, 1);
    let mut ok = Delivery::new(1, 0);
    ok.report(true);
    assert_eq!(ok.next(), SinkAction::Done);
    ok.report(false);
    assert_eq!(ok.next(), SinkAction::Done);
    let mut strict = Delivery::new(1, 0);
    strict.report(false);
    assert_eq!(strict.next(), SinkAction::Halt);
    assert_eq!(Delivery::new(0, 3).next(), SinkAction::Done);
}
