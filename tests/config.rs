use snyk_config::from_file::load as load_file;
use snyk_config::{env_file, join, Config, ConfigError, EnvVar, Json, JsonValue};

fn to_serde(v: &JsonValue) -> serde_json::Value {
    match v {
        JsonValue::Null => serde_json::Value::Null,
        JsonValue::Bool(b) => serde_json::Value::Bool(*b),
        JsonValue::Number(n) => serde_json::from_str(n).unwrap(),
        JsonValue::String(s) => serde_json::Value::String(s.clone()),
        JsonValue::Array(a) => serde_json::Value::Array(a.iter().map(to_serde).collect()),
        JsonValue::Object(es) => obj(es),
    }
}

fn obj(fields: &Json) -> serde_json::Value {
    serde_json::Value::Object(
        fields
            .iter()
            .map(|(k, v)| (k.clone(), to_serde(v)))
            .collect(),
    )
}

fn json(text: &str) -> serde_json::Value {
    serde_json::from_str(text).unwrap()
}

fn file(path: &str, text: &str) -> JsonValue {
    load_file(path.to_string(), text.as_bytes()).unwrap()
}

#[test]
fn example() {
    let config = Config::for_dir("/srv/app", None);
    assert_eq!(config.default_path(), "/srv/app/config.default.json");
    assert_eq!(config.env_path(), "/srv/app/config.local.json");
    assert_eq!(config.secrets_file, "/srv/app/config.secret.json");
    let default = file(&config.default_path(), r#"{"port": 1337, "host": "localhost"}"#);
    let environment = file(&config.env_path(), r#"{"host": "0.0.0.0"}"#);
    let secret = file(&config.secrets_file, r#"{"keys": {"google": "afaf"}}"#);
    let r = config.load(default, environment, secret, &Vec::new()).unwrap();
    assert_eq!(
        obj(&r),
        json(r#"{"port": 1337, "host": "0.0.0.0", "keys": {"google": "afaf"}}"#)
    );
}

#[test]
fn env_vars_take_precedence() {
    let config = Config::for_prefix("APP_", None, Some("prod".to_string()));
    let vars: Vec<EnvVar> = vec![
        ("APP_db__port".to_string(), Ok("6000".to_string())),
        ("CONF_db__port".to_string(), Ok("1".to_string())),
    ];
    let r = config
        .load(
            file("d", r#"{"db": {"host": "h", "port": 1}}"#),
            file("e", r#"{"db": {"port": 2}}"#),
            file("s", r#"{"db": {"port": 3, "password": "pw"}}"#),
            &vars,
        )
        .unwrap();
    assert_eq!(
        obj(&r),
        json(r#"{"db": {"host": "h", "port": 6000, "password": "pw"}}"#)
    );
}

#[test]
fn load_fails_on_bad_env_encoding() {
    let config = Config::standard(None, None);
    let vars: Vec<EnvVar> = vec![("CONF_x".to_string(), Err("?".to_string()))];
    let r = config.load(file("d", "{}"), file("e", "{}"), file("s", "{}"), &vars);
    assert!(matches!(r, Err(ConfigError::InvalidEnvEncoding { key, .. }) if key == "x"));
}

#[test]
fn file_with_invalid_json() {
    match load_file("conf/config.default.json".to_string(), b"{\"port\": ") {
        Err(ConfigError::InvalidJson { path, .. }) => assert_eq!(path, "conf/config.default.json"),
        other => panic!("unexpected: {:?}", other),
    }
    assert!(load_file("x".to_string(), b"\xff\xfe").is_err());
}

#[test]
fn file_with_json() {
    let v = file("x", r#"{"a": [1, "two", null, true]}"#);
    assert_eq!(to_serde(&v), json(r#"{"a": [1, "two", null, true]}"#));
}

#[test]
fn standard_config() {
    let c = Config::standard(None, None);
    assert_eq!(c.prefix, "CONF_");
    assert_eq!(c.dir, "");
    assert_eq!(c.secrets_file, "config.secret.json");
    assert_eq!(c.service_env, "local");
    assert_eq!(c.default_path(), "config.default.json");
    assert_eq!(c.env_path(), "config.local.json");
    let c = Config::standard(Some("/run/s.json".to_string()), Some("staging".to_string()));
    assert_eq!(c.secrets_file, "/run/s.json");
    assert_eq!(c.env_path(), "config.staging.json");
}

#[test]
fn prefix_config() {
    let c = Config::for_prefix("MY_", None, None);
    assert_eq!(c.prefix, "MY_");
    assert_eq!(c.secrets_file, "config.secret.json");
    assert_eq!(c.service_env, "local");
}

#[test]
fn join_paths() {
    assert_eq!(join("a", "b.json"), "a/b.json");
    assert_eq!(join("a/", "b.json"), "a/b.json");
    assert_eq!(join("", "b.json"), "b.json");
    assert_eq!(join("a", "/etc/b.json"), "/etc/b.json");
}

#[test]
fn env_file_name() {
    assert_eq!(env_file("local"), "config.local.json");
    assert_eq!(env_file(""), "config..json");
}
