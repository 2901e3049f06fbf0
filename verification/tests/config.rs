use commons::config::{Config, ConfigBuilder, ConfigError, FromTomlValue};

#[test]
fn test_get_nested_key() {
    let config = Config::new(
        r#"
            [server]
            host = "localhost"
            port = 3000
        "#,
    );
    assert_eq!(config.get::<String>("server.host"), Some("localhost".into()));
    assert_eq!(config.get::<i64>("server.port"), Some(3000));
}

#[test]
fn test_config_builder() {
    let config = ConfigBuilder::new()
        .set_string("name", "app")
        .set_int("port", 8080)
        .set_bool("debug", true)
        .build();

    assert_eq!(config.get::<String>("name"), Some("app".into()));
    assert_eq!(config.get::<i64>("port"), Some(8080));
    assert_eq!(config.get::<bool>("debug"), Some(true));
}

#[test]
fn config_keeps_its_text() {
    let text = "name = \"app\"\nport = 8080\n";
    let config = Config::new(text);
    assert_eq!(config.raw(), text);
    assert_eq!(Config::new("").raw(), "");
}

#[test]
fn config_error_messages() {
    assert_eq!(
        ConfigError::FileRead("a.toml: gone".to_string()).message(),
        "Failed to read config file: a.toml: gone"
    );
    assert_eq!(ConfigError::Parse("bad".to_string()).message(), "Failed to parse config: bad");
    assert_eq!(
        ConfigError::MissingKey("port".to_string()).message(),
        "Missing required config key: port"
    );
}

#[test]
fn get_converts_by_type_or_not_at_all() {
    let config = Config::new("name = \"app\"\nport = 8080\ndebug = true\nratio = 0.5\n");
    assert_eq!(config.get::<String>("name"), Some("app".to_string()));
    assert_eq!(config.get::<i64>("name"), None);
    assert_eq!(config.get::<bool>("name"), None);
    assert_eq!(config.get::<i64>("port"), Some(8080));
    assert_eq!(config.get::<String>("port"), None);
    assert_eq!(config.get::<bool>("debug"), Some(true));
    assert_eq!(config.get::<i64>("debug"), None);
    assert_eq!(config.get::<i64>("ratio"), None);
    assert_eq!(config.get::<toml::Value>("ratio"), Some(toml::Value::Float(0.5)));
    assert_eq!(config.get::<toml::Value>("port"), Some(toml::Value::Integer(8080)));
}

#[test]
fn get_walks_tables_only() {
    let config = Config::new(
        "top = 1\n[a]\nleaf = \"x\"\n[a.b]\nleaf = \"y\"\n[a.b.c]\nflag = false\nlist = [1, 2]\n",
    );
    assert_eq!(config.get::<String>("a.leaf"), Some("x".to_string()));
    assert_eq!(config.get::<String>("a.b.leaf"), Some("y".to_string()));
    assert_eq!(config.get::<bool>("a.b.c.flag"), Some(false));
    assert_eq!(config.get::<String>("a.missing"), None);
    assert_eq!(config.get::<String>("missing.leaf"), None);
    assert_eq!(config.get::<String>("a.leaf.deeper"), None);
    assert_eq!(config.get::<i64>("top.deeper"), None);
    assert_eq!(config.get::<i64>("a.b.c.list.0"), None);
    assert_eq!(config.get::<i64>(""), None);
    assert_eq!(config.get::<String>("a..leaf"), None);
    assert_eq!(config.get::<String>("a.leaf."), None);
    assert!(config.get::<toml::Value>("a.b").unwrap().is_table());
}

#[test]
fn get_of_text_that_is_no_toml() {
    let config = Config::new("this is = = not toml");
    assert_eq!(config.get::<String>("this"), None);
    assert!(!config.has_key("this"));
}

#[test]
fn has_key_follows_get() {
    let config = Config::new("[server]\nhost = \"localhost\"\n");
    assert!(config.has_key("server"));
    assert!(config.has_key("server.host"));
    assert!(!config.has_key("server.port"));
    assert!(!config.has_key("host"));
    assert!(!config.has_key(""));
}

#[test]
fn builder_replaces_a_key_that_is_set_again() {
    let config = ConfigBuilder::new()
        .set_string("name", "first")
        .set_int("name", 2)
        .set_string("other", "x")
        .build();
    assert_eq!(config.get::<String>("name"), None);
    assert_eq!(config.get::<i64>("name"), Some(2));
    assert_eq!(config.get::<String>("other"), Some("x".to_string()));
    assert_eq!(ConfigBuilder::new().build().raw(), "");
    assert_eq!(ConfigBuilder::default().set_bool("on", false).build().raw(), "on = false\n");
}

#[test]
fn from_toml_value_on_values() {
    let text = toml::Value::String("t".to_string());
    assert_eq!(String::from_toml_value(&text), Some("t".to_string()));
    assert_eq!(i64::from_toml_value(&text), None);
    assert_eq!(bool::from_toml_value(&toml::Value::Boolean(true)), Some(true));
    assert_eq!(i64::from_toml_value(&toml::Value::Integer(-4)), Some(-4));
    assert_eq!(toml::Value::from_toml_value(&text), Some(text.clone()));
}
