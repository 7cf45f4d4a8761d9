use ai_proxy::config::{parse_port, Config, ConfigError, ConfigVars};

fn unset() -> ConfigVars {
    ConfigVars {
        port: None,
        redis_url: None,
        ai_base_url: None,
        ai_api_key: None,
        ai_model: None,
        qdrant_url: None,
        neo4j_uri: None,
        neo4j_user: None,
        neo4j_password: None,
        embedding_api_url: None,
        embedding_api_password: None,
        embedding_model: None,
    }
}

fn load(vars: ConfigVars) -> Config {
    match Config::from_vars(vars) {
        Ok(c) => c,
        Err(ConfigError::InvalidPort(p)) => panic!("invalid port {}", p),
    }
}

#[test]
fn test_config_defaults() {
    let c = load(unset());
    assert_eq!(c.port, 3000);
    assert_eq!(c.redis_url, "redis://127.0.0.1:6379");
    assert_eq!(c.ai_base_url, "http://localhost:8080/v1");
    assert_eq!(c.ai_api_key, None);
    assert_eq!(c.ai_model, "gpt-4o-mini");
    assert_eq!(c.qdrant_url, "http://localhost:6333");
    assert_eq!(c.neo4j_uri, "bolt://localhost:7687");
    assert_eq!(c.neo4j_user, "neo4j");
    assert_eq!(c.neo4j_password, "password");
    assert_eq!(c.embedding_api_url, "https://aisvr221.aikb.kyutech.ac.jp/api");
    assert_eq!(c.embedding_api_password, "password");
    assert_eq!(c.embedding_model, "jeffh/intfloat-multilingual-e5-large:f32");
}

#[test]
fn test_config_custom_values() {
    let vars = ConfigVars {
        port: Some("8080".to_string()),
        redis_url: Some("redis://custom:6379".to_string()),
        ai_base_url: Some("http://custom:1234/v1".to_string()),
        ai_api_key: Some("sk-test-key".to_string()),
        ai_model: Some("gpt-4".to_string()),
        qdrant_url: Some("http://qdrant:6333".to_string()),
        neo4j_uri: Some("bolt://neo4j:7687".to_string()),
        neo4j_user: Some("admin".to_string()),
        neo4j_password: Some("secret".to_string()),
        embedding_api_url: Some("http://embed:8080/api".to_string()),
        embedding_api_password: Some("mypassword".to_string()),
        embedding_model: Some("custom-model".to_string()),
    };
    let c = load(vars);
    assert_eq!(c.port, 8080);
    assert_eq!(c.redis_url, "redis://custom:6379");
    assert_eq!(c.ai_base_url, "http://custom:1234/v1");
    assert_eq!(c.ai_api_key, Some("sk-test-key".to_string()));
    assert_eq!(c.ai_model, "gpt-4");
    assert_eq!(c.qdrant_url, "http://qdrant:6333");
    assert_eq!(c.neo4j_uri, "bolt://neo4j:7687");
    assert_eq!(c.neo4j_user, "admin");
    assert_eq!(c.neo4j_password, "secret");
    assert_eq!(c.embedding_api_url, "http://embed:8080/api");
    assert_eq!(c.embedding_api_password, "mypassword");
    assert_eq!(c.embedding_model, "custom-model");
}

#[test]
fn config_rejects_invalid_port() {
    let mut vars = unset();
    vars.port = Some("not-a-port".to_string());
    match Config::from_vars(vars) {
        Err(ConfigError::InvalidPort(p)) => assert_eq!(p, "not-a-port"),
        Ok(_) => panic!("accepted an invalid port"),
    }
    let mut vars = unset();
    vars.port = Some("65536".to_string());
    assert!(Config::from_vars(vars).is_err());
    let mut vars = unset();
    vars.port = Some(String::new());
    assert!(Config::from_vars(vars).is_err());
}

#[test]
fn parse_port_follows_u16_from_str() {
    assert_eq!(parse_port("3000"), Some(3000));
    assert_eq!(parse_port("+3000"), Some(3000));
    assert_eq!(parse_port("003000"), Some(3000));
    assert_eq!(parse_port("65535"), Some(65535));
    assert_eq!(parse_port("0"), Some(0));
    assert_eq!(parse_port("65536"), None);
    assert_eq!(parse_port("99999999999999999999999"), None);
    assert_eq!(parse_port("+"), None);
    assert_eq!(parse_port("-1"), None);
    assert_eq!(parse_port(" 80"), None);
    assert_eq!(parse_port(""), None);
    for s in ["1", "80", "443", "8080", "+7", "65535", "65536", "-0", "12a", "x"] {
        assert_eq!(parse_port(s), s.parse::<u16>().ok(), "{}", s);
    }
}
