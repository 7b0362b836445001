use kube_eye_export_server::client_config::legacy_from_value;
use kube_eye_export_server::client_config::legacy_to_value;
use kube_eye_export_server::client_config::ClientConfig;
use kube_eye_export_server::client_config::LegacyClientConfig;
use kube_eye_export_server::json::parse_text;
use kube_eye_export_server::json::to_text;

fn lookup<'a>(entries: &'a [(String, String)], key: &str) -> Option<&'a String> {
    entries.iter().find(|p| p.0 == key).map(|p| &p.1)
}

fn key(text: &str) -> String {
    text.to_string()
}

#[test]
fn test_legacy_client_config_serialization() {
    let report_title = vec![
        ("en".to_string(), "Report".to_string()),
        ("zh".to_string(), "报告".to_string()),
    ];

    let config = LegacyClientConfig { report_title };
    let json = to_text(&legacy_to_value(&config));

    assert!(json.contains("Report"));
    assert!(json.contains("报告"));
}

#[test]
fn test_legacy_client_config_deserialization() {
    let json = r#"{
        "report_title": {
            "en": "Annual Report",
            "fr": "Rapport Annuel"
        }
    }"#;

    let config: LegacyClientConfig = legacy_from_value(&parse_text(json).unwrap()).unwrap();
    assert_eq!(config.report_title.len(), 2);
    assert_eq!(
        lookup(&config.report_title, "en"),
        Some(&"Annual Report".to_string())
    );
    assert_eq!(
        lookup(&config.report_title, "fr"),
        Some(&"Rapport Annuel".to_string())
    );
}

#[test]
fn test_legacy_client_config_clone() {
    let report_title = vec![("en".to_string(), "Test".to_string())];

    let config = LegacyClientConfig { report_title };
    let cloned = config.clone();

    assert_eq!(config.report_title, cloned.report_title);
}

#[test]
fn test_client_config_as_object() {
    let config: ClientConfig = parse_text(
        r#"{
        "theme": "dark",
        "language": "en",
        "features": {
            "pdf_export": true,
            "auto_save": false
        }
    }"#,
    )
    .unwrap();

    assert!(config.is_object());
    assert_eq!(
        config.get(&key("theme")).unwrap().as_str(),
        Some(&key("dark"))
    );
    assert_eq!(
        config.get(&key("language")).unwrap().as_str(),
        Some(&key("en"))
    );
    let features = config.get(&key("features")).unwrap();
    assert_eq!(
        features.get(&key("pdf_export")),
        Some(&parse_text("true").unwrap())
    );
}

#[test]
fn test_client_config_as_array() {
    let config: ClientConfig = parse_text(
        r#"[
        {"id": 1, "name": "Config 1"},
        {"id": 2, "name": "Config 2"}
    ]"#,
    )
    .unwrap();

    assert!(config.is_array());
    assert_eq!(
        config.at(0).unwrap().get(&key("id")).unwrap().as_i64(),
        Some(1)
    );
    assert_eq!(
        config.at(1).unwrap().get(&key("name")).unwrap().as_str(),
        Some(&key("Config 2"))
    );
}

#[test]
fn test_client_config_as_string() {
    let config: ClientConfig = parse_text(r#""simple_config""#).unwrap();
    assert!(config.is_string());
    assert_eq!(config.as_str(), Some(&key("simple_config")));
}

#[test]
fn test_client_config_as_number() {
    let config: ClientConfig = parse_text("42").unwrap();
    assert!(config.is_number());
    assert_eq!(config.as_i64(), Some(42));
}

#[test]
fn test_client_config_nested_structure() {
    let config: ClientConfig = parse_text(
        r#"{
        "server": {
            "host": "localhost",
            "port": 8080,
            "ssl": {
                "enabled": true,
                "cert_path": "/path/to/cert"
            }
        },
        "logging": {
            "level": "info",
            "format": "json"
        }
    }"#,
    )
    .unwrap();

    let server = config.get(&key("server")).unwrap();
    assert_eq!(server.get(&key("host")).unwrap().as_str(), Some(&key("localhost")));
    assert_eq!(server.get(&key("port")).unwrap().as_i64(), Some(8080));
    assert_eq!(
        server.get(&key("ssl")).unwrap().get(&key("enabled")),
        Some(&parse_text("true").unwrap())
    );
    let logging = config.get(&key("logging")).unwrap();
    assert_eq!(logging.get(&key("level")).unwrap().as_str(), Some(&key("info")));
}

#[test]
fn test_legacy_client_config_empty() {
    let config = LegacyClientConfig {
        report_title: Vec::new(),
    };

    assert!(config.report_title.is_empty());
}
