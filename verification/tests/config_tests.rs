use kube_eye_export_server::config::config_from_value;
use kube_eye_export_server::config::config_to_value;
use kube_eye_export_server::config::Config;
use kube_eye_export_server::config::ServerConfig;
use kube_eye_export_server::config::Theme;
use kube_eye_export_server::config::TypstConfig;
use kube_eye_export_server::config::theme_from_value;
use kube_eye_export_server::json::parse_text;
use kube_eye_export_server::json::to_text;

fn lookup<'a>(entries: &'a [(String, String)], key: &str) -> Option<&'a String> {
    entries.iter().find(|p| p.0 == key).map(|p| &p.1)
}

#[test]
fn test_config_serialization() {
    let config = Config {
        server: ServerConfig {
            host: "127.0.0.1".to_string(),
            port: 8080,
            public_dir_dist: vec![("./dist".to_string(), "/static".to_string())],
        },
        typst: TypstConfig {
            assets_dir: "./assets".to_string(),
            themes: Vec::new(),
            icons: Vec::new(),
        },
    };

    let json = to_text(&config_to_value(&config));
    assert!(json.contains("127.0.0.1"));
    assert!(json.contains("8080"));
}

#[test]
fn test_config_deserialization() {
    let json = r#"{
        "server": {
            "host": "0.0.0.0",
            "port": 3000,
            "public_dir_dist": [["./public", "/assets"]]
        },
        "typst": {
            "assets_dir": "./typst_assets",
            "themes": {},
            "icons": {}
        }
    }"#;

    let value = parse_text(json).unwrap();
    let config = config_from_value(&value).unwrap();
    assert_eq!(config.server.host, "0.0.0.0");
    assert_eq!(config.server.port, 3000);
    assert_eq!(config.typst.assets_dir, "./typst_assets");
}

#[test]
fn test_theme_with_defaults() {
    let json = r#"{}"#;
    let theme: Theme = theme_from_value(&parse_text(json).unwrap()).unwrap();
    assert!(theme.icons.is_empty());
    assert!(theme.themplates.is_empty());
}

#[test]
fn test_theme_with_values() {
    let json = r#"{
        "icons": ["icon1", "icon2"],
        "themplates": {
            "template1": "path/to/template1.typ",
            "template2": "path/to/template2.typ"
        }
    }"#;

    let theme: Theme = theme_from_value(&parse_text(json).unwrap()).unwrap();
    assert_eq!(theme.icons.len(), 2);
    assert_eq!(theme.themplates.len(), 2);
    assert_eq!(
        lookup(&theme.themplates, "template1"),
        Some(&"path/to/template1.typ".to_string())
    );
}

#[test]
fn test_server_config_with_multiple_public_dirs() {
    let config = ServerConfig {
        host: "localhost".to_string(),
        port: 4000,
        public_dir_dist: vec![
            ("./dist".to_string(), "/static".to_string()),
            ("./public".to_string(), "/public".to_string()),
            ("./assets".to_string(), "/assets".to_string()),
        ],
    };

    assert_eq!(config.public_dir_dist.len(), 3);
    assert_eq!(config.public_dir_dist[0].0, "./dist");
    assert_eq!(config.public_dir_dist[0].1, "/static");
}

#[test]
fn test_typst_config_with_themes_and_icons() {
    let themes = vec![(
        "default".to_string(),
        Theme {
            icons: vec!["icon1".to_string()],
            themplates: Vec::new(),
        },
    )];

    let icons = vec![("icon1".to_string(), "path/to/icon1.ttf".to_string())];

    let config = TypstConfig {
        assets_dir: "./assets".to_string(),
        themes,
        icons,
    };

    assert_eq!(config.themes.len(), 1);
    assert_eq!(config.icons.len(), 1);
    assert!(config.themes.iter().any(|t| t.0 == "default"));
    assert!(config.icons.iter().any(|i| i.0 == "icon1"));
}

fn schema_error_field(json: &str) -> String {
    let value = parse_text(json).unwrap();
    match config_from_value(&value).unwrap_err() {
        kube_eye_export_server::error::Error::ConfigSchema { field } => field,
        other => panic!("unexpected error: {:?}", other),
    }
}

#[test]
fn test_config_missing_section_is_schema_error() {
    let json = r#"{"server": {"host": "h", "port": 1, "public_dir_dist": []}}"#;
    assert_eq!(schema_error_field(json), "typst");
}

#[test]
fn test_config_port_out_of_range_is_schema_error() {
    let json = r#"{
        "server": {"host": "h", "port": 70000, "public_dir_dist": []},
        "typst": {"assets_dir": "a", "themes": {}, "icons": {}}
    }"#;
    assert_eq!(schema_error_field(json), "port");
}

#[test]
fn test_config_schema_error_names_the_field() {
    assert_eq!(schema_error_field("[]"), "server");
    assert_eq!(schema_error_field("{}"), "server");
    assert_eq!(
        schema_error_field(r#"{"server": {"port": 1, "public_dir_dist": []}, "typst": {}}"#),
        "host"
    );
    assert_eq!(
        schema_error_field(
            r#"{
            "server": {"host": "h", "port": 1, "public_dir_dist": []},
            "typst": {"assets_dir": "a", "themes": {"t": {"icons": [1]}}, "icons": {}}
        }"#
        ),
        "themes"
    );
    assert_eq!(
        schema_error_field(
            r#"{
            "server": {"host": "h", "port": 1, "public_dir_dist": []},
            "typst": {"assets_dir": "a", "themes": {}}
        }"#
        ),
        "icons"
    );
}

#[test]
fn test_config_round_trip() {
    let json = r#"{
        "server": {"host": "h", "port": 9, "public_dir_dist": [["d", "p"]]},
        "typst": {
            "assets_dir": "a",
            "themes": {"t": {"icons": ["f1"], "themplates": {"n": "p.typ"}}},
            "icons": {"f1": "f1.ttf"}
        }
    }"#;
    let config = config_from_value(&parse_text(json).unwrap()).unwrap();
    let printed = to_text(&config_to_value(&config));
    let reread = config_from_value(&parse_text(&printed).unwrap()).unwrap();
    assert_eq!(config, reread);
}
