use kube_eye_export_server::api::query_report;
use kube_eye_export_server::config::ServerConfig;
use kube_eye_export_server::config::Theme;
use kube_eye_export_server::config::TypstConfig;
use kube_eye_export_server::extractor::ValidatedJson;
use kube_eye_export_server::json::parse_text;
use kube_eye_export_server::server::content_disposition;
use kube_eye_export_server::server::effective_theme;
use kube_eye_export_server::server::ReportRequest;
use kube_eye_export_server::server::Server;
use kube_eye_export_server::store::ConfigStore;

fn create_test_server_config() -> ServerConfig {
    ServerConfig {
        host: "127.0.0.1".to_string(),
        port: 8080,
        public_dir_dist: vec![],
    }
}

fn create_test_typst_config() -> TypstConfig {
    TypstConfig {
        assets_dir: "./assets".to_string(),
        themes: vec![(
            "default".to_string(),
            Theme {
                icons: vec![],
                themplates: Vec::new(),
            },
        )],
        icons: Vec::new(),
    }
}

fn create_test_client_config() -> ConfigStore {
    ConfigStore::new(parse_text("null").unwrap())
}

#[test]
fn test_server_creation() {
    let config = create_test_server_config();
    let client_config = create_test_client_config();
    let server = Server::new(config, client_config);

    assert_eq!(server.config.host, "127.0.0.1");
    assert_eq!(server.config.port, 8080);
}

#[test]
fn test_public_dir_dist_configuration() {
    let mut config = create_test_server_config();
    config.public_dir_dist = vec![
        ("./dist".to_string(), "/static".to_string()),
        ("./public".to_string(), "/public".to_string()),
    ];

    let client_config = create_test_client_config();
    let server = Server::new(config, client_config);

    assert_eq!(server.config.public_dir_dist.len(), 2);
}

#[test]
fn test_typst_config_creation() {
    let config = create_test_typst_config();
    assert!(config.themes.iter().any(|t| t.0 == "default"));
    assert_eq!(config.assets_dir, "./assets");
}

#[test]
fn test_validated_json_deref() {
    let payload = ReportRequest {
        name: "test".to_string(),
        content: "body".to_string(),
        theme: None,
    };
    let validated = ValidatedJson(payload);

    assert_eq!(validated.deref().name, "test");
    assert_eq!(validated.deref().content, "body");
}

#[test]
fn server_addr_joins_host_and_port() {
    let server = Server::new(create_test_server_config(), create_test_client_config());
    assert_eq!(server.addr(), "127.0.0.1:8080");
}

#[test]
fn content_disposition_percent_encodes_the_name() {
    assert_eq!(
        content_disposition("report 1"),
        "attachment; filename=\"export.pdf\"; filename*=UTF-8''report%201.pdf"
    );
    assert_eq!(
        content_disposition("abc"),
        "attachment; filename=\"export.pdf\"; filename*=UTF-8''abc.pdf"
    );
    assert_eq!(
        content_disposition("年"),
        "attachment; filename=\"export.pdf\"; filename*=UTF-8''%E5%B9%B4.pdf"
    );
}

#[test]
fn effective_theme_defaults() {
    assert_eq!(effective_theme(&None), "default");
    assert_eq!(effective_theme(&Some("dark".to_string())), "dark");
}

#[test]
fn query_report_is_a_typst_document() {
    let report = query_report();
    assert!(report.contains("= Introduction"));
    assert!(report.contains("New Computer Modern"));
}
