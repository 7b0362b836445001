use kube_eye_export_server::config::Theme;
use kube_eye_export_server::config::TypstConfig;
use kube_eye_export_server::error::Error;
use kube_eye_export_server::typst_lib::assemble_unit;
use kube_eye_export_server::typst_lib::render_unit;
use kube_eye_export_server::typst_lib::theme_paths;
use kube_eye_export_server::typst_lib::CompileUnit;

fn test_config() -> TypstConfig {
    TypstConfig {
        assets_dir: "./assets".to_string(),
        themes: vec![(
            "default".to_string(),
            Theme {
                icons: vec!["f1".to_string(), "f2".to_string()],
                themplates: vec![("header".to_string(), "header.typ".to_string())],
            },
        )],
        icons: vec![("f1".to_string(), "fonts/f1.ttf".to_string())],
    }
}

#[test]
fn unknown_theme_is_a_client_error() {
    let err = theme_paths(&test_config(), &"nonexistent".to_string()).unwrap_err();
    match &err {
        Error::InvalidInput { reason } => {
            assert_eq!(reason, "Theme nonexistent not found");
        }
        other => panic!("unexpected error: {:?}", other),
    }
    let (status, code, _message) = err.response_parts();
    assert!(400 <= status && status <= 499);
    assert_eq!((status, code), (404, 1004));
}

#[test]
fn known_theme_resolves_paths() {
    let plan = theme_paths(&test_config(), &"default".to_string()).unwrap();
    assert_eq!(
        plan.fonts,
        vec![("f1".to_string(), "./assets/fonts/f1.ttf".to_string())]
    );
    assert_eq!(
        plan.templates,
        vec![("header".to_string(), "./assets/default/header.typ".to_string())]
    );
}

#[test]
fn unresolved_font_is_tolerated() {
    let plan = theme_paths(&test_config(), &"default".to_string()).unwrap();
    assert_eq!(plan.fonts.len(), 1);

    let font_reads = vec![("f1".to_string(), Some(vec![0u8, 1, 2]))];
    let template_reads: Vec<(String, Option<String>)> = Vec::new();
    let unit = assemble_unit(&font_reads, &template_reads, "doc".to_string());
    assert_eq!(unit.fonts, vec![vec![0u8, 1, 2]]);
}

#[test]
fn unreadable_assets_are_dropped() {
    let font_reads = vec![
        ("f1".to_string(), Some(vec![7u8])),
        ("f2".to_string(), None),
    ];
    let template_reads = vec![
        ("header".to_string(), Some("= header".to_string())),
        ("footer".to_string(), None),
    ];
    let unit = assemble_unit(&font_reads, &template_reads, "body".to_string());
    assert_eq!(unit.fonts, vec![vec![7u8]]);
    assert_eq!(
        unit.templates,
        vec![
            ("header".to_string(), "= header".to_string()),
            ("main.typ".to_string(), "body".to_string()),
        ]
    );
}

#[test]
fn entry_template_is_always_present() {
    let font_reads: Vec<(String, Option<Vec<u8>>)> = Vec::new();
    let template_reads: Vec<(String, Option<String>)> = Vec::new();
    let unit = assemble_unit(&font_reads, &template_reads, "the content".to_string());
    assert_eq!(
        unit.templates,
        vec![("main.typ".to_string(), "the content".to_string())]
    );
}

#[test]
fn compiler_failure_is_wrapped() {
    let unit = CompileUnit {
        fonts: Vec::new(),
        templates: Vec::new(),
    };
    let err = render_unit(&unit).unwrap_err();
    assert!(matches!(err, Error::TypstPdf { .. }));
}

#[test]
fn uncarryable_template_name_is_an_error_not_a_panic() {
    let escaping = CompileUnit {
        fonts: Vec::new(),
        templates: vec![("..".to_string(), "= x".to_string())],
    };
    let err = render_unit(&escaping).unwrap_err();
    assert!(matches!(err, Error::TypstPdf { .. }));

    let backslashed = CompileUnit {
        fonts: Vec::new(),
        templates: vec![("a\\b.typ".to_string(), "= x".to_string())],
    };
    let err = render_unit(&backslashed).unwrap_err();
    assert!(matches!(err, Error::TypstPdf { .. }));
}
