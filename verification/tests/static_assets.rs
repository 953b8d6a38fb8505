use ignite_server::registry::{VaultRegistry, WalkedItem};
use ignite_server::static_routes::{
    build_index_html, build_shell, cache_control_for, cache_header, fill_template, find_scripts,
    has_version, resource_type, shell_paths, vault_file, versioned_src, ResourceError, StaticConfig,
    StaticVars, IMMUTABLE, SHORT,
};

const TEMPLATE: &str = r#"<!doctype html><html><head>
<link rel="stylesheet" href="__APP_CSS_SRC__">
<script src="__IGNIS_UI_SRC__"></script>
<script src="__SHIM_LOADER_SRC__"></script>
<script>window.__OBSIDIAN_SCRIPTS__ = __OBSIDIAN_SCRIPTS__;</script>
</head><body class="theme-dark"></body></html>"#;

const OBSIDIAN_HTML: &str = r#"<html><head>
<script src="app.js"></script>
<script defer src="lib/extra.js"></script>
</head></html>"#;

#[test]
fn build_index_html_injects_versioned_obsidian_and_ignis_scripts() {
    let out = build_index_html(TEMPLATE, OBSIDIAN_HTML, Some("1.12.7"), "0.1.0");
    // the server's own scripts carry its version
    assert!(out.contains("ignis-ui.js?v=0.1.0"));
    assert!(out.contains("shim-loader.js?v=0.1.0"));
    // the style sheet carries the version of the bundle
    assert!(out.contains("app.css?v=1.12.7"));
    // both scripts of the bundle were found and stamped
    assert!(out.contains("app.js?v=1.12.7"));
    assert!(out.contains("lib/extra.js?v=1.12.7"));
    // no placeholder is left
    assert!(!out.contains("__OBSIDIAN_SCRIPTS__"));
    assert!(!out.contains("__IGNIS_UI_SRC__"));
}

#[test]
fn build_index_html_omits_version_when_unknown() {
    let out = build_index_html(TEMPLATE, OBSIDIAN_HTML, None, "0.1.0");
    assert!(out.contains("app.js"));
    assert!(!out.contains("app.js?v="));
    assert!(out.contains("ignis-ui.js?v=0.1.0"));
}

#[test]
fn cache_control_versioned_vs_unversioned_vs_nonasset() {
    assert_eq!(cache_control_for("/ignis-ui.js", true), Some(IMMUTABLE));
    assert_eq!(cache_control_for("/ignis-ui.js", false), Some(SHORT));
    assert_eq!(cache_control_for("/app.css", true), Some(IMMUTABLE));
    assert_eq!(cache_control_for("/logo.png", true), None);
    assert_eq!(cache_control_for("/", false), None);
}

#[test]
fn assets_are_known_by_their_extension() {
    for path in ["a.js", "/x/a.CSS", "f.woff", "f.woff2", "f.ttf", "f.otf", "m.wasm", "a.js.map", "/.js"] {
        assert_eq!(cache_control_for(path, false), Some(SHORT), "{path}");
    }
    for path in ["/js", "/a.js/b", "a.jsx", "", "/a."] {
        assert_eq!(cache_control_for(path, false), None, "{path}");
    }
    assert_eq!(IMMUTABLE, "public, max-age=31536000, immutable");
    assert_eq!(SHORT, "public, max-age=300");
}

#[test]
fn cache_control_versioned_and_unversioned() {
    assert_eq!(
        cache_header(false, "/assets/overrides.css", Some("v=1.12.7")),
        Some("public, max-age=31536000, immutable")
    );
    assert_eq!(cache_header(false, "/assets/overrides.css", None), Some("public, max-age=300"));
    assert_eq!(cache_header(true, "/assets/overrides.css", Some("v=1.12.7")), None);
}

#[test]
fn queries_carry_a_version() {
    for q in ["v", "v=", "v=1", "a=1&v=2", "a&v"] {
        assert!(has_version(Some(q)), "{q}");
    }
    for q in ["", "a=v", "version=1", "vv", "&"] {
        assert!(!has_version(Some(q)), "{q}");
    }
    assert!(!has_version(None));
}

#[test]
fn sources_are_stamped() {
    assert_eq!(versioned_src("a.js", Some("1")), "a.js?v=1");
    assert_eq!(versioned_src("a.js?x", Some("1")), "a.js?x&v=1");
    assert_eq!(versioned_src("a.js?x", None), "a.js?x");
}

#[test]
fn scripts_are_found_in_order() {
    let found = find_scripts("<script type=\"module\" src=\"b.js\" async><script>x</script><script src='c.js'><script src=\"a.js\">");
    assert_eq!(found, vec!["b.js".to_string(), "a.js".to_string()]);
    assert!(find_scripts("plain").is_empty());
}

#[test]
fn placeholders_are_filled_in() {
    let out = fill_template(
        "__APP_CSS_SRC__|__OBSIDIAN_SCRIPTS__|__IGNIS_UI_SRC__|__IGNIS_UI_SRC__|__SHIM_LOADER_SRC__",
        &vec!["a\"b.js".to_string(), "c.js?x".to_string()],
        Some("2"),
        "3",
    );
    assert_eq!(
        out,
        "app.css?v=2|[\"a\\\"b.js?v=2\",\"c.js?x&v=2\"]|ignis-ui.js?v=3|ignis-ui.js?v=3|shim-loader.js?v=3"
    );
}

fn no_vars() -> StaticVars {
    StaticVars {
        assets_dir: None,
        ui_dist: None,
        shim_dist: None,
        obsidian_assets: None,
        obsidian_version: None,
    }
}

#[test]
fn configuration_of_the_shell() {
    let cfg = StaticConfig::from_env(&no_vars(), "0.1.0");
    assert_eq!(cfg.assets_dir, "./assets");
    assert_eq!(cfg.ui_dist, "./packages/ui/dist");
    assert_eq!(cfg.shim_dist, "./packages/shim/dist");
    assert_eq!(cfg.obsidian_assets, "./obsidian");
    assert_eq!(cfg.obsidian_version, None);
    assert_eq!(cfg.ignis_version, "0.1.0");
    for unknown in ["", "0.0.0"] {
        let mut vars = no_vars();
        vars.obsidian_version = Some(unknown.to_string());
        assert_eq!(StaticConfig::from_env(&vars, "1").obsidian_version, None);
    }
    let mut vars = no_vars();
    vars.obsidian_version = Some("1.12.7".to_string());
    vars.assets_dir = Some("/a/".to_string());
    let cfg = StaticConfig::from_env(&vars, "0.1.0");
    assert_eq!(shell_paths(&cfg), ("/a/index.html".to_string(), "./obsidian/index.html".to_string()));
    let html = build_shell(&cfg, "__OBSIDIAN_SCRIPTS__ __IGNIS_UI_SRC__", OBSIDIAN_HTML);
    assert_eq!(html, "[\"app.js?v=1.12.7\",\"lib/extra.js?v=1.12.7\"] ignis-ui.js?v=0.1.0");
}

#[test]
fn vault_files_served_traversal_rejected_unknown_404() {
    let reg = VaultRegistry::discover("/vaults", &vec![WalkedItem { name: "Games".to_string(), path: "/vaults/Games".to_string(), is_dir: true, found: vec![] }]);
    assert_eq!(vault_file(&reg, "Games", "pic.png").ok().unwrap(), "/vaults/Games/pic.png");
    match vault_file(&reg, "Games", "../../secret.txt") {
        Err(ResourceError::Refused(e)) => assert_eq!(e.into_response().status, 400),
        _ => panic!("a path that leaves the vault must be refused"),
    }
    assert!(matches!(vault_file(&reg, "Nope", "x.png"), Err(ResourceError::NoVault)));
}

#[test]
fn resources_have_the_type_of_their_extension() {
    assert_eq!(resource_type("/v/pic.png"), "image/png");
    assert_eq!(resource_type("/v/README"), "application/octet-stream");
}
