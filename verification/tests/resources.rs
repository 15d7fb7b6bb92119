use rust_datastar_template::resources::dev::{
    asset_build, hot_reload_action, set_ts_extension, stylesheet_swap_script, watch_action,
    with_hot_reload_hook, AssetKind, HotReloadAction, WatchAction,
};
use rust_datastar_template::resources::{outgoing_chat_message, should_compress_event_stream, Signals};
use rust_datastar_template::text::decimal_string;

#[test]
fn chat_posts() {
    assert_eq!(
        outgoing_chat_message("  hi there \n", "127.0.0.1:5000"),
        Some(("message.127.0.0.1:5000".to_string(), "hi there".to_string()))
    );
    assert_eq!(outgoing_chat_message(" \t\u{3000} ", "a"), None);
    assert_eq!(outgoing_chat_message("", "a"), None);
    assert_eq!(Signals::cleared().text, "");
}

#[test]
fn event_streams_compressed() {
    let ct: &[u8] = b"text/event-stream";
    assert!(should_compress_event_stream(Some(ct), Some(&b"gzip, br"[..]), false));
    assert!(!should_compress_event_stream(Some(ct), Some(&b"gzip, br"[..]), true));
    assert!(!should_compress_event_stream(Some(ct), Some(&b"gzip"[..]), false));
    assert!(!should_compress_event_stream(Some(&b"text/html"[..]), Some(&b"br"[..]), false));
    assert!(!should_compress_event_stream(Some(ct), None, false));
    assert!(!should_compress_event_stream(None, Some(&b"br"[..]), false));
    assert!(!should_compress_event_stream(Some(ct), Some(&b"br\x01"[..]), false));
}

#[test]
fn assets_built_on_the_fly() {
    let b = asset_build("/assets/pages/index/page.css").unwrap();
    assert_eq!(b.kind, AssetKind::Css);
    assert_eq!(b.source, "src/resources/index/page.css");
    let b = asset_build("/assets/pages/index/page.js").unwrap();
    assert_eq!(b.kind, AssetKind::Js);
    assert_eq!(b.source, "src/resources/index/page.ts");
    let b = asset_build("/assets/css/global.css").unwrap();
    assert_eq!(b.kind, AssetKind::Css);
    assert_eq!(b.source, "src/assets/css/global.css");
    let b = asset_build("/assets/js/app.js").unwrap();
    assert_eq!(b.kind, AssetKind::Js);
    assert_eq!(b.source, "src/assets/ts/app.ts");
    let b = asset_build("/assets/other/x.js").unwrap();
    assert_eq!(b.source, "/assets/other/x.ts");
    assert!(asset_build("/assets/img/a.png").is_none());
    assert!(asset_build("/other.css").is_none());
}

#[test]
fn ts_extensions() {
    assert_eq!(set_ts_extension("a/b.js"), "a/b.ts");
    assert_eq!(set_ts_extension("a/.js"), "a/.js.ts");
    assert_eq!(set_ts_extension("a/b"), "a/b.ts");
    assert_eq!(set_ts_extension("a/b.c.js"), "a/b.c.ts");
    assert_eq!(set_ts_extension("a/"), "a/");
}

fn comps(p: &str) -> Vec<String> {
    std::path::Path::new(p)
        .components()
        .map(|c| c.as_os_str().to_string_lossy().into_owned())
        .collect()
}

fn template_name(p: &str) -> String {
    match hot_reload_action(&comps(p), p, "j2") {
        HotReloadAction::ReloadTemplate { name } => name,
        _ => panic!("expected a template reload"),
    }
}

#[test]
fn template_names_keep_the_path_text() {
    assert_eq!(template_name("src/resources/a/./b.j2"), "a/./b.j2");
    assert_eq!(template_name("src/resources//a.j2"), "a.j2");
    assert_eq!(template_name("src/resources/./a.j2"), "a.j2");
    assert_eq!(template_name("src/resources/a//b.j2"), "a//b.j2");
    assert_eq!(template_name("src//./resources/a.j2/"), "a.j2");
    assert_eq!(template_name("src/resources/a/b.j2/."), "a/b.j2");
    for p in [
        "src/resources/index/page.j2",
        "src/resources/a/./b.j2",
        "src/resources//./x//y.j2//",
        "src/./resources/./a/../b.j2",
    ] {
        let std_name = std::path::Path::new(p).strip_prefix("src/resources/").unwrap();
        assert_eq!(template_name(p), std_name.to_str().unwrap());
    }
    match hot_reload_action(&comps("src/resources/./a//b.css"), "src/resources/./a//b.css", "css") {
        HotReloadAction::SwapStylesheet { href } => assert_eq!(href, "/assets/pages/a//b.css"),
        _ => panic!("expected a swap"),
    }
}

#[test]
fn hot_reload_actions() {
    match hot_reload_action(&comps("src/resources/index/page.j2"), "src/resources/index/page.j2", "j2") {
        HotReloadAction::ReloadTemplate { name } => assert_eq!(name, "index/page.j2"),
        _ => panic!("expected a template reload"),
    }
    assert!(matches!(
        hot_reload_action(&comps("src/assets/css/_vars.css"), "src/assets/css/_vars.css", "css"),
        HotReloadAction::Reload
    ));
    match hot_reload_action(&comps("src/assets/css/global.css"), "src/assets/css/global.css", "css") {
        HotReloadAction::SwapStylesheet { href } => assert_eq!(href, "/assets/css/global.css"),
        _ => panic!("expected a swap"),
    }
    match hot_reload_action(&comps("src/resources/index/page.css"), "src/resources/index/page.css", "css") {
        HotReloadAction::SwapStylesheet { href } => assert_eq!(href, "/assets/pages/index/page.css"),
        _ => panic!("expected a swap"),
    }
    assert!(matches!(hot_reload_action(&comps("other/a.css"), "other/a.css", "css"), HotReloadAction::Ignore));
    assert!(matches!(hot_reload_action(&comps("src/assets/ts/a.ts"), "src/assets/ts/a.ts", "ts"), HotReloadAction::Reload));
    assert!(matches!(hot_reload_action(&comps("src/a.png"), "src/a.png", "png"), HotReloadAction::Ignore));
}

#[test]
fn swap_script_text() {
    assert_eq!(
        stylesheet_swap_script("/assets/a.css"),
        "(()=>{const n='/assets/a.css',e=document.querySelector(`link[href^='${n}']`);if(!e)return;const t=e.cloneNode(!0);t.href=`${n}?t=${new Date().valueOf()}`,document.head.append(t),e.remove()})();"
    );
}

#[test]
fn hot_reload_hook_in_body_tag() {
    assert_eq!(
        with_hot_reload_hook("<body>x</body>", 42),
        "<body data-init=\"@get('/.hotreload?t=42',{retryScaler:1,retryMaxCount:60})\">x</body>"
    );
    assert_eq!(decimal_string(0), "0");
    assert_eq!(decimal_string(1234567890), "1234567890");
    assert_eq!(decimal_string(u64::MAX), "18446744073709551615");
}

#[test]
fn watcher_actions() {
    match watch_action("/home/u/p/assets/a.css", "css", "/home/u/p") {
        WatchAction::StylesheetChanged { href } => assert_eq!(href, "/assets/a.css"),
        _ => panic!("expected a stylesheet"),
    }
    assert!(matches!(watch_action("/home/u/p/templates/a.j2", "j2", "/home/u/p"), WatchAction::Reload));
    match watch_action("/x/a.css", "css", "") {
        WatchAction::StylesheetChanged { href } => assert_eq!(href, "/x/a.css"),
        _ => panic!("expected a stylesheet"),
    }
}

#[test]
fn reload_at_once_on_another_build() {
    assert!(rust_datastar_template::resources::dev::reload_at_once(1, 2));
    assert!(!rust_datastar_template::resources::dev::reload_at_once(7, 7));
}
