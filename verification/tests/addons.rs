use deltegic::addon::{last_url_segment, AddonApiError, AddonInfo, AddonRegistry, PyContext, PyDownloadItem, PyHttpClient, PyStorage};

fn info(name: &str, path: &str) -> AddonInfo {
    AddonInfo {
        name: name.to_string(),
        version: "1.0".to_string(),
        description: String::new(),
        author: String::new(),
        supported_sites: vec!["example.com".to_string()],
        path: path.to_string(),
        enabled: true,
    }
}

#[test]
fn registry_records() {
    let mut r = AddonRegistry::new("/addons");
    assert_eq!(r.addon_dir(), "/addons");
    assert!(r.list().is_empty());
    r.register(info("yt", "/addons/yt"));
    r.register(info("fb", "/addons/fb"));
    r.register(info("yt", "/addons/yt2"));
    let mut names: Vec<String> = r.list().iter().map(|a| a.name.clone()).collect();
    names.sort();
    assert_eq!(names, vec!["fb", "yt"]);
    assert_eq!(r.get_info("yt").unwrap().path, "/addons/yt2");
    assert!(r.get_info("none").is_none());
}

#[test]
fn registry_enable_and_dispatch() {
    let mut r = AddonRegistry::new("/a");
    r.register(info("yt", "/a/yt"));
    assert!(r.is_dispatchable("yt"));
    r.enable("yt", false);
    assert!(!r.get_info("yt").unwrap().enabled);
    assert!(!r.is_dispatchable("yt"));
    assert!(r.is_dispatchable("unknown"));
    r.enable("unknown", false);
    assert_eq!(r.list().len(), 1);
}

#[test]
fn registry_unload() {
    let mut r = AddonRegistry::new("/a");
    r.register(info("yt", "/a/yt"));
    assert_eq!(r.unload("yt").unwrap(), "/a/yt");
    assert!(r.get_info("yt").is_none());
    assert!(matches!(r.unload("yt"), Err(AddonApiError::NotFound(n)) if n == "yt"));
}

#[test]
fn download_items() {
    let i = PyDownloadItem::new("https://cdn.example.com/v/clip.mp4", "Clip", "/o/clip.mp4", "");
    assert_eq!(i.filename, "clip.mp4");
    assert_eq!(i.size, -1);
    assert_eq!((i.index, i.total), (0, 1));
    assert!(i.headers.is_empty() && i.metadata.is_empty());
    let j = PyDownloadItem::new("https://x/y", "t", "", "named.bin");
    assert_eq!(j.filename, "named.bin");
    assert_eq!(last_url_segment("https://a/b/c").iter().collect::<String>(), "c");
    assert_eq!(last_url_segment("nothing").iter().collect::<String>(), "nothing");
}

#[test]
fn http_client_settings() {
    let mut c = PyHttpClient::new();
    c.set_cookie("a=1");
    c.set_header("User-Agent", "x");
    c.set_header("Accept", "y");
    c.set_header("User-Agent", "z");
    assert_eq!(c.cookies, "a=1");
    assert_eq!(c.headers, vec![("User-Agent".to_string(), "z".to_string()), ("Accept".to_string(), "y".to_string())]);
    let d = c.copy();
    assert_eq!(d.headers, c.headers);
    assert_eq!(PyHttpClient::create().cookies, "");
}

#[test]
fn context_options() {
    let mut ctx = PyContext::new("https://u", "/out");
    assert_eq!(ctx.url, "https://u");
    assert_eq!(ctx.storage().base_dir, "/out");
    assert_eq!(ctx.get_option("quality", "best"), "best");
    ctx.set_option("quality", "720p");
    ctx.set_option("quality", "1080p");
    assert_eq!(ctx.get_option("quality", "best"), "1080p");
    assert_eq!(ctx.options.len(), 1);
    ctx.set_cookies("sid=1");
    assert_eq!(ctx.http().cookies, "sid=1");
    ctx.http_mut().set_header("Authorization", "Bearer t");
    assert_eq!(ctx.http().headers, vec![("Authorization".to_string(), "Bearer t".to_string())]);
    assert_eq!(ctx.http().cookies, "sid=1");
    assert_eq!(PyContext::create("u", "o").output_dir, "o");
    assert_eq!(PyStorage::new("/s").base_dir, "/s");
}

#[test]
fn error_messages() {
    assert_eq!(AddonApiError::Python("x".to_string()).message(), "Python error: x");
    assert_eq!(AddonApiError::NotFound("yt".to_string()).message(), "Addon not found: yt");
    assert_eq!(AddonApiError::Load("l".to_string()).message(), "Addon load error: l");
    assert_eq!(AddonApiError::Execution("e".to_string()).message(), "Execution error: e");
    assert_eq!(AddonApiError::TypeError("t".to_string()).message(), "Type error: t");
    assert_eq!(AddonApiError::Other("plain".to_string()).message(), "plain");
}
