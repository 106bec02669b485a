use deltegic::cookie::{CookieEntry, CookieJar, JsonCookie};

fn jar_of(cookies: Vec<CookieEntry>) -> CookieJar {
    let mut jar = CookieJar::new();
    for c in cookies {
        jar.set(c);
    }
    jar
}

#[test]
fn new_cookie_defaults() {
    let c = CookieEntry::new("sid", "abc", ".example.com");
    assert_eq!(c.path, "/");
    assert!(!c.secure);
    assert!(!c.http_only);
    assert!(c.same_site.is_none());
    assert!(c.expires.is_none());
    assert_eq!(c.header_value(), "sid=abc");
}

#[test]
fn expiry() {
    let mut c = CookieEntry::new("a", "b", "x.com");
    assert!(!c.is_expired_at(i64::MAX));
    c.expires = Some(1_000_000);
    assert!(!c.is_expired_at(1_000_000));
    assert!(c.is_expired_at(1_000_001));
    c.expires = Some(0);
    assert!(c.is_expired());
}

#[test]
fn set_replaces_same_domain_and_name() {
    let mut jar = CookieJar::new();
    assert!(jar.is_empty());
    jar.set(CookieEntry::new("a", "1", "x.com"));
    jar.set(CookieEntry::new("b", "2", "x.com"));
    jar.set(CookieEntry::new("a", "3", "x.com"));
    jar.set(CookieEntry::new("a", "4", "y.com"));
    assert_eq!(jar.count(), 3);
    assert!(!jar.is_empty());
    assert_eq!(jar.cookie_header_at("x.com", 0), "a=3; b=2");
    assert_eq!(jar.cookie_header_at("y.com", 0), "a=4");
}

#[test]
fn domain_matching() {
    let jar = jar_of(vec![
        CookieEntry::new("root", "r", ".example.com"),
        CookieEntry::new("bare", "b", "example.com"),
        CookieEntry::new("other", "o", "other.com"),
        CookieEntry::new("sub", "s", "www.example.com"),
    ]);
    let names: Vec<String> = jar.get_for_domain_at("www.example.com", 0).iter().map(|c| c.name.clone()).collect();
    assert_eq!(names, vec!["root", "bare", "sub"]);
    assert_eq!(jar.cookie_header_at("example.com", 0), "root=r; bare=b");
    assert_eq!(jar.cookie_header_at("badexample.com", 0), "");
    assert_eq!(jar.cookie_header_at("nothing.org", 0), "");
}

#[test]
fn expired_cookies_are_left_out() {
    let mut old = CookieEntry::new("old", "1", "x.com");
    old.expires = Some(10);
    let jar = jar_of(vec![old, CookieEntry::new("new", "2", "x.com")]);
    assert_eq!(jar.cookie_header_at("x.com", 10), "old=1; new=2");
    assert_eq!(jar.cookie_header_at("x.com", 11), "new=2");
    assert_eq!(jar.cookie_header("x.com"), "new=2");
    assert_eq!(jar.get_for_domain("x.com").len(), 1);
}

#[test]
fn reads_netscape_files() {
    let content = "# Netscape HTTP Cookie File\n\
                   .example.com\tTRUE\t/\tTRUE\t1700000000\tsid\tabc\r\n\
                   \n\
                   # a comment\n\
                   #HttpOnly_.example.com\tTRUE\t/\tFALSE\t0\thidden\tx\n\
                   short\tline\n\
                   www.site.org\tFALSE\t/path\tfalse\t0\tlang\ten\n";
    let jar = CookieJar::from_netscape(content);
    assert_eq!(jar.count(), 3);
    let ex = jar.get_for_domain_at("example.com", 0);
    assert_eq!(ex.len(), 2);
    assert_eq!(ex[0].name, "sid");
    assert_eq!(ex[0].value, "abc");
    assert!(ex[0].secure);
    assert!(!ex[0].http_only);
    assert_eq!(ex[0].expires, Some(1_700_000_000_000_000));
    assert_eq!(ex[1].name, "hidden");
    assert_eq!(ex[1].domain, ".example.com");
    assert!(ex[1].http_only);
    assert!(!ex[1].secure);
    let site = jar.get_for_domain_at("www.site.org", 0);
    assert_eq!(site.len(), 1);
    assert_eq!(site[0].path, "/path");
    assert!(!site[0].secure);
    assert!(site[0].expires.is_none());
}

#[test]
fn netscape_bad_expiry_means_none() {
    let jar = CookieJar::from_netscape("a.com\tFALSE\t/\tTRUE\tsoon\tn\tv");
    let c = jar.get_for_domain_at("a.com", 0);
    assert_eq!(c.len(), 1);
    assert!(c[0].expires.is_none());
    assert!(c[0].secure);
}

#[test]
fn netscape_later_line_wins() {
    let jar = CookieJar::from_netscape("a.com\tFALSE\t/\tFALSE\t0\tn\tfirst\na.com\tFALSE\t/\tFALSE\t0\tn\tsecond\n");
    assert_eq!(jar.count(), 1);
    assert_eq!(jar.cookie_header_at("a.com", 0), "n=second");
}

#[test]
fn writes_netscape_files() {
    let mut a = CookieEntry::new("sid", "abc", ".example.com");
    a.secure = true;
    a.expires = Some(1_700_000_000_500_000);
    let b = CookieEntry::new("lang", "en", "site.org");
    let jar = jar_of(vec![a, b]);
    assert_eq!(
        jar.to_netscape(),
        "# Netscape HTTP Cookie File\n\
         .example.com\tTRUE\t/\tTRUE\t1700000000\tsid\tabc\n\
         site.org\tFALSE\t/\tFALSE\t0\tlang\ten"
    );
    assert_eq!(CookieJar::new().to_netscape(), "# Netscape HTTP Cookie File");
}

#[test]
fn netscape_roundtrip() {
    let mut a = CookieEntry::new("sid", "abc", ".example.com");
    a.secure = true;
    a.expires = Some(1_700_000_000_000_000);
    let mut b = CookieEntry::new("lang", "en", "site.org");
    b.path = "/docs".to_string();
    b.expires = Some(-86_400_000_000);
    let jar = jar_of(vec![a, b]);
    let back = CookieJar::from_netscape(&jar.to_netscape());
    assert_eq!(back.count(), 2);
    assert_eq!(back.to_netscape(), jar.to_netscape());
    let ex = back.get_for_domain_at("example.com", 0);
    assert_eq!(ex[0].expires, Some(1_700_000_000_000_000));
    assert!(ex[0].secure);
}

#[test]
fn reads_browser_exports() {
    let items = vec![
        JsonCookie {
            name: Some("sid".to_string()),
            value: Some("abc".to_string()),
            domain: Some(".example.com".to_string()),
            path: None,
            secure: Some(true),
            http_only: Some(true),
            expiration_secs: Some(1_700_000_000),
        },
        JsonCookie {
            name: Some("noval".to_string()),
            value: None,
            domain: Some("x.com".to_string()),
            path: None,
            secure: None,
            http_only: None,
            expiration_secs: None,
        },
        JsonCookie {
            name: Some("lang".to_string()),
            value: Some("en".to_string()),
            domain: Some("example.com".to_string()),
            path: Some("/p".to_string()),
            secure: None,
            http_only: None,
            expiration_secs: None,
        },
    ];
    let jar = CookieJar::from_json_export(&items);
    assert_eq!(jar.count(), 2);
    let c = jar.get_for_domain_at("example.com", 0);
    assert_eq!(c.len(), 2);
    assert!(c[0].secure && c[0].http_only);
    assert_eq!(c[0].expires, Some(1_700_000_000_000_000));
    assert_eq!(c[0].path, "/");
    assert_eq!(c[1].path, "/p");
    assert!(!c[1].secure && !c[1].http_only && c[1].expires.is_none());
}

#[test]
fn http_only_lines_are_cookies() {
    let jar = CookieJar::from_netscape("#HttpOnly_.example.com\tTRUE\t/\tTRUE\t0\tsid\tabc");
    assert_eq!(jar.count(), 1);
    assert_eq!(jar.cookie_header("www.example.com"), "sid=abc");
    let c = jar.get_for_domain_at("www.example.com", 0);
    assert!(c[0].secure && c[0].http_only);
    assert_eq!(c[0].domain, ".example.com");
    // a marked line with too few fields, and a bare mark, are dropped
    assert_eq!(CookieJar::from_netscape("#HttpOnly_a.com\tTRUE\n#HttpOnly_").count(), 0);
}

#[test]
fn roundtrip_keeps_what_the_format_carries() {
    let mut a = CookieEntry::new("sid", "abc", ".example.com");
    a.http_only = true;
    a.same_site = Some("Lax".to_string());
    a.expires = Some(1_700_000_000_000_000);
    let jar = jar_of(vec![a, CookieEntry::new("b", "2", "x.org")]);
    let back = CookieJar::from_netscape(&jar.to_netscape());
    assert_eq!(back.count(), 2);
    let e = back.entries();
    assert_eq!((e[0].name.as_str(), e[0].value.as_str(), e[0].domain.as_str()), ("sid", "abc", ".example.com"));
    assert_eq!(e[0].expires, Some(1_700_000_000_000_000));
    assert!(!e[0].http_only);
    assert!(e[0].same_site.is_none());
    assert_eq!(e[1].name, "b");
}
