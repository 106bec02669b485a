use deltegic::account::{Account, AccountError, AccountStore};
use deltegic::cookie::{CookieEntry, CookieJar};

fn account(id: u128, label: &str, site: &str) -> Account {
    Account::new_with(id, label, site, 1_000)
}

#[test]
fn new_account_defaults() {
    let a = account(1, "Mine", "example.com");
    assert_eq!(a.label, "Mine");
    assert_eq!(a.site, "example.com");
    assert!(a.username.is_none());
    assert!(a.cookies.is_empty());
    assert!(a.auto_match);
    assert!(a.url_patterns.is_empty());
    assert_eq!(a.created_at, 1_000);
    let b = Account::new("L", "s.com").with_username("me").with_url_pattern("*.s.com");
    assert_eq!(b.username.as_deref(), Some("me"));
    assert_eq!(b.url_patterns, vec!["*.s.com".to_string()]);
}

#[test]
fn account_cookie_header() {
    let mut jar = CookieJar::new();
    jar.set(CookieEntry::new("sid", "1", ".example.com"));
    let a = account(1, "a", "example.com").with_cookies(jar);
    assert_eq!(a.cookie_header("www.example.com"), "sid=1");
    assert_eq!(a.cookie_header("other.com"), "");
}

#[test]
fn store_add_get_update_remove() {
    let mut s = AccountStore::new("/tmp/accounts.json", None);
    assert_eq!(s.storage_path(), "/tmp/accounts.json");
    assert_eq!(s.add(account(1, "a", "a.com")), 1);
    s.add(account(2, "b", "b.com"));
    assert_eq!(s.list().len(), 2);
    assert_eq!(s.get(2).unwrap().label, "b");
    assert!(s.get(3).is_none());
    s.update(account(2, "b2", "b.com")).unwrap();
    assert_eq!(s.get(2).unwrap().label, "b2");
    assert!(matches!(s.update(account(3, "c", "c.com")), Err(AccountError::NotFound(3))));
    assert_eq!(s.remove(1).unwrap().label, "a");
    assert!(s.remove(1).is_none());
    assert_eq!(s.list().len(), 1);
}

#[test]
fn find_for_url_prefers_patterns_then_sites() {
    let mut s = AccountStore::new("p", None);
    s.add(account(1, "site", "example.com"));
    s.add(account(2, "glob", "zzz.org").with_url_pattern("*.example.com"));
    s.add(account(3, "regex", "zzz.org").with_url_pattern(r"/video/\d+"));
    let mut off = account(4, "off", "other.net").with_url_pattern("other.net");
    off.auto_match = false;
    s.add(off);
    assert_eq!(s.find_for_url("https://www.example.com/x").unwrap().id, 2);
    assert_eq!(s.find_for_url("https://cdn.net/video/123").unwrap().id, 3);
    assert_eq!(s.find_for_url("https://example.com/").unwrap().id, 2);
    assert!(s.find_for_url("https://other.net/").is_none());
    assert!(s.find_for_url("not a url").is_none());
    assert!(s.find_for_url("https://127.0.0.1/").is_none());
}

#[test]
fn find_for_url_by_site() {
    let mut s = AccountStore::new("p", None);
    s.add(account(1, "fb", ".facebook.com"));
    assert_eq!(s.find_for_url("https://m.facebook.com/a").unwrap().id, 1);
    assert_eq!(s.find_for_url("https://facebook.com/a").unwrap().id, 1);
    assert!(s.find_for_url("https://instagram.com/a").is_none());
}

#[test]
fn sealing_without_key_is_hex() {
    let s = AccountStore::new("p", None);
    let a = account(9, "lbl", "site");
    let e = s.encrypt_account(&a, b"{\"x\":1}").unwrap();
    assert_eq!(e.id, 9);
    assert_eq!(e.label, "lbl");
    assert_eq!(e.site, "site");
    assert_eq!(e.nonce, "");
    assert_eq!(e.ciphertext, "7b2278223a317d");
    assert_eq!(s.decrypt_account(&e).unwrap(), b"{\"x\":1}".to_vec());
}

#[test]
fn sealing_with_key_roundtrips() {
    let s = AccountStore::new("p", Some("secret"));
    let a = account(9, "lbl", "site");
    let plain = b"{\"cookies\":[]}".to_vec();
    let e = s.encrypt_account(&a, &plain).unwrap();
    assert_eq!(e.nonce.len(), 24);
    assert_eq!(e.ciphertext.len(), 2 * (plain.len() + 16));
    assert_ne!(e.ciphertext, "7b22636f6f6b696573223a5b5d7d");
    assert_eq!(s.decrypt_account(&e).unwrap(), plain);
    let e2 = s.encrypt_account(&a, &plain).unwrap();
    assert_ne!(e.nonce, e2.nonce);
}

#[test]
fn opening_fails_on_bad_input() {
    let s = AccountStore::new("p", Some("secret"));
    let other = AccountStore::new("p", Some("other"));
    let a = account(9, "lbl", "site");
    let e = s.encrypt_account(&a, b"data").unwrap();
    assert!(matches!(other.decrypt_account(&e), Err(AccountError::Encryption(_))));
    let mut bad = s.encrypt_account(&a, b"data").unwrap();
    bad.ciphertext = "zz".to_string();
    assert!(matches!(s.decrypt_account(&bad), Err(AccountError::Encryption(_))));
    let mut tampered = s.encrypt_account(&a, b"data").unwrap();
    let last = if tampered.ciphertext.ends_with('0') { "1" } else { "0" };
    tampered.ciphertext.pop();
    tampered.ciphertext.push_str(last);
    assert!(matches!(s.decrypt_account(&tampered), Err(AccountError::Encryption(_))));
    let plain_store = AccountStore::new("p", None);
    let mut odd = plain_store.encrypt_account(&a, b"x").unwrap();
    odd.ciphertext.push('a');
    assert!(matches!(plain_store.decrypt_account(&odd), Err(AccountError::Encryption(_))));
}
