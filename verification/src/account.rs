//! Accounts for websites, the store that keeps them, which account serves a
//! URL, and how an account is sealed for storage.
use vstd::prelude::*;
use crate::clock::{new_uid, now_micros, Timestamp, Uid, MAX_TIMESTAMP_MICROS};
use crate::cookie::{cookie_header_text, CookieJar, CookieView};
use crate::crypto::{
    aes_gcm_decrypt, aes_gcm_encrypt, hex_decode, hex_decode_spec, hex_encode, hex_encode_spec,
    lemma_hex_roundtrip, random_nonce, sha256, spec_aes_gcm_decrypt, spec_aes_gcm_encrypt,
    spec_sha256, AES_GCM_P_MAX,
};
use crate::text::{
    chars_eq, chars_of, clone_opt_string, ends_with, has_suffix, opt_view, string_from_str,
    trim_start_char, trim_start_char_exec,
};
use crate::web::{regex_match, spec_regex_compiles, spec_regex_is_match, spec_url_domain, url_domain};

verus! {

pub type AccountId = Uid;

/// Errors of the account store.
#[derive(Debug)]
pub enum AccountError {
    NotFound(AccountId),
    Encryption(String),
    Other(String),
}

/// An account for a website or service.
#[derive(Debug)]
pub struct Account {
    pub id: AccountId,
    /// Friendly label (e.g. "My Facebook")
    pub label: String,
    /// Site or service the account is for (e.g. "facebook.com")
    pub site: String,
    /// Username or email, for display only
    pub username: Option<String>,
    /// Cookie jar of the account
    pub cookies: CookieJar,
    /// Extra headers to inject (e.g. Authorization), one value per name
    pub extra_headers: Vec<(String, String)>,
    /// Whether the account is used for matching URLs automatically
    pub auto_match: bool,
    /// URL patterns the account applies to (regex or glob)
    pub url_patterns: Vec<String>,
    pub created_at: Timestamp,
    pub updated_at: Timestamp,
    pub last_used: Option<Timestamp>,
}

/// What an account is, as plain values.
pub struct AccountView {
    pub id: AccountId,
    pub label: Seq<char>,
    pub site: Seq<char>,
    pub username: Option<Seq<char>>,
    pub cookies: Seq<CookieView>,
    pub extra_headers: Seq<(Seq<char>, Seq<char>)>,
    pub auto_match: bool,
    pub url_patterns: Seq<Seq<char>>,
    pub created_at: Timestamp,
    pub updated_at: Timestamp,
    pub last_used: Option<Timestamp>,
}

pub open spec fn header_views(h: Seq<(String, String)>) -> Seq<(Seq<char>, Seq<char>)> {
    h.map_values(|p: (String, String)| (p.0@, p.1@))
}

pub open spec fn string_views(s: Seq<String>) -> Seq<Seq<char>> {
    s.map_values(|p: String| p@)
}

impl View for Account {
    type V = AccountView;

    open spec fn view(&self) -> AccountView {
        AccountView {
            id: self.id,
            label: self.label@,
            site: self.site@,
            username: opt_view(self.username),
            cookies: self.cookies@,
            extra_headers: header_views(self.extra_headers@),
            auto_match: self.auto_match,
            url_patterns: string_views(self.url_patterns@),
            created_at: self.created_at,
            updated_at: self.updated_at,
            last_used: self.last_used,
        }
    }
}

fn clone_strings(v: &Vec<String>) -> (r: Vec<String>)
    ensures
        string_views(r@) == string_views(v@),
{
    let mut r: Vec<String> = Vec::new();
    let mut i: usize = 0;
    while i < v.len()
        invariant
            i <= v@.len(),
            r@.len() == i,
            forall|k: int| 0 <= k < i ==> (#[trigger] r@[k])@ == v@[k]@,
        decreases v@.len() - i,
    {
        r.push(v[i].clone());
        i = i + 1;
    }
    assert(string_views(r@) =~= string_views(v@));
    r
}

fn clone_headers(v: &Vec<(String, String)>) -> (r: Vec<(String, String)>)
    ensures
        header_views(r@) == header_views(v@),
{
    let mut r: Vec<(String, String)> = Vec::new();
    let mut i: usize = 0;
    while i < v.len()
        invariant
            i <= v@.len(),
            r@.len() == i,
            forall|k: int|
                0 <= k < i ==> (#[trigger] r@[k]).0@ == v@[k].0@ && r@[k].1@ == v@[k].1@,
        decreases v@.len() - i,
    {
        r.push((v[i].0.clone(), v[i].1.clone()));
        i = i + 1;
    }
    assert(header_views(r@) =~= header_views(v@));
    r
}

impl Clone for Account {
    fn clone(&self) -> (r: Self)
        ensures
            r@ == self@,
    {
        Account {
            id: self.id,
            label: self.label.clone(),
            site: self.site.clone(),
            username: clone_opt_string(&self.username),
            cookies: self.cookies.clone(),
            extra_headers: clone_headers(&self.extra_headers),
            auto_match: self.auto_match,
            url_patterns: clone_strings(&self.url_patterns),
            created_at: self.created_at,
            updated_at: self.updated_at,
            last_used: self.last_used,
        }
    }
}

/// A fresh account: no username, no cookies, no headers, matching
/// automatically, no patterns, created and updated at `now`.
pub open spec fn new_account(id: AccountId, label: Seq<char>, site: Seq<char>, now: Timestamp) -> AccountView {
    AccountView {
        id,
        label,
        site,
        username: None,
        cookies: Seq::empty(),
        extra_headers: Seq::empty(),
        auto_match: true,
        url_patterns: Seq::empty(),
        created_at: now,
        updated_at: now,
        last_used: None,
    }
}

impl Account {
    /// A fresh account with the given identity, created at `now`.
    pub fn new_with(id: AccountId, label: &str, site: &str, now: Timestamp) -> (a: Account)
        ensures
            a@ == new_account(id, label@, site@, now),
            a.cookies.wf(),
    {
        let a = Account {
            id,
            label: string_from_str(label),
            site: string_from_str(site),
            username: None,
            cookies: CookieJar::new(),
            extra_headers: Vec::new(),
            auto_match: true,
            url_patterns: Vec::new(),
            created_at: now,
            updated_at: now,
            last_used: None,
        };
        assert(a@.extra_headers =~= Seq::<(Seq<char>, Seq<char>)>::empty());
        assert(a@.url_patterns =~= Seq::<Seq<char>>::empty());
        a
    }

    /// A fresh account with a random v4 identity, created now.
    pub fn new(label: &str, site: &str) -> (a: Account)
        ensures
            exists|id: AccountId, now: Timestamp|
                0 <= now <= MAX_TIMESTAMP_MICROS && a@ == new_account(id, label@, site@, now),
            a.cookies.wf(),
            (a.id >> 76u128) & 0xf == 4,
            (a.id >> 62u128) & 0x3 == 2,
    {
        let id = new_uid();
        let now = now_micros();
        Account::new_with(id, label, site, now)
    }

    pub fn with_cookies(self, jar: CookieJar) -> (a: Account)
        ensures
            a@ == (AccountView { cookies: jar@, ..self@ }),
    {
        let mut a = self;
        a.cookies = jar;
        a
    }

    pub fn with_username(self, username: &str) -> (a: Account)
        ensures
            a@ == (AccountView { username: Some(username@), ..self@ }),
    {
        let mut a = self;
        a.username = Some(string_from_str(username));
        a
    }

    pub fn with_url_pattern(self, pattern: &str) -> (a: Account)
        ensures
            a@ == (AccountView { url_patterns: self@.url_patterns.push(pattern@), ..self@ }),
    {
        let mut a = self;
        let ghost before = a@;
        a.url_patterns.push(string_from_str(pattern));
        assert(a@.url_patterns =~= before.url_patterns.push(pattern@));
        a
    }

    /// The `Cookie` header of the account's cookies for `domain`, by the wall clock.
    pub fn cookie_header(&self, domain: &str) -> (s: String)
        ensures
            exists|now: int|
                0 <= now <= MAX_TIMESTAMP_MICROS && s@ == cookie_header_text(
                    self@.cookies,
                    domain@,
                    now,
                ),
    {
        let s = self.cookies.cookie_header(domain);
        proof {
            let now = choose|now: int|
                0 <= now <= MAX_TIMESTAMP_MICROS && s@ == cookie_header_text(
                    self.cookies@,
                    domain@,
                    now,
                );
            assert(s@ == cookie_header_text(self@.cookies, domain@, now));
        }
        s
    }
}

// ---------------------------------------------------------------------------
// matching accounts to URLs
// ---------------------------------------------------------------------------

/// A pattern with its leading `*`s and then its leading `.`s removed.
pub open spec fn glob_suffix(pattern: Seq<char>) -> Seq<char> {
    trim_start_char(trim_start_char(pattern, '*'), '.')
}

/// A URL pattern applies when, as a regex, it compiles and matches the URL,
/// or, as a glob, the domain ends with it.
pub open spec fn pattern_hits(pattern: Seq<char>, url: Seq<char>, domain: Seq<char>) -> bool {
    (spec_regex_compiles(pattern) && spec_regex_is_match(pattern, url)) || ends_with(
        domain,
        glob_suffix(pattern),
    )
}

/// The account matches automatically and one of its patterns applies.
pub open spec fn patterns_hit(a: AccountView, url: Seq<char>, domain: Seq<char>) -> bool {
    a.auto_match && exists|i: int|
        0 <= i < a.url_patterns.len() && #[trigger] pattern_hits(a.url_patterns[i], url, domain)
}

/// The account matches automatically and the domain ends with its site
/// (leading dots removed).
pub open spec fn site_hits(a: AccountView, domain: Seq<char>) -> bool {
    let site = trim_start_char(a.site, '.');
    a.auto_match && (ends_with(domain, site) || domain == site)
}

/// Whether some account of the store has a pattern that applies.
pub open spec fn some_pattern_hits(m: Map<AccountId, AccountView>, url: Seq<char>, domain: Seq<char>) -> bool {
    exists|k: AccountId| m.dom().contains(k) && #[trigger] patterns_hit(m[k], url, domain)
}

/// `a` is an account of the store that may serve a URL: one with a pattern
/// that applies, or, where no account has one, one whose site the domain
/// ends with. (The store keeps no order among its accounts; any of several
/// such accounts may be the one picked.)
pub open spec fn serves(m: Map<AccountId, AccountView>, url: Seq<char>, domain: Seq<char>, a: AccountView) -> bool {
    &&& m.dom().contains(a.id)
    &&& m[a.id] == a
    &&& patterns_hit(a, url, domain) || (!some_pattern_hits(m, url, domain) && site_hits(a, domain))
}

/// What opening a sealed account gives: the hex ciphertext decoded and,
/// with a key, decrypted under the hex nonce; nothing where a hex text does
/// not decode or the ciphertext does not decrypt.
pub open spec fn opened(key: Option<Seq<u8>>, ciphertext: Seq<char>, nonce: Seq<char>) -> Option<Seq<u8>> {
    match hex_decode_spec(ciphertext) {
        None => None,
        Some(c) => match key {
            None => Some(c),
            Some(k) => match hex_decode_spec(nonce) {
                None => None,
                Some(n) => spec_aes_gcm_decrypt(k, n, c),
            },
        },
    }
}

/// An account sealed for storage: identity in the clear, the rest as hex
/// ciphertext with its hex nonce (or, without a key, as hex plaintext with
/// an empty nonce).
#[derive(Debug)]
pub struct EncryptedAccount {
    pub id: AccountId,
    pub label: String,
    pub site: String,
    pub nonce: String,
    pub ciphertext: String,
}

/// The store's key for a passphrase: its SHA-256.
pub open spec fn key_of(passphrase: Option<Seq<char>>) -> Option<Seq<u8>> {
    match passphrase {
        Some(p) => Some(spec_sha256(vstd::utf8::encode_utf8(p))),
        None => None,
    }
}

/// The store's accounts, keyed by id.
pub type AccountMap = dashmap::DashMap<AccountId, Account>;

/// What a map of accounts holds: each id with its account.
pub uninterp spec fn account_map(m: AccountMap) -> Map<AccountId, AccountView>;

pub open spec fn no_accounts() -> Map<AccountId, AccountView> {
    Map::empty()
}

pub open spec fn opt_account_view(o: Option<Account>) -> Option<AccountView> {
    match o {
        Some(a) => Some(a@),
        None => None,
    }
}

/// `DashMap::new`: an empty map.
#[verifier::external_body]
fn accounts_new() -> (r: AccountMap)
    ensures
        account_map(r) == no_accounts(),
{
    dashmap::DashMap::new()
}

/// `DashMap::insert`: the id now maps to the account, in place of any it
/// had; the other ids keep theirs.
#[verifier::external_body]
fn accounts_insert(m: &mut AccountMap, k: AccountId, v: Account)
    ensures
        account_map(*final(m)) == account_map(*old(m)).insert(k, v@),
{
    m.insert(k, v);
}

/// `DashMap::remove`: takes out the id's account, if it has one.
#[verifier::external_body]
fn accounts_remove(m: &mut AccountMap, k: AccountId) -> (r: Option<Account>)
    ensures
        account_map(*final(m)) == account_map(*old(m)).remove(k),
        opt_account_view(r) == (if account_map(*old(m)).dom().contains(k) {
            Some(account_map(*old(m))[k])
        } else {
            None
        }),
{
    m.remove(&k).map(|(_, a)| a)
}

/// `DashMap::get`, the account cloned out of the guard it comes in.
#[verifier::external_body]
fn accounts_get(m: &AccountMap, k: AccountId) -> (r: Option<Account>)
    ensures
        opt_account_view(r) == (if account_map(*m).dom().contains(k) {
            Some(account_map(*m)[k])
        } else {
            None
        }),
{
    m.get(&k).map(|a| a.clone())
}

/// `DashMap::contains_key`.
#[verifier::external_body]
fn accounts_contains(m: &AccountMap, k: AccountId) -> (r: bool)
    ensures
        r == account_map(*m).dom().contains(k),
{
    m.contains_key(&k)
}

/// `DashMap::iter`, keeping the ids: each id of the map once, in an order
/// that the map does not fix.
#[verifier::external_body]
fn accounts_ids(m: &AccountMap) -> (r: Vec<AccountId>)
    ensures
        r@.no_duplicates(),
        r@.to_set() == account_map(*m).dom(),
{
    m.iter().map(|e| *e.key()).collect()
}

/// After an account is added, looking up its id gives that account, and
/// every other id gives what it gave before.
pub proof fn lemma_add_then_get(m: Map<AccountId, AccountView>, a: AccountView, other: AccountId)
    ensures
        m.insert(a.id, a).dom().contains(a.id) && m.insert(a.id, a)[a.id] == a,
        other != a.id ==> (m.insert(a.id, a).dom().contains(other) == m.dom().contains(other) && (
        m.dom().contains(other) ==> m.insert(a.id, a)[other] == m[other])),
{
}

/// The store of accounts, keyed by id.
#[derive(Debug)]
pub struct AccountStore {
    accounts: AccountMap,
    storage_path: String,
    key: Option<Vec<u8>>,
}

impl AccountStore {
    pub closed spec fn accounts(&self) -> Map<AccountId, AccountView> {
        account_map(self.accounts)
    }

    pub closed spec fn storage_path_view(&self) -> Seq<char> {
        self.storage_path@
    }

    /// The encryption key, if the store has one.
    pub closed spec fn key(&self) -> Option<Seq<u8>> {
        match self.key {
            Some(k) => Some(k@),
            None => None,
        }
    }

    /// Each account is kept under its own id, and a key has 32 bytes.
    pub open spec fn wf(&self) -> bool {
        &&& forall|k: AccountId| self.accounts().dom().contains(k) ==> (#[trigger] self.accounts()[k]).id == k
        &&& self.key() matches Some(k) ==> k.len() == 32
    }

    /// An empty store that keeps its accounts at `storage_path`, encrypted
    /// under the SHA-256 of the passphrase if one is given.
    pub fn new(storage_path: &str, passphrase: Option<&str>) -> (s: AccountStore)
        ensures
            s.wf(),
            s.accounts() == no_accounts(),
            s.storage_path_view() == storage_path@,
            s.key() == key_of(
                match passphrase {
                    Some(p) => Some(p@),
                    None => None,
                },
            ),
    {
        let key = match passphrase {
            Some(pw) => Some(sha256(pw.as_bytes())),
            None => None,
        };
        AccountStore { accounts: accounts_new(), storage_path: string_from_str(storage_path), key }
    }

    /// Where the store keeps its accounts.
    pub fn storage_path(&self) -> (p: &str)
        ensures
            p@ == self.storage_path_view(),
    {
        self.storage_path.as_str()
    }

    /// Add an account, replacing the one with the same id.
    pub fn add(&mut self, account: Account) -> (id: AccountId)
        requires
            old(self).wf(),
        ensures
            id == account.id,
            final(self).wf(),
            final(self).key() == old(self).key(),
            final(self).storage_path_view() == old(self).storage_path_view(),
            final(self).accounts() == old(self).accounts().insert(account.id, account@),
    {
        let id = account.id;
        let ghost before = self.accounts();
        accounts_insert(&mut self.accounts, id, account);
        assert forall|k: AccountId| self.accounts().dom().contains(k) implies (#[trigger] self.accounts()[k]).id
            == k by {
            if k != id {
                assert(before.dom().contains(k));
            }
        }
        id
    }

    /// A copy of the account with this id.
    pub fn get(&self, id: AccountId) -> (r: Option<Account>)
        ensures
            opt_account_view(r) == (if self.accounts().dom().contains(id) {
                Some(self.accounts()[id])
            } else {
                None
            }),
    {
        accounts_get(&self.accounts, id)
    }

    /// Copies of all accounts, each once, in no particular order.
    pub fn list(&self) -> (r: Vec<Account>)
        requires
            self.wf(),
        ensures
            r@.len() == self.accounts().dom().len(),
            forall|i: int, j: int| 0 <= i < j < r@.len() ==> (#[trigger] r@[i]).id != (#[trigger] r@[j]).id,
            forall|i: int|
                0 <= i < r@.len() ==> self.accounts().dom().contains((#[trigger] r@[i]).id) && r@[i]@
                    == self.accounts()[r@[i].id],
            forall|k: AccountId|
                #[trigger] self.accounts().dom().contains(k) ==> exists|i: int| 0 <= i < r@.len() && r@[i].id == k,
    {
        let ids = accounts_ids(&self.accounts);
        let ghost ks = ids@;
        proof {
            ks.unique_seq_to_set();
        }
        let mut r: Vec<Account> = Vec::new();
        let mut i: usize = 0;
        while i < ids.len()
            invariant
                self.wf(),
                ks == ids@,
                ks.no_duplicates(),
                ks.to_set() == self.accounts().dom(),
                i <= ks.len(),
                r@.len() == i,
                forall|j: int| 0 <= j < i ==> (#[trigger] r@[j]).id == ks[j] && r@[j]@ == self.accounts()[ks[j]],
            decreases ks.len() - i,
        {
            let k = ids[i];
            assert(ks.contains(k));
            assert(ks.to_set().contains(k));
            let a = match accounts_get(&self.accounts, k) {
                Some(a) => a,
                None => {
                    assert(false);
                    return r;
                },
            };
            r.push(a);
            i = i + 1;
        }
        proof {
            assert forall|k: AccountId| #[trigger] self.accounts().dom().contains(k) implies exists|i: int|
                0 <= i < r@.len() && r@[i].id == k by {
                assert(ks.to_set().contains(k));
                let i = ks.index_of(k);
                assert(r@[i].id == k);
            }
            assert forall|a: int, b: int| 0 <= a < b < r@.len() implies (#[trigger] r@[a]).id != (
            #[trigger] r@[b]).id by {
                assert(r@[a].id == ks[a]);
                assert(r@[b].id == ks[b]);
            }
            assert forall|a: int| 0 <= a < r@.len() implies self.accounts().dom().contains(
                (#[trigger] r@[a]).id,
            ) && r@[a]@ == self.accounts()[r@[a].id] by {
                assert(r@[a].id == ks[a]);
                assert(ks.to_set().contains(ks[a]));
            }
        }
        r
    }

    /// Replace a stored account by a new version with the same id.
    pub fn update(&mut self, account: Account) -> (r: Result<(), AccountError>)
        requires
            old(self).wf(),
        ensures
            final(self).wf(),
            final(self).key() == old(self).key(),
            final(self).storage_path_view() == old(self).storage_path_view(),
            old(self).accounts().dom().contains(account.id) ==> r is Ok && final(self).accounts()
                == old(self).accounts().insert(account.id, account@),
            !old(self).accounts().dom().contains(account.id) ==> (r matches Err(AccountError::NotFound(x))
                && x == account.id && final(self).accounts() == old(self).accounts()),
    {
        let id = account.id;
        if accounts_contains(&self.accounts, id) {
            self.add(account);
            Ok(())
        } else {
            Err(AccountError::NotFound(id))
        }
    }

    /// Take out the account with this id.
    pub fn remove(&mut self, id: AccountId) -> (r: Option<Account>)
        requires
            old(self).wf(),
        ensures
            final(self).wf(),
            final(self).key() == old(self).key(),
            final(self).storage_path_view() == old(self).storage_path_view(),
            final(self).accounts() == old(self).accounts().remove(id),
            opt_account_view(r) == (if old(self).accounts().dom().contains(id) {
                Some(old(self).accounts()[id])
            } else {
                None
            }),
    {
        let ghost before = self.accounts();
        let r = accounts_remove(&mut self.accounts, id);
        assert forall|k: AccountId| self.accounts().dom().contains(k) implies (#[trigger] self.accounts()[k]).id
            == k by {
            assert(before.dom().contains(k));
        }
        r
    }

    /// The account that serves a URL: one with a pattern that applies (as a
    /// regex to the URL or as a glob to its domain), else one whose site the
    /// domain ends with; none for a URL without a domain. Accounts are tried
    /// in the map's order, which it does not fix.
    pub fn find_for_url(&self, url: &str) -> (r: Option<Account>)
        requires
            self.wf(),
        ensures
            spec_url_domain(url@) is None ==> r is None,
            spec_url_domain(url@) matches Some(d) ==> match r {
                Some(a) => serves(self.accounts(), url@, d, a@),
                None => forall|k: AccountId|
                    #[trigger] self.accounts().dom().contains(k) ==> !patterns_hit(self.accounts()[k], url@, d)
                        && !site_hits(self.accounts()[k], d),
            },
    {
        let domain = match url_domain(url) {
            Some(d) => d,
            None => {
                return None;
            },
        };
        let ghost d = domain@;
        let ghost m = self.accounts();
        let dc = chars_of(domain.as_str());
        let ids = accounts_ids(&self.accounts);
        let ghost ks = ids@;
        let mut i: usize = 0;
        while i < ids.len()
            invariant
                i <= ks.len(),
                ks == ids@,
                ks.to_set() == m.dom(),
                m == self.accounts(),
                self.wf(),
                dc@ == d,
                spec_url_domain(url@) == Some(d),
                forall|t: int| 0 <= t < i ==> !patterns_hit(m[#[trigger] ks[t]], url@, d),
            decreases ks.len() - i,
        {
            let k = ids[i];
            assert(ks.contains(k));
            assert(ks.to_set().contains(k));
            let a = match accounts_get(&self.accounts, k) {
                Some(a) => a,
                None => {
                    assert(false);
                    return None;
                },
            };
            assert(a@ == m[k]);
            if a.auto_match {
                let mut j: usize = 0;
                while j < a.url_patterns.len()
                    invariant
                        j <= a.url_patterns@.len(),
                        m == self.accounts(),
                        m[k] == a@,
                        m.dom().contains(k),
                        self.wf(),
                        dc@ == d,
                        spec_url_domain(url@) == Some(d),
                        a.auto_match,
                        forall|p: int|
                            0 <= p < j ==> !pattern_hits(#[trigger] a@.url_patterns[p], url@, d),
                    decreases a.url_patterns@.len() - j,
                {
                    let p = &a.url_patterns[j];
                    assert(a@.url_patterns[j as int] == p@);
                    let hit_regex = match regex_match(p.as_str(), url) {
                        Some(b) => b,
                        None => false,
                    };
                    let pc = chars_of(p.as_str());
                    let stars = trim_start_char_exec(&pc, '*');
                    let suffix = trim_start_char_exec(&stars, '.');
                    let hit_glob = has_suffix(&dc, &suffix);
                    if hit_regex || hit_glob {
                        assert(pattern_hits(a@.url_patterns[j as int], url@, d));
                        assert(patterns_hit(a@, url@, d));
                        assert(m[a@.id] == a@);
                        return Some(a);
                    }
                    j = j + 1;
                }
                assert(!patterns_hit(a@, url@, d));
            }
            i = i + 1;
        }
        assert(!some_pattern_hits(m, url@, d)) by {
            if some_pattern_hits(m, url@, d) {
                let k = choose|k: AccountId| m.dom().contains(k) && #[trigger] patterns_hit(m[k], url@, d);
                assert(ks.to_set().contains(k));
                let t = ks.index_of(k);
                assert(!patterns_hit(m[ks[t]], url@, d));
            }
        }
        let mut i: usize = 0;
        while i < ids.len()
            invariant
                i <= ks.len(),
                ks == ids@,
                ks.to_set() == m.dom(),
                m == self.accounts(),
                self.wf(),
                dc@ == d,
                spec_url_domain(url@) == Some(d),
                !some_pattern_hits(m, url@, d),
                forall|t: int| 0 <= t < i ==> !site_hits(m[#[trigger] ks[t]], d),
            decreases ks.len() - i,
        {
            let k = ids[i];
            assert(ks.contains(k));
            assert(ks.to_set().contains(k));
            let a = match accounts_get(&self.accounts, k) {
                Some(a) => a,
                None => {
                    assert(false);
                    return None;
                },
            };
            assert(a@ == m[k]);
            if a.auto_match {
                let sc = chars_of(a.site.as_str());
                let site = trim_start_char_exec(&sc, '.');
                if has_suffix(&dc, &site) || chars_eq(&dc, &site) {
                    assert(site_hits(a@, d));
                    assert(m[a@.id] == a@);
                    return Some(a);
                }
            }
            i = i + 1;
        }
        proof {
            assert forall|k: AccountId| #[trigger] m.dom().contains(k) implies !patterns_hit(m[k], url@, d)
                && !site_hits(m[k], d) by {
                assert(ks.to_set().contains(k));
                let t = ks.index_of(k);
                assert(!site_hits(m[ks[t]], d));
            }
        }
        None
    }

    /// Seal an account for storage. `plain` is the account's serialized form.
    /// With a key: a random nonce, the AES-256-GCM ciphertext, both in hex;
    /// without one: the plaintext in hex and an empty nonce.
    pub fn encrypt_account(&self, account: &Account, plain: &[u8]) -> (r: Result<
        EncryptedAccount,
        AccountError,
    >)
        requires
            self.wf(),
        ensures
            self.key() is None ==> (r matches Ok(e) && e.id == account.id && e.label@
                == account.label@ && e.site@ == account.site@ && e.nonce@ == Seq::<char>::empty()
                && e.ciphertext@ == hex_encode_spec(plain@)),
            self.key() matches Some(k) ==> (r is Err <==> plain@.len() > AES_GCM_P_MAX),
            self.key() matches Some(k) ==> (r matches Ok(e) ==> e.id == account.id && e.label@
                == account.label@ && e.site@ == account.site@ && exists|n: Seq<u8>|
                n.len() == 12 && e.nonce@ == hex_encode_spec(n) && e.ciphertext@ == hex_encode_spec(
                    spec_aes_gcm_encrypt(k, n, plain@),
                ) && spec_aes_gcm_decrypt(k, n, spec_aes_gcm_encrypt(k, n, plain@)) == Some(
                    plain@,
                )),
    {
        match &self.key {
            Some(key) => {
                let nonce = random_nonce();
                match aes_gcm_encrypt(key.as_slice(), nonce.as_slice(), plain) {
                    Ok(cipher) => {
                        proof {
                            lemma_hex_roundtrip(nonce@);
                            lemma_hex_roundtrip(cipher@);
                        }
                        Ok(
                        EncryptedAccount {
                            id: account.id,
                            label: account.label.clone(),
                            site: account.site.clone(),
                            nonce: hex_encode(nonce.as_slice()),
                            ciphertext: hex_encode(cipher.as_slice()),
                        },
                    )
                    },
                    Err(e) => Err(AccountError::Encryption(e)),
                }
            },
            None => {
                proof {
                    lemma_hex_roundtrip(plain@);
                }
                Ok(
                    EncryptedAccount {
                        id: account.id,
                        label: account.label.clone(),
                        site: account.site.clone(),
                        nonce: String::new(),
                        ciphertext: hex_encode(plain),
                    },
                )
            },
        }
    }

    /// Open a sealed account: the serialized form it holds.
    pub fn decrypt_account(&self, enc: &EncryptedAccount) -> (r: Result<Vec<u8>, AccountError>)
        requires
            self.wf(),
            self.key() is Some && hex_decode_spec(enc.ciphertext@) is Some && hex_decode_spec(
                enc.nonce@,
            ) is Some ==> hex_decode_spec(enc.nonce@)->0.len() == 12,
        ensures
            match r {
                Ok(p) => opened(self.key(), enc.ciphertext@, enc.nonce@) == Some(p@),
                Err(e) => opened(self.key(), enc.ciphertext@, enc.nonce@) is None && e is Encryption,
            },
    {
        let cipher = match hex_decode(enc.ciphertext.as_str()) {
            Ok(c) => c,
            Err(e) => {
                return Err(AccountError::Encryption(e));
            },
        };
        match &self.key {
            Some(key) => {
                let nonce = match hex_decode(enc.nonce.as_str()) {
                    Ok(n) => n,
                    Err(e) => {
                        return Err(AccountError::Encryption(e));
                    },
                };
                match aes_gcm_decrypt(key.as_slice(), nonce.as_slice(), cipher.as_slice()) {
                    Ok(p) => Ok(p),
                    Err(e) => Err(AccountError::Encryption(e)),
                }
            },
            None => Ok(cipher),
        }
    }
}

} // verus!
