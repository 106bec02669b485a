//! Cookies and cookie jars: lookup by domain, the `Cookie` header, and the
//! Netscape and browser-JSON exchange formats.
use vstd::prelude::*;
use crate::clock::{
    in_time_range, MIN_TIMESTAMP_SECS, MAX_TIMESTAMP_SECS,     instant_from_secs, instant_of_secs, now_micros, secs_of, secs_of_instant, Timestamp,
    MAX_TIMESTAMP_MICROS,
};
use crate::text::{
    free_of, is_ws, lemma_join_first, lemma_join_free_of, lemma_join_last, lemma_parse_dec_int,
    lemma_split_join, lemma_trim_fixed, lemma_dec_digits, all_digits, digits_value, digit_value, is_digit, dec, chars_eq, chars_eq_ignore_ascii_case, chars_of, clone_opt_string, dec_int, ends_with,
    eq_ignore_ascii_case, has_prefix, has_suffix, i64_to_string, join, lemma_join_push, opt_view,
    parse_i64, parse_i64_chars, split, split_chars, starts_with, string_from_chars, string_from_str,
    string_push, string_push_str, trim, trim_chars, trim_start_char, trim_start_char_exec,
};

verus! {

/// A single cookie.
#[derive(Debug)]
pub struct CookieEntry {
    pub name: String,
    pub value: String,
    pub domain: String,
    pub path: String,
    pub secure: bool,
    pub http_only: bool,
    pub same_site: Option<String>,
    /// Expiry instant (microseconds since the epoch), if any.
    pub expires: Option<Timestamp>,
}

/// What a cookie is, as plain values.
pub struct CookieView {
    pub name: Seq<char>,
    pub value: Seq<char>,
    pub domain: Seq<char>,
    pub path: Seq<char>,
    pub secure: bool,
    pub http_only: bool,
    pub same_site: Option<Seq<char>>,
    pub expires: Option<i64>,
}

impl View for CookieEntry {
    type V = CookieView;

    open spec fn view(&self) -> CookieView {
        CookieView {
            name: self.name@,
            value: self.value@,
            domain: self.domain@,
            path: self.path@,
            secure: self.secure,
            http_only: self.http_only,
            same_site: opt_view(self.same_site),
            expires: self.expires,
        }
    }
}

impl Clone for CookieEntry {
    fn clone(&self) -> (r: Self)
        ensures
            r@ == self@,
    {
        CookieEntry {
            name: self.name.clone(),
            value: self.value.clone(),
            domain: self.domain.clone(),
            path: self.path.clone(),
            secure: self.secure,
            http_only: self.http_only,
            same_site: clone_opt_string(&self.same_site),
            expires: self.expires,
        }
    }
}

/// A fresh cookie: path `/`, not secure, not HTTP-only, no SameSite, no expiry.
pub open spec fn new_cookie(name: Seq<char>, value: Seq<char>, domain: Seq<char>) -> CookieView {
    CookieView {
        name,
        value,
        domain,
        path: seq!['/'],
        secure: false,
        http_only: false,
        same_site: None,
        expires: None,
    }
}

pub open spec fn expired_at(c: CookieView, now: int) -> bool {
    match c.expires {
        Some(e) => e < now,
        None => false,
    }
}

/// `name=value`, as a `Cookie` header carries it.
pub open spec fn header_pair(c: CookieView) -> Seq<char> {
    c.name + seq!['='] + c.value
}

impl CookieEntry {
    pub fn new(name: &str, value: &str, domain: &str) -> (c: CookieEntry)
        ensures
            c@ == new_cookie(name@, value@, domain@),
    {
        let mut path = String::new();
        string_push(&mut path, '/');
        CookieEntry {
            name: string_from_str(name),
            value: string_from_str(value),
            domain: string_from_str(domain),
            path,
            secure: false,
            http_only: false,
            same_site: None,
            expires: None,
        }
    }

    /// Whether the cookie had expired at instant `now`.
    pub fn is_expired_at(&self, now: Timestamp) -> (r: bool)
        ensures
            r == expired_at(self@, now as int),
    {
        match self.expires {
            Some(e) => e < now,
            None => false,
        }
    }

    /// Whether the cookie has expired, by the wall clock.
    pub fn is_expired(&self) -> (r: bool)
        ensures
            exists|now: int| 0 <= now <= MAX_TIMESTAMP_MICROS && r == expired_at(self@, now),
    {
        let now = now_micros();
        self.is_expired_at(now)
    }

    /// The cookie as a `Cookie` header value: `name=value`.
    pub fn header_value(&self) -> (s: String)
        ensures
            s@ == header_pair(self@),
    {
        let mut s = self.name.clone();
        string_push(&mut s, '=');
        string_push_str(&mut s, self.value.as_str());
        s
    }
}

// ---------------------------------------------------------------------------
// the jar as a sequence of cookies, one per (domain, name)
// ---------------------------------------------------------------------------

pub open spec fn same_key(a: CookieView, b: CookieView) -> bool {
    a.domain == b.domain && a.name == b.name
}

pub open spec fn keys_unique(s: Seq<CookieView>) -> bool {
    forall|i: int, j: int| 0 <= i < j < s.len() ==> !same_key(#[trigger] s[i], #[trigger] s[j])
}

/// Index of the last cookie with this domain and name, or -1.
pub open spec fn find_key(s: Seq<CookieView>, domain: Seq<char>, name: Seq<char>) -> int
    decreases s.len(),
{
    if s.len() == 0 {
        -1
    } else if s.last().domain == domain && s.last().name == name {
        s.len() - 1
    } else {
        find_key(s.drop_last(), domain, name)
    }
}

/// The jar after adding `c`, or replacing the cookie with its domain and name.
pub open spec fn jar_set(s: Seq<CookieView>, c: CookieView) -> Seq<CookieView> {
    let i = find_key(s, c.domain, c.name);
    if i >= 0 {
        s.update(i, c)
    } else {
        s.push(c)
    }
}

pub proof fn lemma_find_key(s: Seq<CookieView>, domain: Seq<char>, name: Seq<char>)
    ensures
        -1 <= find_key(s, domain, name) < s.len(),
        find_key(s, domain, name) >= 0 ==> s[find_key(s, domain, name)].domain == domain && s[find_key(
            s,
            domain,
            name,
        )].name == name,
        find_key(s, domain, name) == -1 ==> forall|i: int|
            0 <= i < s.len() ==> !(#[trigger] s[i].domain == domain && s[i].name == name),
    decreases s.len(),
{
    if s.len() > 0 {
        lemma_find_key(s.drop_last(), domain, name);
        assert forall|i: int| 0 <= i < s.len() - 1 implies s.drop_last()[i] == s[i] by {}
    }
}

pub proof fn lemma_jar_set_unique(s: Seq<CookieView>, c: CookieView)
    requires
        keys_unique(s),
    ensures
        keys_unique(jar_set(s, c)),
{
    lemma_find_key(s, c.domain, c.name);
    let t = jar_set(s, c);
    let k = find_key(s, c.domain, c.name);
    assert forall|i: int, j: int| 0 <= i < j < t.len() implies !same_key(#[trigger] t[i], #[trigger] t[j]) by {
        if k >= 0 {
            if i == k {
                assert(same_key(s[k], c));
                assert(!same_key(s[k], s[j]));
            } else if j == k {
                assert(same_key(s[k], c));
                assert(!same_key(s[i], s[k]));
            }
        } else {
            if j == s.len() {
                assert(!(s[i].domain == c.domain && s[i].name == c.name));
            }
        }
    }
}

/// The cookie the jar holds under a domain and name, if any.
pub open spec fn cookie_under(s: Seq<CookieView>, domain: Seq<char>, name: Seq<char>) -> Option<CookieView> {
    let i = find_key(s, domain, name);
    if i >= 0 {
        Some(s[i])
    } else {
        None
    }
}

/// After a cookie is set, the jar holds it under its domain and name, and
/// every other domain and name holds what it held before.
pub proof fn lemma_set_then_lookup(s: Seq<CookieView>, c: CookieView, domain: Seq<char>, name: Seq<char>)
    ensures
        cookie_under(jar_set(s, c), c.domain, c.name) == Some(c),
        !(domain == c.domain && name == c.name) ==> cookie_under(jar_set(s, c), domain, name)
            == cookie_under(s, domain, name),
{
    lemma_find_key(s, c.domain, c.name);
    lemma_find_key(s, domain, name);
    let u = jar_set(s, c);
    let i = find_key(s, c.domain, c.name);
    let f = find_key(s, domain, name);
    if i >= 0 {
        lemma_find_key_update(s, i, c, c.domain, c.name);
        lemma_find_key_update(s, i, c, domain, name);
        if f >= 0 && !(domain == c.domain && name == c.name) {
            assert(u[f] == s[f]);
        }
    } else {
        assert(u.drop_last() =~= s);
        if f >= 0 && !(domain == c.domain && name == c.name) {
            assert(u[f] == s[f]);
        }
    }
}

/// Replacing the cookie at `i` by one with the same key moves no key.
proof fn lemma_find_key_update(s: Seq<CookieView>, i: int, c: CookieView, domain: Seq<char>, name: Seq<char>)
    requires
        0 <= i < s.len(),
        same_key(s[i], c),
    ensures
        find_key(s.update(i, c), domain, name) == find_key(s, domain, name),
    decreases s.len(),
{
    let u = s.update(i, c);
    if i == s.len() - 1 {
        assert(u.drop_last() =~= s.drop_last());
    } else {
        assert(u.drop_last() =~= s.drop_last().update(i, c));
        lemma_find_key_update(s.drop_last(), i, c, domain, name);
    }
}

// ---------------------------------------------------------------------------
// lookup by domain
// ---------------------------------------------------------------------------

/// Whether a cookie set for `cookie_domain` applies to `domain`: the cookie
/// domain with its leading dots removed is the domain itself or a parent of it.
pub open spec fn domain_matches(cookie_domain: Seq<char>, domain: Seq<char>) -> bool {
    let n = trim_start_char(cookie_domain, '.');
    domain == n || ends_with(domain, seq!['.'] + n)
}

pub open spec fn visible_for(c: CookieView, domain: Seq<char>, now: int) -> bool {
    domain_matches(c.domain, domain) && !expired_at(c, now)
}

/// The unexpired cookies that apply to `domain`, in jar order.
pub open spec fn for_domain(s: Seq<CookieView>, domain: Seq<char>, now: int) -> Seq<CookieView>
    decreases s.len(),
{
    if s.len() == 0 {
        Seq::empty()
    } else {
        let r = for_domain(s.drop_last(), domain, now);
        if visible_for(s.last(), domain, now) {
            r.push(s.last())
        } else {
            r
        }
    }
}

/// The `Cookie` header for `domain`: its cookies' `name=value` pairs joined by `; `.
pub open spec fn cookie_header_text(s: Seq<CookieView>, domain: Seq<char>, now: int) -> Seq<char> {
    join(for_domain(s, domain, now).map_values(|c: CookieView| header_pair(c)), seq![';', ' '])
}

/// The cookies sent for a domain at `now` are exactly the jar's cookies that
/// apply to the domain and have not expired by then: a cookie whose expiry
/// is not before `now`, or that has none, is sent.
pub proof fn lemma_sent_cookies(s: Seq<CookieView>, domain: Seq<char>, now: int, c: CookieView)
    ensures
        for_domain(s, domain, now).contains(c) <==> (s.contains(c) && domain_matches(c.domain, domain)
            && (c.expires matches Some(e) ==> now <= e)),
    decreases s.len(),
{
    if s.len() > 0 {
        lemma_sent_cookies(s.drop_last(), domain, now, c);
        let r = for_domain(s.drop_last(), domain, now);
        assert(s.contains(c) <==> (s.drop_last().contains(c) || c == s.last())) by {
            if s.contains(c) && c != s.last() {
                let i = s.index_of(c);
                assert(s.drop_last()[i] == c);
            }
            if s.drop_last().contains(c) {
                let i = s.drop_last().index_of(c);
                assert(s[i] == c);
            }
            if c == s.last() {
                assert(s[s.len() - 1] == c);
            }
        }
        if visible_for(s.last(), domain, now) {
            assert(r.push(s.last()).contains(c) <==> (r.contains(c) || c == s.last())) by {
                if r.push(s.last()).contains(c) && c != s.last() {
                    let i = r.push(s.last()).index_of(c);
                    assert(r[i] == c);
                }
                if r.contains(c) {
                    let i = r.index_of(c);
                    assert(r.push(s.last())[i] == c);
                }
                if c == s.last() {
                    assert(r.push(s.last())[r.len() as int] == c);
                }
            }
        }
    }
}

/// A cookie sent at some instant is also sent at every earlier instant:
/// time only makes cookies expire.
pub proof fn lemma_sent_earlier(s: Seq<CookieView>, domain: Seq<char>, t1: int, t2: int, c: CookieView)
    requires
        t1 <= t2,
        for_domain(s, domain, t2).contains(c),
    ensures
        for_domain(s, domain, t1).contains(c),
{
    lemma_sent_cookies(s, domain, t2, c);
    lemma_sent_cookies(s, domain, t1, c);
}

// ---------------------------------------------------------------------------
// Netscape format
// ---------------------------------------------------------------------------

pub open spec fn true_text() -> Seq<char> {
    seq!['T', 'R', 'U', 'E']
}

pub open spec fn false_text() -> Seq<char> {
    seq!['F', 'A', 'L', 'S', 'E']
}

pub open spec fn http_only_prefix() -> Seq<char> {
    seq!['#', 'H', 't', 't', 'p', 'O', 'n', 'l', 'y', '_']
}

pub open spec fn netscape_header() -> Seq<char> {
    seq![
        '#',
        ' ',
        'N',
        'e',
        't',
        's',
        'c',
        'a',
        'p',
        'e',
        ' ',
        'H',
        'T',
        'T',
        'P',
        ' ',
        'C',
        'o',
        'o',
        'k',
        'i',
        'e',
        ' ',
        'F',
        'i',
        'l',
        'e',
    ]
}

/// The cookie parsed from the tab-separated fields of a Netscape line:
/// domain, (include-subdomains flag), path, secure, expiry seconds, name,
/// value; `http_only` tells whether the line carried the `#HttpOnly_` mark.
pub open spec fn netscape_entry(parts: Seq<Seq<char>>, http_only: bool) -> CookieView {
    CookieView {
        domain: parts[0],
        path: parts[2],
        secure: eq_ignore_ascii_case(parts[3], true_text()),
        expires: match parse_i64(parts[4]) {
            Some(ts) => if ts == 0 {
                None
            } else {
                instant_of_secs(ts as int)
            },
            None => None,
        },
        name: parts[5],
        value: parts[6],
        http_only,
        same_site: None,
    }
}

/// A cookie line (without its mark) applied to the jar: lines with fewer
/// than seven fields change nothing.
pub open spec fn netscape_record(jar: Seq<CookieView>, t: Seq<char>, http_only: bool) -> Seq<CookieView> {
    if split(t, '\t').len() >= 7 {
        jar_set(jar, netscape_entry(split(t, '\t'), http_only))
    } else {
        jar
    }
}

/// One line of a Netscape file applied to the jar: a line marked
/// `#HttpOnly_` is the cookie that follows the mark, HTTP-only; blank lines
/// and other comments change nothing.
pub open spec fn netscape_step(jar: Seq<CookieView>, line: Seq<char>) -> Seq<CookieView> {
    let t = trim(line);
    if t.len() == 0 {
        jar
    } else if starts_with(t, http_only_prefix()) {
        netscape_record(jar, t.subrange(http_only_prefix().len() as int, t.len() as int), true)
    } else if t[0] == '#' {
        jar
    } else {
        netscape_record(jar, t, false)
    }
}

pub open spec fn netscape_fold(jar: Seq<CookieView>, lines: Seq<Seq<char>>) -> Seq<CookieView>
    decreases lines.len(),
{
    if lines.len() == 0 {
        jar
    } else {
        netscape_step(netscape_fold(jar, lines.drop_last()), lines.last())
    }
}

/// The jar read from a Netscape cookie file. Lines are the pieces between
/// newlines; since every line is trimmed, a `\r` before a newline and an
/// empty piece after the last newline make no difference.
pub open spec fn parse_netscape(content: Seq<char>) -> Seq<CookieView> {
    netscape_fold(Seq::empty(), split(content, '\n'))
}

pub open spec fn expires_text(e: Option<i64>) -> Seq<char> {
    match e {
        Some(t) => dec_int(secs_of(t as int)),
        None => seq!['0'],
    }
}

/// The seven fields of a cookie's Netscape line.
pub open spec fn netscape_fields(c: CookieView) -> Seq<Seq<char>> {
    seq![
        c.domain,
        if starts_with(c.domain, seq!['.']) {
            true_text()
        } else {
            false_text()
        },
        c.path,
        if c.secure {
            true_text()
        } else {
            false_text()
        },
        expires_text(c.expires),
        c.name,
        c.value,
    ]
}

pub open spec fn netscape_line(c: CookieView) -> Seq<char> {
    join(netscape_fields(c), seq!['\t'])
}

/// A jar in Netscape format: the header line, then one line per cookie, joined by newlines.
pub open spec fn netscape_text(s: Seq<CookieView>) -> Seq<char> {
    join(seq![netscape_header()] + s.map_values(|c: CookieView| netscape_line(c)), seq!['\n'])
}

// ---------------------------------------------------------------------------
// browser JSON export
// ---------------------------------------------------------------------------

/// One item of a browser cookie export (such as EditThisCookie's), with the
/// fields this crate reads: each is `None` where the item lacks it or holds
/// a value of another JSON type. `expiration_secs` is `expirationDate`
/// truncated to whole seconds.
#[derive(Debug)]
pub struct JsonCookie {
    pub name: Option<String>,
    pub value: Option<String>,
    pub domain: Option<String>,
    pub path: Option<String>,
    pub secure: Option<bool>,
    pub http_only: Option<bool>,
    pub expiration_secs: Option<i64>,
}

/// The cookie an export item gives, if it has a name, a value and a domain.
pub open spec fn json_entry(item: JsonCookie) -> Option<CookieView> {
    match (item.name, item.value, item.domain) {
        (Some(n), Some(v), Some(d)) => {
            let base = new_cookie(n@, v@, d@);
            Some(
                CookieView {
                    path: match item.path {
                        Some(p) => p@,
                        None => base.path,
                    },
                    secure: match item.secure {
                        Some(b) => b,
                        None => base.secure,
                    },
                    http_only: match item.http_only {
                        Some(b) => b,
                        None => base.http_only,
                    },
                    expires: match item.expiration_secs {
                        Some(ts) => instant_of_secs(ts as int),
                        None => base.expires,
                    },
                    ..base
                },
            )
        },
        _ => None,
    }
}

pub open spec fn json_fold(items: Seq<JsonCookie>) -> Seq<CookieView>
    decreases items.len(),
{
    if items.len() == 0 {
        Seq::empty()
    } else {
        let jar = json_fold(items.drop_last());
        match json_entry(items.last()) {
            Some(c) => jar_set(jar, c),
            None => jar,
        }
    }
}

// ---------------------------------------------------------------------------
// the jar
// ---------------------------------------------------------------------------

/// A cookie jar: at most one cookie per (domain, name), kept in the order
/// in which each key was first set.
#[derive(Debug)]
pub struct CookieJar {
    cookies: Vec<CookieEntry>,
}

impl View for CookieJar {
    type V = Seq<CookieView>;

    closed spec fn view(&self) -> Seq<CookieView> {
        self.cookies@.map_values(|c: CookieEntry| c@)
    }
}

impl Clone for CookieJar {
    fn clone(&self) -> (r: Self)
        ensures
            r@ == self@,
    {
        let mut cookies: Vec<CookieEntry> = Vec::new();
        let mut i: usize = 0;
        while i < self.cookies.len()
            invariant
                i <= self.cookies@.len(),
                cookies@.len() == i,
                forall|k: int| 0 <= k < i ==> #[trigger] cookies@[k]@ == self.cookies@[k]@,
            decreases self.cookies@.len() - i,
        {
            cookies.push(self.cookies[i].clone());
            i = i + 1;
        }
        let r = CookieJar { cookies };
        assert(r@ =~= self@);
        r
    }
}

/// Appends a tab and `piece` to a line built from the pieces `p`.
fn push_piece(line: &mut String, piece: &str, Ghost(p): Ghost<Seq<Seq<char>>>)
    requires
        p.len() >= 1,
        old(line)@ == join(p, seq!['\t']),
    ensures
        final(line)@ == join(p.push(piece@), seq!['\t']),
{
    proof {
        lemma_join_push(p, piece@, seq!['\t']);
    }
    string_push(line, '\t');
    string_push_str(line, piece);
}

/// The characters of `v` from position `k` on.
fn drop_front(v: &Vec<char>, k: usize) -> (r: Vec<char>)
    requires
        k <= v@.len(),
    ensures
        r@ == v@.subrange(k as int, v@.len() as int),
{
    let mut r: Vec<char> = Vec::new();
    let mut i: usize = k;
    while i < v.len()
        invariant
            k <= i <= v@.len(),
            r@ == v@.subrange(k as int, i as int),
        decreases v@.len() - i,
    {
        r.push(v[i]);
        assert(v@.subrange(k as int, i + 1) == v@.subrange(k as int, i as int).push(v@[i as int]));
        i = i + 1;
    }
    r
}

impl CookieJar {
    /// Every (domain, name) occurs at most once.
    pub open spec fn wf(&self) -> bool {
        keys_unique(self@)
    }

    pub fn new() -> (j: CookieJar)
        ensures
            j@ == Seq::<CookieView>::empty(),
            j.wf(),
    {
        let j = CookieJar { cookies: Vec::new() };
        assert(j@ =~= Seq::<CookieView>::empty());
        j
    }

    /// The cookies, in the order in which each was first set.
    pub fn entries(&self) -> (r: &Vec<CookieEntry>)
        ensures
            r@.map_values(|c: CookieEntry| c@) == self@,
    {
        &self.cookies
    }

    /// Add a cookie, or replace the one with the same domain and name.
    pub fn set(&mut self, cookie: CookieEntry)
        requires
            old(self).wf(),
        ensures
            final(self)@ == jar_set(old(self)@, cookie@),
            final(self).wf(),
    {
        let ghost s = self@;
        let pos = self.position_of(&cookie);
        proof {
            lemma_jar_set_unique(s, cookie@);
            lemma_find_key(s, cookie@.domain, cookie@.name);
        }
        match pos {
            Some(k) => {
                self.cookies.set(k, cookie);
                assert(self@ =~= s.update(k as int, cookie@));
            },
            None => {
                self.cookies.push(cookie);
                assert(self@ =~= s.push(cookie@));
            },
        }
    }

    /// Where the cookie with this cookie's domain and name stands, if any.
    fn position_of(&self, cookie: &CookieEntry) -> (r: Option<usize>)
        ensures
            r == (if find_key(self@, cookie@.domain, cookie@.name) >= 0 {
                Some(find_key(self@, cookie@.domain, cookie@.name) as usize)
            } else {
                None::<usize>
            }),
    {
        let ghost s = self@;
        let n = self.cookies.len();
        let mut i: usize = n;
        assert(s.subrange(0, n as int) == s);
        while i > 0
            invariant
                i <= n,
                n == self.cookies@.len(),
                s == self@,
                find_key(s, cookie@.domain, cookie@.name) == find_key(
                    s.subrange(0, i as int),
                    cookie@.domain,
                    cookie@.name,
                ),
            decreases i,
        {
            let ghost t = s.subrange(0, i as int);
            assert(t.last() == self.cookies@[i - 1]@);
            assert(t.drop_last() == s.subrange(0, i - 1));
            if self.cookies[i - 1].domain == cookie.domain && self.cookies[i - 1].name
                == cookie.name {
                return Some(i - 1);
            }
            i = i - 1;
        }
        assert(s.subrange(0, 0).len() == 0);
        None
    }

    /// The unexpired cookies that apply to `domain` at instant `now`.
    pub fn get_for_domain_at(&self, domain: &str, now: Timestamp) -> (r: Vec<&CookieEntry>)
        ensures
            r@.map_values(|c: &CookieEntry| c@) == for_domain(self@, domain@, now as int),
    {
        let d = chars_of(domain);
        let mut dotted: Vec<char> = Vec::new();
        let mut r: Vec<&CookieEntry> = Vec::new();
        let mut i: usize = 0;
        while i < self.cookies.len()
            invariant
                i <= self.cookies@.len(),
                d@ == domain@,
                r@.map_values(|c: &CookieEntry| c@) == for_domain(
                    self@.subrange(0, i as int),
                    domain@,
                    now as int,
                ),
            decreases self.cookies@.len() - i,
        {
            let c = &self.cookies[i];
            let cd = chars_of(c.domain.as_str());
            let normalized = trim_start_char_exec(&cd, '.');
            dotted = Vec::new();
            dotted.push('.');
            let mut k: usize = 0;
            while k < normalized.len()
                invariant
                    k <= normalized@.len(),
                    dotted@ == seq!['.'] + normalized@.subrange(0, k as int),
                decreases normalized@.len() - k,
            {
                dotted.push(normalized[k]);
                proof {
                    assert(normalized@.subrange(0, k + 1) == normalized@.subrange(0, k as int).push(
                        normalized@[k as int],
                    ));
                }
                k = k + 1;
            }
            assert(normalized@.subrange(0, normalized@.len() as int) == normalized@);
            let matches = chars_eq(&d, &normalized) || has_suffix(&d, &dotted);
            let ghost before = r@.map_values(|c: &CookieEntry| c@);
            proof {
                let t = self@.subrange(0, i + 1);
                assert(t.drop_last() == self@.subrange(0, i as int));
                assert(t.last() == c@);
            }
            if matches && !c.is_expired_at(now) {
                r.push(c);
                assert(r@.map_values(|c: &CookieEntry| c@) =~= before.push(c@));
            }
            i = i + 1;
        }
        assert(self@.subrange(0, self@.len() as int) == self@);
        r
    }

    /// The unexpired cookies that apply to `domain` (including cookies set for
    /// a parent domain), by the wall clock.
    pub fn get_for_domain(&self, domain: &str) -> (r: Vec<&CookieEntry>)
        ensures
            exists|now: int|
                0 <= now <= MAX_TIMESTAMP_MICROS && r@.map_values(|c: &CookieEntry| c@)
                    == for_domain(self@, domain@, now),
    {
        let now = now_micros();
        self.get_for_domain_at(domain, now)
    }

    /// The `Cookie` header for `domain` at instant `now`.
    pub fn cookie_header_at(&self, domain: &str, now: Timestamp) -> (s: String)
        ensures
            s@ == cookie_header_text(self@, domain@, now as int),
    {
        let found = self.get_for_domain_at(domain, now);
        let ghost cs = found@.map_values(|c: &CookieEntry| c@);
        let ghost pairs = cs.map_values(|c: CookieView| header_pair(c));
        let mut s = String::new();
        let mut i: usize = 0;
        while i < found.len()
            invariant
                i <= found@.len(),
                cs == found@.map_values(|c: &CookieEntry| c@),
                pairs == cs.map_values(|c: CookieView| header_pair(c)),
                s@ == join(pairs.subrange(0, i as int), seq![';', ' ']),
            decreases found@.len() - i,
        {
            let pair = found[i].header_value();
            let ghost before = s@;
            proof {
                assert(pairs[i as int] == pair@);
                assert(pairs.subrange(0, i + 1) == pairs.subrange(0, i as int).push(pair@));
            }
            if i > 0 {
                string_push_str(&mut s, "; ");
                proof {
                    reveal_strlit("; ");
                    lemma_join_push(pairs.subrange(0, i as int), pair@, seq![';', ' ']);
                }
            } else {
                proof {
                    assert(pairs.subrange(0, 1) == seq![pair@]);
                    assert(before == Seq::<char>::empty());
                }
            }
            string_push_str(&mut s, pair.as_str());
            i = i + 1;
        }
        assert(pairs.subrange(0, pairs.len() as int) == pairs);
        s
    }

    /// The `Cookie` header for `domain`, by the wall clock.
    pub fn cookie_header(&self, domain: &str) -> (s: String)
        ensures
            exists|now: int|
                0 <= now <= MAX_TIMESTAMP_MICROS && s@ == cookie_header_text(self@, domain@, now),
    {
        let now = now_micros();
        self.cookie_header_at(domain, now)
    }

    /// Parse a Netscape cookie file.
    pub fn from_netscape(content: &str) -> (j: CookieJar)
        ensures
            j@ == parse_netscape(content@),
            j.wf(),
    {
        let chars = chars_of(content);
        let lines = split_chars(&chars, '\n');
        let ghost ls = split(content@, '\n');
        let mut jar = CookieJar::new();
        let mut i: usize = 0;
        while i < lines.len()
            invariant
                i <= lines@.len(),
                lines@.len() == ls.len(),
                forall|k: int| 0 <= k < lines@.len() ==> #[trigger] lines@[k]@ == ls[k],
                jar@ == netscape_fold(Seq::empty(), ls.subrange(0, i as int)),
                jar.wf(),
            decreases lines@.len() - i,
        {
            proof {
                let t = ls.subrange(0, i + 1);
                assert(t.drop_last() == ls.subrange(0, i as int));
                assert(t.last() == lines@[i as int]@);
            }
            let trimmed = trim_chars(&lines[i]);
            if trimmed.len() == 0 {
                i = i + 1;
                continue ;
            }
            let marked = has_prefix(&trimmed, &['#', 'H', 't', 't', 'p', 'O', 'n', 'l', 'y', '_']);
            if !marked && trimmed[0] == '#' {
                i = i + 1;
                continue ;
            }
            let t = if marked {
                drop_front(&trimmed, 10)
            } else {
                trimmed
            };
            let parts = split_chars(&t, '\t');
            if parts.len() >= 7 {
                let expires = match parse_i64_chars(&parts[4]) {
                    Some(ts) => if ts == 0 {
                        None
                    } else {
                        instant_from_secs(ts)
                    },
                    None => None,
                };
                let entry = CookieEntry {
                    domain: string_from_chars(&parts[0]),
                    path: string_from_chars(&parts[2]),
                    secure: chars_eq_ignore_ascii_case(&parts[3], &['T', 'R', 'U', 'E']),
                    expires,
                    name: string_from_chars(&parts[5]),
                    value: string_from_chars(&parts[6]),
                    http_only: marked,
                    same_site: None,
                };
                proof {
                    let ps = split(t@, '\t');
                    assert(entry@ == netscape_entry(ps, marked));
                }
                jar.set(entry);
            }
            i = i + 1;
        }
        assert(ls.subrange(0, ls.len() as int) == ls);
        jar
    }

    /// Export in Netscape format.
    pub fn to_netscape(&self) -> (s: String)
        ensures
            s@ == netscape_text(self@),
    {
        let ghost lines = seq![netscape_header()] + self@.map_values(
            |c: CookieView| netscape_line(c),
        );
        let mut s = String::new();
        string_push_str(&mut s, "# Netscape HTTP Cookie File");
        proof {
            reveal_strlit("# Netscape HTTP Cookie File");
            assert(s@ == netscape_header());
            assert(lines.subrange(0, 1) == seq![netscape_header()]);
        }
        let mut i: usize = 0;
        while i < self.cookies.len()
            invariant
                i <= self.cookies@.len(),
                lines == seq![netscape_header()] + self@.map_values(
                    |c: CookieView| netscape_line(c),
                ),
                s@ == join(lines.subrange(0, i + 1), seq!['\n']),
            decreases self.cookies@.len() - i,
        {
            let c = &self.cookies[i];
            let line = self.line_of(i);
            proof {
                assert(lines[i + 1] == netscape_line(self@[i as int]));
                assert(lines.subrange(0, i + 2) == lines.subrange(0, i + 1).push(lines[i + 1]));
                lemma_join_push(lines.subrange(0, i + 1), line@, seq!['\n']);
            }
            string_push(&mut s, '\n');
            string_push_str(&mut s, line.as_str());
            proof {
                assert(s@ == join(lines.subrange(0, i + 1), seq!['\n']) + seq!['\n'] + line@);
            }
            i = i + 1;
        }
        assert(lines.subrange(0, self@.len() + 1 as int) == lines);
        s
    }

    /// The Netscape line of the `i`-th cookie.
    fn line_of(&self, i: usize) -> (line: String)
        requires
            i < self.cookies@.len(),
        ensures
            line@ == netscape_line(self@[i as int]),
    {
        let c = &self.cookies[i];
        let ghost cv = self@[i as int];
        let ghost f = netscape_fields(cv);
        assert(cv == c@);
        let mut line = c.domain.clone();
        assert(seq![f[0]] == f.subrange(0, 1));
        let flag = if self.domain_starts_with_dot(i) {
            string_from_str("TRUE")
        } else {
            string_from_str("FALSE")
        };
        proof {
            reveal_strlit("TRUE");
            reveal_strlit("FALSE");
            assert(flag@ =~= f[1]);
        }
        push_piece(&mut line, flag.as_str(), Ghost(f.subrange(0, 1)));
        assert(f.subrange(0, 1).push(flag@) == f.subrange(0, 2));
        push_piece(&mut line, c.path.as_str(), Ghost(f.subrange(0, 2)));
        assert(f.subrange(0, 2).push(c.path@) == f.subrange(0, 3));
        let sec = if c.secure {
            string_from_str("TRUE")
        } else {
            string_from_str("FALSE")
        };
        proof {
            reveal_strlit("TRUE");
            reveal_strlit("FALSE");
            assert(sec@ =~= f[3]);
        }
        push_piece(&mut line, sec.as_str(), Ghost(f.subrange(0, 3)));
        assert(f.subrange(0, 3).push(sec@) == f.subrange(0, 4));
        let exp = match c.expires {
            Some(t) => i64_to_string(secs_of_instant(t)),
            None => string_from_str("0"),
        };
        proof {
            reveal_strlit("0");
            assert(exp@ =~= f[4]);
        }
        push_piece(&mut line, exp.as_str(), Ghost(f.subrange(0, 4)));
        assert(f.subrange(0, 4).push(exp@) == f.subrange(0, 5));
        push_piece(&mut line, c.name.as_str(), Ghost(f.subrange(0, 5)));
        assert(f.subrange(0, 5).push(c.name@) == f.subrange(0, 6));
        push_piece(&mut line, c.value.as_str(), Ghost(f.subrange(0, 6)));
        assert(f.subrange(0, 6).push(c.value@) == f);
        line
    }

    fn domain_starts_with_dot(&self, i: usize) -> (r: bool)
        requires
            i < self.cookies@.len(),
        ensures
            r == starts_with(self@[i as int].domain, seq!['.']),
    {
        let d = chars_of(self.cookies[i].domain.as_str());
        assert(self@[i as int] == self.cookies@[i as int]@);
        let r = has_prefix(&d, &['.']);
        assert(seq!['.'] =~= ['.']@);
        r
    }

    /// Read a browser JSON export: items without a string name, value and
    /// domain are skipped; path, secure, httpOnly and expirationDate are taken
    /// where present.
    pub fn from_json_export(items: &[JsonCookie]) -> (j: CookieJar)
        ensures
            j@ == json_fold(items@),
            j.wf(),
    {
        let mut jar = CookieJar::new();
        let mut i: usize = 0;
        while i < items.len()
            invariant
                i <= items@.len(),
                jar@ == json_fold(items@.subrange(0, i as int)),
                jar.wf(),
            decreases items@.len() - i,
        {
            let item = &items[i];
            proof {
                let t = items@.subrange(0, i + 1);
                assert(t.drop_last() == items@.subrange(0, i as int));
                assert(t.last() == *item);
            }
            match (&item.name, &item.value, &item.domain) {
                (Some(n), Some(v), Some(d)) => {
                    let mut entry = CookieEntry::new(n.as_str(), v.as_str(), d.as_str());
                    if let Some(p) = &item.path {
                        entry.path = p.clone();
                    }
                    if let Some(b) = item.secure {
                        entry.secure = b;
                    }
                    if let Some(b) = item.http_only {
                        entry.http_only = b;
                    }
                    if let Some(ts) = item.expiration_secs {
                        entry.expires = instant_from_secs(ts);
                    }
                    assert(json_entry(*item) == Some(entry@));
                    jar.set(entry);
                },
                _ => {},
            }
            i = i + 1;
        }
        assert(items@.subrange(0, items@.len() as int) == items@);
        jar
    }

    pub fn is_empty(&self) -> (r: bool)
        ensures
            r == (self@.len() == 0),
    {
        self.cookies.len() == 0
    }

    /// The number of cookies in the jar.
    pub fn count(&self) -> (n: usize)
        ensures
            n == self@.len(),
    {
        self.cookies.len()
    }
}


// ---------------------------------------------------------------------------
// the Netscape round trip
// ---------------------------------------------------------------------------

/// A cookie whose fields the Netscape format carries: its line neither
/// starts nor ends in whitespace nor starts like a comment, its fields hold
/// no tab or newline, and its expiry is whole seconds other than the epoch
/// itself. (The format does not carry the HTTP-only flag, which an export
/// does not mark, nor SameSite.)
pub open spec fn netscape_safe(c: CookieView) -> bool {
    &&& c.domain.len() > 0
    &&& !is_ws(c.domain[0])
    &&& c.domain[0] != '#'
    &&& c.value.len() > 0
    &&& !is_ws(c.value.last())
    &&& free_of(c.domain, '\t') && free_of(c.domain, '\n')
    &&& free_of(c.path, '\t') && free_of(c.path, '\n')
    &&& free_of(c.name, '\t') && free_of(c.name, '\n')
    &&& free_of(c.value, '\t') && free_of(c.value, '\n')
    &&& match c.expires {
        Some(t) => t % 1_000_000 == 0 && t != 0 && in_time_range(t as int),
        None => true,
    }
}

/// What the Netscape format keeps of a cookie: all but the HTTP-only flag
/// and SameSite, which come back at their defaults.
pub open spec fn carried(c: CookieView) -> CookieView {
    CookieView { http_only: false, same_site: None, ..c }
}

proof fn lemma_expires_text(e: Option<i64>)
    ensures
        free_of(expires_text(e), '\t'),
        free_of(expires_text(e), '\n'),
        e is None ==> parse_i64(expires_text(e)) == Some(0i64),
        e is Some && e->0 % 1_000_000 == 0 && e->0 != 0 && in_time_range(e->0 as int) ==> exists|x: i64|
            parse_i64(expires_text(e)) == Some(x) && x != 0 && instant_of_secs(x as int) == e,
{
    match e {
        Some(t) => {
            let secs = secs_of(t as int);
            assert(i64::MIN <= secs <= i64::MAX);
            let n = secs as i64;
            lemma_parse_dec_int(n);
            let m = if secs < 0 { -secs } else { secs };
            lemma_dec_digits(m as nat);
            let d = dec(m as nat);
            assert(all_digits(d));
            assert(expires_text(e) == dec_int(secs));
            if secs < 0 {
                assert forall|i: int| 0 <= i < dec_int(secs).len() implies dec_int(secs)[i] != '\t'
                    && dec_int(secs)[i] != '\n' by {
                    if i > 0 {
                        assert(dec_int(secs)[i] == d[i - 1]);
                    }
                }
            }
            if t % 1_000_000 == 0 && t != 0 && in_time_range(t as int) {
                assert(secs * 1_000_000 == t);
                assert(secs != 0);
                assert(n as int == secs);
                assert(MIN_TIMESTAMP_SECS <= secs <= MAX_TIMESTAMP_SECS);
                assert(parse_i64(expires_text(e)) == Some(n));
                assert(instant_of_secs(n as int) == Some(t));
            }
        },
        None => {
            let z = seq!['0'];
            assert(z.drop_last().len() == 0);
            assert(digits_value(z.drop_last()) == 0);
            assert(digit_value('0') == 0);
            assert(digits_value(z) == 0);
            assert(is_digit(z[0]));
            assert(all_digits(z));
            assert(expires_text(e) == z);
            assert(parse_i64(z) == Some(0i64));
        },
    }
}

proof fn lemma_line_parses(c: CookieView)
    requires
        netscape_safe(c),
    ensures
        free_of(netscape_line(c), '\n'),
        forall|jar: Seq<CookieView>| #[trigger] netscape_step(jar, netscape_line(c)) == jar_set(
            jar,
            carried(c),
        ),
{
    let f = netscape_fields(c);
    lemma_expires_text(c.expires);
    assert(free_of(true_text(), '\t') && free_of(true_text(), '\n'));
    assert(free_of(false_text(), '\t') && free_of(false_text(), '\n'));
    assert forall|i: int| 0 <= i < f.len() implies free_of(#[trigger] f[i], '\t') && free_of(
        f[i],
        '\n',
    ) by {}
    lemma_join_free_of(f, seq!['\t'], '\n');
    lemma_split_join(f, '\t');
    lemma_join_first(f, seq!['\t']);
    lemma_join_last(f, seq!['\t']);
    let line = netscape_line(c);
    lemma_trim_fixed(line);
    assert(trim(line) == line);
    assert(split(line, '\t') == f);
    let e = netscape_entry(f, false);
    assert(e.secure == c.secure) by {
        if !c.secure {
            assert(false_text().len() != true_text().len());
        }
    }
    assert(line[0] == c.domain[0]);
    assert(!starts_with(line, http_only_prefix())) by {
        if starts_with(line, http_only_prefix()) {
            assert(line.subrange(0, 10)[0] == http_only_prefix()[0]);
        }
    }
    assert(e.expires == c.expires);
    assert(e == carried(c));
}

proof fn lemma_fold_prefix(s: Seq<CookieView>, lines: Seq<Seq<char>>, k: int)
    requires
        0 <= k <= s.len(),
        keys_unique(s),
        forall|i: int| 0 <= i < s.len() ==> netscape_safe(#[trigger] s[i]),
        lines == seq![netscape_header()] + s.map_values(|c: CookieView| netscape_line(c)),
        trim(netscape_header()) == netscape_header(),
    ensures
        netscape_fold(Seq::empty(), lines.subrange(0, k + 1)) == s.subrange(0, k).map_values(
            |c: CookieView| carried(c),
        ),
    decreases k,
{
    if k == 0 {
        let t = lines.subrange(0, 1);
        assert(t.drop_last().len() == 0);
        assert(netscape_fold(Seq::empty(), t.drop_last()) == Seq::<CookieView>::empty());
        assert(t.last() == netscape_header());
        assert(netscape_header()[0] == '#');
        assert(starts_with(netscape_header(), http_only_prefix()) ==> netscape_header()[1]
            == http_only_prefix()[1]) by {
            if starts_with(netscape_header(), http_only_prefix()) {
                assert(netscape_header().subrange(0, 10)[1] == http_only_prefix()[1]);
            }
        }
        assert(netscape_step(Seq::empty(), netscape_header()) == Seq::<CookieView>::empty());
        assert(s.subrange(0, 0).map_values(|c: CookieView| carried(c)) =~= Seq::<
            CookieView,
        >::empty());
    } else {
        lemma_fold_prefix(s, lines, k - 1);
        let t = lines.subrange(0, k + 1);
        assert(t.drop_last() == lines.subrange(0, k));
        assert(t.last() == netscape_line(s[k - 1]));
        lemma_line_parses(s[k - 1]);
        let pre = s.subrange(0, k - 1).map_values(|c: CookieView| carried(c));
        let c = carried(s[k - 1]);
        lemma_find_key(pre, c.domain, c.name);
        if find_key(pre, c.domain, c.name) >= 0 {
            let j = find_key(pre, c.domain, c.name);
            assert(pre[j] == carried(s[j]));
            assert(same_key(s[j], s[k - 1]));
        }
        assert(jar_set(pre, c) =~= s.subrange(0, k).map_values(|c: CookieView| carried(c)));
        assert(netscape_fold(Seq::empty(), t) == netscape_step(
            netscape_fold(Seq::empty(), t.drop_last()),
            t.last(),
        ));
        assert(netscape_step(pre, netscape_line(s[k - 1])) == jar_set(pre, c));
    }
}

/// Exporting a jar in Netscape format and reading the text back gives the
/// same jar, in the same order, as far as the format carries each cookie
/// (see `netscape_safe` and `carried`).
pub proof fn lemma_netscape_roundtrip(s: Seq<CookieView>)
    requires
        keys_unique(s),
        forall|i: int| 0 <= i < s.len() ==> netscape_safe(#[trigger] s[i]),
    ensures
        parse_netscape(netscape_text(s)) == s.map_values(|c: CookieView| carried(c)),
{
    let h = netscape_header();
    let lines = seq![h] + s.map_values(|c: CookieView| netscape_line(c));
    assert forall|i: int| 0 <= i < lines.len() implies free_of(#[trigger] lines[i], '\n') by {
        if i > 0 {
            lemma_line_parses(s[i - 1]);
        }
    }
    lemma_split_join(lines, '\n');
    assert(split(netscape_text(s), '\n') == lines);
    assert(trim(h) == h) by {
        lemma_trim_fixed(h);
    }
    lemma_fold_prefix(s, lines, s.len() as int);
    assert(lines.subrange(0, s.len() + 1 as int) == lines);
    assert(s.subrange(0, s.len() as int) == s);
}

} // verus!
