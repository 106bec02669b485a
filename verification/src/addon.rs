//! The addon side: the registry's record of loaded addons, and the plain
//! objects handed to addons (download items, HTTP client settings, storage
//! location, execution context).
use vstd::prelude::*;
use crate::pairs::{clone_pairs, pair_views, pairs_get, pairs_insert, pairs_lookup, pairs_set};
use crate::text::{chars_of, split, split_chars, string_from_chars, string_from_str, string_push_str};

verus! {

/// Errors of the addon API.
#[derive(Debug)]
pub enum AddonApiError {
    Python(String),
    NotFound(String),
    Load(String),
    Execution(String),
    TypeError(String),
    Other(String),
}

impl AddonApiError {
    /// The error's message.
    pub open spec fn message_text(&self) -> Seq<char> {
        match self {
            AddonApiError::Python(m) => "Python error: "@ + m@,
            AddonApiError::NotFound(m) => "Addon not found: "@ + m@,
            AddonApiError::Load(m) => "Addon load error: "@ + m@,
            AddonApiError::Execution(m) => "Execution error: "@ + m@,
            AddonApiError::TypeError(m) => "Type error: "@ + m@,
            AddonApiError::Other(m) => m@,
        }
    }

    /// The error's message, as it is shown and logged.
    pub fn message(&self) -> (s: String)
        ensures
            s@ == self.message_text(),
    {
        let (prefix, m) = match self {
            AddonApiError::Python(m) => ("Python error: ", m),
            AddonApiError::NotFound(m) => ("Addon not found: ", m),
            AddonApiError::Load(m) => ("Addon load error: ", m),
            AddonApiError::Execution(m) => ("Execution error: ", m),
            AddonApiError::TypeError(m) => ("Type error: ", m),
            AddonApiError::Other(m) => ("", m),
        };
        let mut s = string_from_str(prefix);
        string_push_str(&mut s, m.as_str());
        proof {
            reveal_strlit("");
        }
        s
    }
}

/// Metadata about a loaded addon.
#[derive(Debug)]
pub struct AddonInfo {
    pub name: String,
    pub version: String,
    pub description: String,
    pub author: String,
    pub supported_sites: Vec<String>,
    pub path: String,
    pub enabled: bool,
}

pub struct AddonInfoView {
    pub name: Seq<char>,
    pub version: Seq<char>,
    pub description: Seq<char>,
    pub author: Seq<char>,
    pub supported_sites: Seq<Seq<char>>,
    pub path: Seq<char>,
    pub enabled: bool,
}

pub open spec fn site_views(s: Seq<String>) -> Seq<Seq<char>> {
    s.map_values(|x: String| x@)
}

impl View for AddonInfo {
    type V = AddonInfoView;

    open spec fn view(&self) -> AddonInfoView {
        AddonInfoView {
            name: self.name@,
            version: self.version@,
            description: self.description@,
            author: self.author@,
            supported_sites: site_views(self.supported_sites@),
            path: self.path@,
            enabled: self.enabled,
        }
    }
}

impl Clone for AddonInfo {
    fn clone(&self) -> (r: Self)
        ensures
            r@ == self@,
    {
        let mut sites: Vec<String> = Vec::new();
        let mut i: usize = 0;
        while i < self.supported_sites.len()
            invariant
                i <= self.supported_sites@.len(),
                sites@.len() == i,
                forall|k: int| 0 <= k < i ==> (#[trigger] sites@[k])@ == self.supported_sites@[k]@,
            decreases self.supported_sites@.len() - i,
        {
            sites.push(self.supported_sites[i].clone());
            i = i + 1;
        }
        assert(site_views(sites@) =~= site_views(self.supported_sites@));
        AddonInfo {
            name: self.name.clone(),
            version: self.version.clone(),
            description: self.description.clone(),
            author: self.author.clone(),
            supported_sites: sites,
            path: self.path.clone(),
            enabled: self.enabled,
        }
    }
}

/// The registry's records, keyed by addon name.
pub type AddonMap = dashmap::DashMap<String, AddonInfo>;

/// What a map of records holds: each name with its record.
pub uninterp spec fn addon_map(m: AddonMap) -> Map<Seq<char>, AddonInfoView>;

pub open spec fn no_addons() -> Map<Seq<char>, AddonInfoView> {
    Map::empty()
}

pub open spec fn opt_info_view(o: Option<AddonInfo>) -> Option<AddonInfoView> {
    match o {
        Some(a) => Some(a@),
        None => None,
    }
}

pub open spec fn name_views(s: Seq<String>) -> Seq<Seq<char>> {
    s.map_values(|x: String| x@)
}

/// `DashMap::new`: an empty map.
#[verifier::external_body]
fn addons_new() -> (r: AddonMap)
    ensures
        addon_map(r) == no_addons(),
{
    dashmap::DashMap::new()
}

/// `DashMap::insert`: the name now maps to the record, in place of any it
/// had; the other names keep theirs.
#[verifier::external_body]
fn addons_insert(m: &mut AddonMap, k: String, v: AddonInfo)
    ensures
        addon_map(*final(m)) == addon_map(*old(m)).insert(k@, v@),
{
    m.insert(k, v);
}

/// `DashMap::remove`: takes out the name's record, if it has one.
#[verifier::external_body]
fn addons_remove(m: &mut AddonMap, k: &str) -> (r: Option<AddonInfo>)
    ensures
        addon_map(*final(m)) == addon_map(*old(m)).remove(k@),
        opt_info_view(r) == (if addon_map(*old(m)).dom().contains(k@) {
            Some(addon_map(*old(m))[k@])
        } else {
            None
        }),
{
    m.remove(k).map(|(_, a)| a)
}

/// `DashMap::get`, the record cloned out of the guard it comes in.
#[verifier::external_body]
fn addons_get(m: &AddonMap, k: &str) -> (r: Option<AddonInfo>)
    ensures
        opt_info_view(r) == (if addon_map(*m).dom().contains(k@) {
            Some(addon_map(*m)[k@])
        } else {
            None
        }),
{
    m.get(k).map(|a| a.clone())
}

/// `DashMap::iter`, keeping the names: each name of the map once, in an
/// order that the map does not fix.
#[verifier::external_body]
fn addons_names(m: &AddonMap) -> (r: Vec<String>)
    ensures
        name_views(r@).no_duplicates(),
        name_views(r@).to_set() == addon_map(*m).dom(),
{
    m.iter().map(|e| e.key().clone()).collect()
}

/// The registry's record of loaded addons, keyed by name, and the
/// directory they are loaded from.
#[derive(Debug)]
pub struct AddonRegistry {
    addons: AddonMap,
    addon_dir: String,
}

impl AddonRegistry {
    pub closed spec fn addons(&self) -> Map<Seq<char>, AddonInfoView> {
        addon_map(self.addons)
    }

    pub closed spec fn dir(&self) -> Seq<char> {
        self.addon_dir@
    }

    /// The directory addons are loaded from.
    pub fn addon_dir(&self) -> (d: &str)
        ensures
            d@ == self.dir(),
    {
        self.addon_dir.as_str()
    }

    /// Each record is kept under its addon's name.
    pub open spec fn wf(&self) -> bool {
        forall|k: Seq<char>| self.addons().dom().contains(k) ==> (#[trigger] self.addons()[k]).name == k
    }

    pub fn new(addon_dir: &str) -> (r: AddonRegistry)
        ensures
            r.wf(),
            r.addons() == no_addons(),
            r.dir() == addon_dir@,
    {
        AddonRegistry { addons: addons_new(), addon_dir: string_from_str(addon_dir) }
    }

    /// Record a loaded addon, replacing the record under its name.
    pub fn register(&mut self, info: AddonInfo)
        requires
            old(self).wf(),
        ensures
            final(self).wf(),
            final(self).dir() == old(self).dir(),
            final(self).addons() == old(self).addons().insert(info@.name, info@),
    {
        let ghost before = self.addons();
        let ghost iv = info@;
        let name = string_from_str(info.name.as_str());
        addons_insert(&mut self.addons, name, info);
        assert forall|k: Seq<char>| self.addons().dom().contains(k) implies (#[trigger] self.addons()[k]).name
            == k by {
            if k != iv.name {
                assert(before.dom().contains(k));
            }
        }
    }

    /// Copies of all records, each once, in no particular order.
    pub fn list(&self) -> (r: Vec<AddonInfo>)
        requires
            self.wf(),
        ensures
            r@.len() == self.addons().dom().len(),
            forall|i: int, j: int| 0 <= i < j < r@.len() ==> (#[trigger] r@[i])@.name != (#[trigger] r@[j])@.name,
            forall|i: int|
                0 <= i < r@.len() ==> self.addons().dom().contains((#[trigger] r@[i])@.name) && r@[i]@
                    == self.addons()[r@[i]@.name],
            forall|k: Seq<char>|
                #[trigger] self.addons().dom().contains(k) ==> exists|i: int| 0 <= i < r@.len() && r@[i]@.name == k,
    {
        let names = addons_names(&self.addons);
        let ghost ks = name_views(names@);
        proof {
            ks.unique_seq_to_set();
        }
        let mut r: Vec<AddonInfo> = Vec::new();
        let mut i: usize = 0;
        while i < names.len()
            invariant
                self.wf(),
                ks == name_views(names@),
                ks.no_duplicates(),
                ks.to_set() == self.addons().dom(),
                i <= ks.len(),
                r@.len() == i,
                forall|j: int| 0 <= j < i ==> (#[trigger] r@[j])@.name == ks[j] && r@[j]@ == self.addons()[ks[j]],
            decreases ks.len() - i,
        {
            let k = &names[i];
            assert(ks[i as int] == k@);
            assert(ks.contains(k@));
            assert(ks.to_set().contains(k@));
            let a = match addons_get(&self.addons, k.as_str()) {
                Some(a) => a,
                None => {
                    assert(false);
                    return r;
                },
            };
            r.push(a);
            i = i + 1;
        }
        proof {
            assert forall|k: Seq<char>| #[trigger] self.addons().dom().contains(k) implies exists|i: int|
                0 <= i < r@.len() && r@[i]@.name == k by {
                assert(ks.to_set().contains(k));
                let i = ks.index_of(k);
                assert(r@[i]@.name == k);
            }
            assert forall|a: int, b: int| 0 <= a < b < r@.len() implies (#[trigger] r@[a])@.name != (
            #[trigger] r@[b])@.name by {
                assert(r@[a]@.name == ks[a]);
                assert(r@[b]@.name == ks[b]);
            }
            assert forall|a: int| 0 <= a < r@.len() implies self.addons().dom().contains(
                (#[trigger] r@[a])@.name,
            ) && r@[a]@ == self.addons()[r@[a]@.name] by {
                assert(r@[a]@.name == ks[a]);
                assert(ks.to_set().contains(ks[a]));
            }
        }
        r
    }

    /// A copy of the record of the addon with this name.
    pub fn get_info(&self, name: &str) -> (r: Option<AddonInfo>)
        ensures
            opt_info_view(r) == (if self.addons().dom().contains(name@) {
                Some(self.addons()[name@])
            } else {
                None
            }),
    {
        addons_get(&self.addons, name)
    }

    /// Enable or disable the addon with this name, if it is recorded.
    pub fn enable(&mut self, name: &str, enabled: bool)
        requires
            old(self).wf(),
        ensures
            final(self).wf(),
            final(self).dir() == old(self).dir(),
            old(self).addons().dom().contains(name@) ==> final(self).addons() == old(self).addons().insert(
                name@,
                AddonInfoView { enabled, ..old(self).addons()[name@] },
            ),
            !old(self).addons().dom().contains(name@) ==> final(self).addons() == old(self).addons(),
    {
        match addons_get(&self.addons, name) {
            Some(mut a) => {
                a.enabled = enabled;
                let k = string_from_str(name);
                addons_insert(&mut self.addons, k, a);
            },
            None => {},
        }
    }

    /// Whether URLs may be offered to the addon with this name: it is
    /// enabled, or it has no record.
    pub fn is_dispatchable(&self, name: &str) -> (r: bool)
        ensures
            r == (!self.addons().dom().contains(name@) || self.addons()[name@].enabled),
    {
        match addons_get(&self.addons, name) {
            Some(a) => a.enabled,
            None => true,
        }
    }

    /// Forget the addon with this name, giving the path it was loaded from
    /// (to be loaded again).
    pub fn unload(&mut self, name: &str) -> (r: Result<String, AddonApiError>)
        requires
            old(self).wf(),
        ensures
            final(self).wf(),
            final(self).dir() == old(self).dir(),
            old(self).addons().dom().contains(name@) ==> (r matches Ok(p) && p@ == old(self).addons()[name@].path
                && final(self).addons() == old(self).addons().remove(name@)),
            !old(self).addons().dom().contains(name@) ==> (r matches Err(AddonApiError::NotFound(n)) && n@
                == name@ && final(self).addons() == old(self).addons()),
    {
        let ghost before = self.addons();
        let r = addons_remove(&mut self.addons, name);
        assert forall|k: Seq<char>| self.addons().dom().contains(k) implies (#[trigger] self.addons()[k]).name
            == k by {
            assert(before.dom().contains(k));
        }
        match r {
            Some(a) => Ok(a.path),
            None => Err(AddonApiError::NotFound(string_from_str(name))),
        }
    }
}

// ---------------------------------------------------------------------------
// objects handed to addons
// ---------------------------------------------------------------------------

/// The last `/`-separated piece of a URL.
pub open spec fn last_segment(url: Seq<char>) -> Seq<char> {
    split(url, '/').last()
}

/// The last `/`-separated piece of a URL.
pub fn last_url_segment(url: &str) -> (r: Vec<char>)
    ensures
        r@ == last_segment(url@),
{
    let cs = chars_of(url);
    let parts = split_chars(&cs, '/');
    proof {
        crate::text::lemma_split_from_nonempty(url@, '/', Seq::empty());
    }
    let n = parts.len();
    let mut r: Vec<char> = Vec::new();
    let mut i: usize = 0;
    while i < parts[n - 1].len()
        invariant
            n == parts@.len(),
            n >= 1,
            i <= parts@[n - 1]@.len(),
            r@ == parts@[n - 1]@.subrange(0, i as int),
        decreases parts@[n - 1]@.len() - i,
    {
        r.push(parts[n - 1][i]);
        assert(parts@[n - 1]@.subrange(0, i + 1) == parts@[n - 1]@.subrange(0, i as int).push(
            parts@[n - 1]@[i as int],
        ));
        i = i + 1;
    }
    assert(parts@[n - 1]@.subrange(0, parts@[n - 1]@.len() as int) == parts@[n - 1]@);
    r
}

/// A download item an addon reports.
#[derive(Debug)]
pub struct PyDownloadItem {
    pub url: String,
    pub title: String,
    pub output_path: String,
    pub filename: String,
    pub size: i64,
    pub mime_type: String,
    pub referer: String,
    pub cookies: String,
    pub headers: Vec<(String, String)>,
    pub metadata: Vec<(String, String)>,
    pub index: i32,
    pub total: i32,
}

impl Clone for PyDownloadItem {
    fn clone(&self) -> (r: Self)
        ensures
            r.url@ == self.url@,
            r.title@ == self.title@,
            r.output_path@ == self.output_path@,
            r.filename@ == self.filename@,
            r.size == self.size,
            r.mime_type@ == self.mime_type@,
            r.referer@ == self.referer@,
            r.cookies@ == self.cookies@,
            pair_views(r.headers@) == pair_views(self.headers@),
            pair_views(r.metadata@) == pair_views(self.metadata@),
            r.index == self.index,
            r.total == self.total,
    {
        PyDownloadItem {
            url: self.url.clone(),
            title: self.title.clone(),
            output_path: self.output_path.clone(),
            filename: self.filename.clone(),
            size: self.size,
            mime_type: self.mime_type.clone(),
            referer: self.referer.clone(),
            cookies: self.cookies.clone(),
            headers: clone_pairs(&self.headers),
            metadata: clone_pairs(&self.metadata),
            index: self.index,
            total: self.total,
        }
    }
}

impl PyDownloadItem {
    /// A new item; without a filename, the last piece of the URL's path is used.
    pub fn new(url: &str, title: &str, output_path: &str, filename: &str) -> (item: PyDownloadItem)
        ensures
            item.url@ == url@,
            item.title@ == title@,
            item.output_path@ == output_path@,
            item.filename@ == (if filename@.len() == 0 {
                last_segment(url@)
            } else {
                filename@
            }),
            item.size == -1,
            item.mime_type@.len() == 0,
            item.referer@.len() == 0,
            item.cookies@.len() == 0,
            item.headers@.len() == 0,
            item.metadata@.len() == 0,
            item.index == 0,
            item.total == 1,
    {
        let name = if filename.is_empty() {
            let seg = last_url_segment(url);
            string_from_chars(&seg)
        } else {
            string_from_str(filename)
        };
        PyDownloadItem {
            url: string_from_str(url),
            title: string_from_str(title),
            output_path: string_from_str(output_path),
            filename: name,
            size: -1,
            mime_type: String::new(),
            referer: String::new(),
            cookies: String::new(),
            headers: Vec::new(),
            metadata: Vec::new(),
            index: 0,
            total: 1,
        }
    }
}

/// The HTTP settings an addon's requests carry: a `Cookie` header and extra headers.
#[derive(Debug)]
pub struct PyHttpClient {
    pub cookies: String,
    pub headers: Vec<(String, String)>,
}

impl PyHttpClient {
    /// No cookies, no headers.
    pub fn create() -> (c: PyHttpClient)
        ensures
            c.cookies@.len() == 0,
            c.headers@.len() == 0,
    {
        PyHttpClient { cookies: String::new(), headers: Vec::new() }
    }

    pub fn new() -> (c: PyHttpClient)
        ensures
            c.cookies@.len() == 0,
            c.headers@.len() == 0,
    {
        Self::create()
    }

    pub fn set_cookie(&mut self, cookie: &str)
        ensures
            final(self).cookies@ == cookie@,
            final(self).headers == old(self).headers,
    {
        self.cookies = string_from_str(cookie);
    }

    /// Set a header, replacing its earlier value.
    pub fn set_header(&mut self, key: &str, value: &str)
        ensures
            final(self).cookies == old(self).cookies,
            pair_views(final(self).headers@) == pairs_set(pair_views(old(self).headers@), key@, value@),
    {
        pairs_insert(&mut self.headers, key, value);
    }

    /// A copy of the settings.
    pub fn copy(&self) -> (c: PyHttpClient)
        ensures
            c.cookies@ == self.cookies@,
            pair_views(c.headers@) == pair_views(self.headers@),
    {
        PyHttpClient { cookies: self.cookies.clone(), headers: clone_pairs(&self.headers) }
    }
}

/// Where an addon's files are kept.
#[derive(Debug)]
pub struct PyStorage {
    pub base_dir: String,
}

impl PyStorage {
    pub fn new(base_dir: &str) -> (s: PyStorage)
        ensures
            s.base_dir@ == base_dir@,
    {
        PyStorage { base_dir: string_from_str(base_dir) }
    }
}

/// The context an addon runs in.
#[derive(Debug)]
pub struct PyContext {
    pub url: String,
    pub output_dir: String,
    pub options: Vec<(String, String)>,
    pub http_inner: PyHttpClient,
    pub storage_inner: PyStorage,
}

impl PyContext {
    pub open spec fn http_view(&self) -> (Seq<char>, Seq<(Seq<char>, Seq<char>)>) {
        (self.http_inner.cookies@, pair_views(self.http_inner.headers@))
    }

    pub open spec fn storage_dir(&self) -> Seq<char> {
        self.storage_inner.base_dir@
    }

    /// A context for a URL and output directory: no options, a fresh HTTP
    /// client, storage in the output directory.
    pub fn create(url: &str, output_dir: &str) -> (c: PyContext)
        ensures
            c.url@ == url@,
            c.output_dir@ == output_dir@,
            c.options@.len() == 0,
            c.http_view().0.len() == 0,
            c.http_view().1.len() == 0,
            c.storage_dir() == output_dir@,
    {
        let c = PyContext {
            url: string_from_str(url),
            output_dir: string_from_str(output_dir),
            options: Vec::new(),
            http_inner: PyHttpClient::create(),
            storage_inner: PyStorage::new(output_dir),
        };
        assert(c.http_view().1.len() == 0);
        c
    }

    pub fn new(url: &str, output_dir: &str) -> (c: PyContext)
        ensures
            c.url@ == url@,
            c.output_dir@ == output_dir@,
            c.options@.len() == 0,
            c.http_view().0.len() == 0,
            c.http_view().1.len() == 0,
            c.storage_dir() == output_dir@,
    {
        Self::create(url, output_dir)
    }

    /// Set the `Cookie` header the context's requests carry.
    pub fn set_cookies(&mut self, cookies: &str)
        ensures
            final(self).http_view() == (cookies@, old(self).http_view().1),
            final(self).url == old(self).url,
            final(self).output_dir == old(self).output_dir,
            final(self).options == old(self).options,
            final(self).storage_dir() == old(self).storage_dir(),
    {
        self.http_inner.set_cookie(cookies);
    }

    /// The context's own HTTP client.
    pub fn http(&self) -> (c: &PyHttpClient)
        ensures
            *c == self.http_inner,
    {
        &self.http_inner
    }

    /// The context's own HTTP client, to change: what is set on it stays
    /// with the context.
    pub fn http_mut(&mut self) -> (c: &mut PyHttpClient)
        ensures
            *c == old(self).http_inner,
            final(self).http_inner == *final(c),
            final(self).url == old(self).url,
            final(self).output_dir == old(self).output_dir,
            final(self).options == old(self).options,
            final(self).storage_inner == old(self).storage_inner,
    {
        &mut self.http_inner
    }

    /// The context's storage.
    pub fn storage(&self) -> (s: PyStorage)
        ensures
            s.base_dir@ == self.storage_dir(),
    {
        PyStorage { base_dir: self.storage_inner.base_dir.clone() }
    }

    /// The option under `key`, or `default`.
    pub fn get_option(&self, key: &str, default: &str) -> (r: String)
        ensures
            r@ == match pairs_get(pair_views(self.options@), key@) {
                Some(v) => v,
                None => default@,
            },
    {
        match pairs_lookup(&self.options, key) {
            Some(v) => v,
            None => string_from_str(default),
        }
    }

    /// Set an option, replacing its earlier value.
    pub fn set_option(&mut self, key: &str, value: &str)
        ensures
            pair_views(final(self).options@) == pairs_set(pair_views(old(self).options@), key@, value@),
            final(self).url == old(self).url,
            final(self).output_dir == old(self).output_dir,
            final(self).http_view() == old(self).http_view(),
            final(self).storage_dir() == old(self).storage_dir(),
    {
        pairs_insert(&mut self.options, key, value);
    }
}

} // verus!
