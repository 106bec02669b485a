//! What addons build their windows from: the widgets without sizes, the
//! values the user entered, the ids of containers, and the staging of forms,
//! panels and tab pages while an addon fills them. The widget type itself is
//! left to the caller (`W`), since the sized widgets carry floats.
use vstd::prelude::*;
use crate::crypto::hex_digit;
use crate::pairs::{find_pair, lemma_find_pair, pair_views, pairs_get, pairs_insert, pairs_lookup, pairs_set, clone_pairs};
use crate::text::{string_from_str, string_push};

verus! {

// ---------------------------------------------------------------------------
// widgets
// ---------------------------------------------------------------------------

#[derive(Debug, Clone)]
pub struct CheckboxWidget {
    pub id: String,
    pub label: String,
    pub checked: bool,
}

#[derive(Debug, Clone)]
pub struct SelectWidget {
    pub id: String,
    pub label: String,
    pub options: Vec<String>,
    pub selected_index: usize,
}

#[derive(Debug, Clone)]
pub struct ButtonWidget {
    pub id: String,
    pub label: String,
    pub style: String,
}

#[derive(Debug, Clone)]
pub struct TableWidget {
    pub id: String,
    pub columns: Vec<String>,
    pub rows: Vec<Vec<String>>,
}

/// The input type of an input widget that names none.
pub fn default_input_type() -> (s: String)
    ensures
        s@ == "text"@,
{
    string_from_str("text")
}

// ---------------------------------------------------------------------------
// container ids
// ---------------------------------------------------------------------------

/// The lower-case hex numeral of `n`, without leading zeros.
pub open spec fn hex_text(n: nat) -> Seq<char>
    decreases n,
{
    if n < 16 {
        seq![hex_digit(n)]
    } else {
        hex_text(n / 16).push(hex_digit(n % 16))
    }
}

fn hex_char(d: u128) -> (c: char)
    requires
        d < 16,
    ensures
        c == hex_digit(d as nat),
{
    let b: u8 = d as u8;
    if b < 10 {
        (b + 48) as char
    } else {
        (b + 87) as char
    }
}

/// Appends the lower-case hex numeral of `n`.
pub fn push_hex(s: &mut String, n: u128)
    ensures
        final(s)@ == old(s)@ + hex_text(n as nat),
    decreases n,
{
    if n >= 16 {
        push_hex(s, n / 16);
        let c = hex_char(n % 16);
        string_push(s, c);
        proof {
            assert(old(s)@ + hex_text(n as nat) == old(s)@ + hex_text((n / 16) as nat) + seq![c]);
        }
    } else {
        let c = hex_char(n);
        string_push(s, c);
        proof {
            assert(old(s)@ + hex_text(n as nat) == old(s)@.push(c));
        }
    }
}

/// The id of a new container: its kind, `_`, and the hex numeral of the
/// nanoseconds since the epoch at which it was made.
pub fn container_id(kind: &str, nanos: u128) -> (id: String)
    ensures
        id@ == kind@ + seq!['_'] + hex_text(nanos as nat),
{
    let mut id = string_from_str(kind);
    string_push(&mut id, '_');
    push_hex(&mut id, nanos);
    proof {
        assert(id@ =~= kind@ + seq!['_'] + hex_text(nanos as nat));
    }
    id
}

// ---------------------------------------------------------------------------
// values entered by the user
// ---------------------------------------------------------------------------

/// The values of a window's widgets, by widget id.
pub struct WidgetValues {
    values: Vec<(String, String)>,
}

impl View for WidgetValues {
    type V = Seq<(Seq<char>, Seq<char>)>;

    closed spec fn view(&self) -> Seq<(Seq<char>, Seq<char>)> {
        pair_views(self.values@)
    }
}

/// What `get_value` gives for an id: its value, or the empty text.
pub open spec fn value_of(t: Seq<(Seq<char>, Seq<char>)>, id: Seq<char>) -> Seq<char> {
    match pairs_get(t, id) {
        Some(v) => v,
        None => Seq::empty(),
    }
}

impl WidgetValues {
    /// No values yet.
    pub fn new() -> (w: WidgetValues)
        ensures
            w@ == Seq::<(Seq<char>, Seq<char>)>::empty(),
    {
        let w = WidgetValues { values: Vec::new() };
        proof {
            assert(w@ =~= Seq::<(Seq<char>, Seq<char>)>::empty());
        }
        w
    }

    /// The value of a widget; empty when it has none.
    pub fn get_value(&self, id: &str) -> (v: String)
        ensures
            v@ == value_of(self@, id@),
    {
        match pairs_lookup(&self.values, id) {
            Some(v) => v,
            None => String::new(),
        }
    }

    /// Set the value of a widget.
    pub fn set_value(&mut self, id: &str, value: &str)
        ensures
            final(self)@ == pairs_set(old(self)@, id@, value@),
    {
        pairs_insert(&mut self.values, id, value);
    }

    /// Every widget's value.
    pub fn all_values(&self) -> (r: Vec<(String, String)>)
        ensures
            pair_views(r@) == self@,
    {
        clone_pairs(&self.values)
    }
}

/// After a widget's value is set, reading it gives that value, and every
/// other widget keeps the value it had.
pub proof fn lemma_value_set_get(t: Seq<(Seq<char>, Seq<char>)>, id: Seq<char>, value: Seq<char>, other: Seq<char>)
    ensures
        value_of(pairs_set(t, id, value), id) == value,
        other != id ==> value_of(pairs_set(t, id, value), other) == value_of(t, other),
{
    lemma_pairs_set_get(t, id, value, other);
}

pub proof fn lemma_pairs_set_get(t: Seq<(Seq<char>, Seq<char>)>, id: Seq<char>, value: Seq<char>, other: Seq<char>)
    ensures
        pairs_get(pairs_set(t, id, value), id) == Some(value),
        other != id ==> pairs_get(pairs_set(t, id, value), other) == pairs_get(t, other),
    decreases t.len(),
{
    lemma_find_pair(t, id);
    lemma_find_pair(t, other);
    let u = pairs_set(t, id, value);
    let i = find_pair(t, id);
    let j = find_pair(t, other);
    if i >= 0 {
        lemma_find_pair_update(t, i, id, value, id);
        if other != id {
            lemma_find_pair_update(t, i, id, value, other);
            if j >= 0 {
                assert(u[j] == t[j]);
            }
        }
    } else {
        assert(u.drop_last() =~= t);
        assert(u.last() == (id, value));
        if other != id && j >= 0 {
            assert(u[j] == t[j]);
        }
    }
}

/// Replacing the entry at `i` by one under the same key moves no key.
proof fn lemma_find_pair_update(t: Seq<(Seq<char>, Seq<char>)>, i: int, key: Seq<char>, value: Seq<char>, q: Seq<char>)
    requires
        0 <= i < t.len(),
        t[i].0 == key,
    ensures
        find_pair(t.update(i, (key, value)), q) == find_pair(t, q),
    decreases t.len(),
{
    let u = t.update(i, (key, value));
    if i == t.len() - 1 {
        assert(u.drop_last() =~= t.drop_last());
    } else {
        assert(u.drop_last() =~= t.drop_last().update(i, (key, value)));
        lemma_find_pair_update(t.drop_last(), i, key, value, q);
    }
}

// ---------------------------------------------------------------------------
// forms and panels being filled
// ---------------------------------------------------------------------------

/// A form or panel: its id, title and children.
#[derive(Debug, Clone)]
pub struct Section<W> {
    pub id: String,
    pub title: String,
    pub children: Vec<W>,
}

/// The form (or panel) an addon is filling, if it has begun one.
pub struct SectionSlot<W> {
    open: Option<Section<W>>,
}

/// An open section, by its id, title and children.
pub open spec fn section_view<W>(s: Section<W>) -> (Seq<char>, Seq<char>, Seq<W>) {
    (s.id@, s.title@, s.children@)
}

impl<W> SectionSlot<W> {
    pub closed spec fn current(&self) -> Option<(Seq<char>, Seq<char>, Seq<W>)> {
        match self.open {
            Some(s) => Some(section_view(s)),
            None => None,
        }
    }

    /// No section begun.
    pub fn new() -> (s: SectionSlot<W>)
        ensures
            s.current() is None,
    {
        SectionSlot { open: None }
    }

    /// Begin an empty section, dropping one still open.
    pub fn begin(&mut self, id: String, title: &str)
        ensures
            final(self).current() == Some((id@, title@, Seq::<W>::empty())),
    {
        let v: Vec<W> = Vec::new();
        self.open = Some(Section { id, title: string_from_str(title), children: v });
        proof {
            assert(v@ =~= Seq::<W>::empty());
        }
    }

    /// Add a widget to the open section; without one the widget is dropped.
    pub fn add(&mut self, w: W) -> (added: bool)
        ensures
            added == (old(self).current() is Some),
            match old(self).current() {
                Some((i, t, c)) => final(self).current() == Some((i, t, c.push(w))),
                None => final(self).current() is None,
            },
    {
        match self.open.take() {
            Some(mut s) => {
                s.children.push(w);
                self.open = Some(s);
                true
            },
            None => false,
        }
    }

    /// Close the open section and hand it out.
    pub fn finish(&mut self) -> (r: Option<Section<W>>)
        ensures
            final(self).current() is None,
            match old(self).current() {
                Some(v) => r matches Some(s) && section_view(s) == v,
                None => r is None,
            },
    {
        self.open.take()
    }
}

// ---------------------------------------------------------------------------
// tab pages
// ---------------------------------------------------------------------------

/// One page of a tab widget.
#[derive(Debug, Clone)]
pub struct TabPage<W> {
    pub label: String,
    pub children: Vec<W>,
}

pub open spec fn page_view<W>(p: TabPage<W>) -> (Seq<char>, Seq<W>) {
    (p.label@, p.children@)
}

/// A tab widget being filled: its finished pages and the page being filled.
pub struct TabsBuilder<W> {
    id: String,
    tabs: Vec<TabPage<W>>,
    current: Option<TabPage<W>>,
}

impl<W> TabsBuilder<W> {
    pub closed spec fn id(&self) -> Seq<char> {
        self.id@
    }

    pub closed spec fn pages(&self) -> Seq<(Seq<char>, Seq<W>)> {
        self.tabs@.map_values(|p: TabPage<W>| page_view(p))
    }

    pub closed spec fn current(&self) -> Option<(Seq<char>, Seq<W>)> {
        match self.current {
            Some(p) => Some(page_view(p)),
            None => None,
        }
    }

    /// No pages.
    pub fn new(id: String) -> (b: TabsBuilder<W>)
        ensures
            b.id() == id@,
            b.pages().len() == 0,
            b.current() is None,
    {
        TabsBuilder { id, tabs: Vec::new(), current: None }
    }

    /// The widget's id.
    pub fn id_text(&self) -> (s: &String)
        ensures
            s@ == self.id(),
    {
        &self.id
    }

    /// Begin an empty page, dropping one still being filled.
    pub fn begin_tab(&mut self, label: &str)
        ensures
            final(self).id() == old(self).id(),
            final(self).pages() == old(self).pages(),
            final(self).current() == Some((label@, Seq::<W>::empty())),
    {
        let v: Vec<W> = Vec::new();
        self.current = Some(TabPage { label: string_from_str(label), children: v });
        proof {
            assert(v@ =~= Seq::<W>::empty());
        }
    }

    /// Add a widget to the page being filled; without one it is dropped.
    pub fn add(&mut self, w: W) -> (added: bool)
        ensures
            added == (old(self).current() is Some),
            final(self).id() == old(self).id(),
            final(self).pages() == old(self).pages(),
            match old(self).current() {
                Some((l, c)) => final(self).current() == Some((l, c.push(w))),
                None => final(self).current() is None,
            },
    {
        match self.current.take() {
            Some(mut p) => {
                p.children.push(w);
                self.current = Some(p);
                true
            },
            None => false,
        }
    }

    /// Close the page being filled and append it to the pages.
    pub fn end_tab(&mut self)
        ensures
            final(self).id() == old(self).id(),
            final(self).current() is None,
            match old(self).current() {
                Some(p) => final(self).pages() == old(self).pages().push(p),
                None => final(self).pages() == old(self).pages(),
            },
    {
        match self.current.take() {
            Some(p) => {
                let ghost before = self.tabs@;
                self.tabs.push(p);
                proof {
                    assert(self.tabs@.map_values(|p: TabPage<W>| page_view(p)) =~= before.map_values(
                        |p: TabPage<W>| page_view(p),
                    ).push(page_view(p)));
                }
            },
            None => {},
        }
    }

    /// The finished pages.
    pub fn tabs(&self) -> (t: &Vec<TabPage<W>>)
        ensures
            t@.map_values(|p: TabPage<W>| page_view(p)) == self.pages(),
    {
        &self.tabs
    }
}

} // verus!
