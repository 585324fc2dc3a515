//! Where settings are stored, and how the settings panel names its
//! categories.
use vstd::prelude::*;
use convert_case::Casing;

verus! {

/// The key under which a setting is stored: its group's name, a dot, its
/// own name.
pub fn setting_key(group: &str, name: &str) -> (key: String)
    ensures
        key@ == group@ + "."@ + name@,
{
    let mut key = String::from_str(group);
    key.append(".");
    key.append(name);
    key
}

/// What `convert_case` makes of a text in title case.
pub uninterp spec fn title_case(s: Seq<char>) -> Seq<char>;

/// `Casing::to_case(Case::Title)` of `convert_case`: splits the text into
/// words and capitalises each; the result is a function of the text alone.
#[verifier::external_body]
fn to_title_case(s: &str) -> (res: String)
    ensures
        res@ == title_case(s@),
{
    s.to_case(convert_case::Case::Title)
}

/// The pages of the editor's settings panel.
#[derive(Debug, Clone, Copy, PartialEq, Eq, Structural)]
pub enum EditorSettingCategory {
    Appearance,
    AdvancedOptions,
}

impl EditorSettingCategory {
    /// Every category, in the order the panel lists them.
    pub fn variants() -> (all: Vec<EditorSettingCategory>)
        ensures
            all@ == seq![EditorSettingCategory::Appearance, EditorSettingCategory::AdvancedOptions],
    {
        let mut all = Vec::new();
        all.push(EditorSettingCategory::Appearance);
        all.push(EditorSettingCategory::AdvancedOptions);
        all
    }

    pub open spec fn name_spec(self) -> Seq<char> {
        match self {
            EditorSettingCategory::Appearance => "Appearance"@,
            EditorSettingCategory::AdvancedOptions => "AdvancedOptions"@,
        }
    }

    /// The variant's name.
    pub fn name(&self) -> (name: &'static str)
        ensures
            name@ == self.name_spec(),
    {
        match self {
            EditorSettingCategory::Appearance => "Appearance",
            EditorSettingCategory::AdvancedOptions => "AdvancedOptions",
        }
    }

    /// The label shown for the category: its name in title case.
    pub fn label(&self) -> (label: String)
        ensures
            label@ == title_case(self.name_spec()),
    {
        to_title_case(self.name())
    }
}

// ---------------------------------------------------------------------------
// Themes of the appearance settings.

/// Whether `a` comes before `b` in the order of `String`: the first
/// differing character decides, by code point, and a proper prefix comes
/// first. (`String` compares its UTF-8 bytes, and UTF-8 orders as the code
/// points it encodes.)
pub open spec fn name_less(a: Seq<char>, b: Seq<char>) -> bool
    decreases a.len(),
{
    if a.len() == 0 {
        b.len() > 0
    } else if b.len() == 0 {
        false
    } else if a[0] != b[0] {
        (a[0] as int) < (b[0] as int)
    } else {
        name_less(a.drop_first(), b.drop_first())
    }
}

/// No name comes before itself.
pub proof fn lemma_name_less_irreflexive(a: Seq<char>)
    ensures
        !name_less(a, a),
    decreases a.len(),
{
    if a.len() > 0 {
        lemma_name_less_irreflexive(a.drop_first());
    }
}

/// Of two different names, exactly one comes first.
pub proof fn lemma_name_less_total(a: Seq<char>, b: Seq<char>)
    ensures
        a != b ==> (name_less(a, b) || name_less(b, a)),
        !(name_less(a, b) && name_less(b, a)),
    decreases a.len(),
{
    if a.len() > 0 && b.len() > 0 && a[0] == b[0] {
        lemma_name_less_total(a.drop_first(), b.drop_first());
        if a.drop_first() == b.drop_first() {
            assert(a =~= b) by {
                assert forall|i: int| 0 <= i < a.len() implies a[i] == b[i] by {
                    if i > 0 {
                        assert(a[i] == a.drop_first()[i - 1]);
                        assert(b[i] == b.drop_first()[i - 1]);
                    }
                }
            }
        }
    } else if a.len() == 0 && b.len() == 0 {
        assert(a =~= b);
    }
}

/// The order is transitive.
pub proof fn lemma_name_less_transitive(a: Seq<char>, b: Seq<char>, c: Seq<char>)
    requires
        name_less(a, b),
        name_less(b, c),
    ensures
        name_less(a, c),
    decreases a.len(),
{
    if a.len() > 0 && b.len() > 0 && c.len() > 0 && a[0] == b[0] && b[0] == c[0] {
        lemma_name_less_transitive(a.drop_first(), b.drop_first(), c.drop_first());
    }
}

/// Whether `a` comes before `b` in the order of `String`.
fn str_less(a: &str, b: &str) -> (less: bool)
    ensures
        less == name_less(a@, b@),
{
    let na = a.unicode_len();
    let nb = b.unicode_len();
    let mut i: usize = 0;
    assert(a@.skip(0) =~= a@ && b@.skip(0) =~= b@);
    while i < na && i < nb
        invariant
            na == a@.len(),
            nb == b@.len(),
            i <= na,
            i <= nb,
            name_less(a@, b@) == name_less(a@.skip(i as int), b@.skip(i as int)),
        decreases na - i,
    {
        let ca = a.get_char(i);
        let cb = b.get_char(i);
        assert(a@.skip(i as int)[0] == ca && b@.skip(i as int)[0] == cb);
        if ca != cb {
            return (ca as u32) < (cb as u32);
        }
        assert(a@.skip(i as int).drop_first() =~= a@.skip(i + 1));
        assert(b@.skip(i as int).drop_first() =~= b@.skip(i + 1));
        i = i + 1;
    }
    na < nb
}

/// Whether no two entries have the same name.
pub open spec fn names_distinct<T>(s: Seq<(String, T)>) -> bool {
    forall|i: int, j: int| 0 <= i < j < s.len() ==> #[trigger] s[i].0@ != #[trigger] s[j].0@
}

/// The themes of a list of entries by name; a later entry wins.
pub open spec fn themes_map<T>(s: Seq<(String, T)>) -> Map<Seq<char>, T>
    decreases s.len(),
{
    if s.len() == 0 {
        Map::empty()
    } else {
        themes_map(s.drop_last()).insert(s.last().0@, s.last().1)
    }
}

/// A name has a theme exactly when some entry carries it, and with distinct
/// names each entry's theme is the one found under its name.
pub proof fn lemma_themes_map<T>(s: Seq<(String, T)>)
    ensures
        forall|k: Seq<char>| #[trigger] themes_map(s).contains_key(k) <==> exists|i: int| 0 <= i < s.len() && s[i].0@ == k,
        names_distinct(s) ==> forall|i: int| 0 <= i < s.len() ==> #[trigger] themes_map(s)[s[i].0@] == s[i].1,
    decreases s.len(),
{
    if s.len() > 0 {
        let d = s.drop_last();
        lemma_themes_map(d);
        assert forall|k: Seq<char>| #[trigger] themes_map(s).contains_key(k) <==> exists|i: int| 0 <= i < s.len() && s[i].0@ == k by {
            if themes_map(d).contains_key(k) {
                let i = choose|i: int| 0 <= i < d.len() && d[i].0@ == k;
                assert(s[i] == d[i]);
            }
            if exists|i: int| 0 <= i < s.len() && s[i].0@ == k {
                let i = choose|i: int| 0 <= i < s.len() && s[i].0@ == k;
                if i < d.len() {
                    assert(d[i] == s[i]);
                }
            }
        }
        if names_distinct(s) {
            assert forall|a: int, b: int| 0 <= a < b < d.len() implies #[trigger] d[a].0@ != #[trigger] d[b].0@ by {
                assert(d[a] == s[a] && d[b] == s[b]);
            }
            assert forall|i: int| 0 <= i < s.len() implies #[trigger] themes_map(s)[s[i].0@] == s[i].1 by {
                if i < d.len() {
                    assert(d[i] == s[i]);
                    assert(s[i].0@ != s[s.len() - 1].0@);
                    assert(themes_map(d)[d[i].0@] == d[i].1);
                    assert(themes_map(s) == themes_map(d).insert(s.last().0@, s.last().1));
                } else {
                    assert(s[i] == s.last());
                }
            }
        }
    }
}

/// Giving an entry a new theme under the same name replaces that theme.
pub proof fn lemma_themes_map_update<T>(s: Seq<(String, T)>, i: int, e: (String, T))
    requires
        names_distinct(s),
        0 <= i < s.len(),
        e.0@ == s[i].0@,
    ensures
        themes_map(s.update(i, e)) == themes_map(s).insert(e.0@, e.1),
    decreases s.len(),
{
    let u = s.update(i, e);
    let d = s.drop_last();
    if i == s.len() - 1 {
        assert(u.drop_last() =~= d);
        assert(themes_map(u) =~= themes_map(s).insert(e.0@, e.1));
    } else {
        assert(u.drop_last() =~= d.update(i, e));
        assert forall|a: int, b: int| 0 <= a < b < d.len() implies #[trigger] d[a].0@ != #[trigger] d[b].0@ by {
            assert(d[a] == s[a] && d[b] == s[b]);
        }
        lemma_themes_map_update(d, i, e);
        assert(s.last().0@ != e.0@) by {
            assert(s[i].0@ != s[s.len() - 1].0@);
        }
        assert(themes_map(u) =~= themes_map(s).insert(e.0@, e.1));
    }
}

/// Taking an entry out takes its name's theme out.
pub proof fn lemma_themes_map_remove<T>(s: Seq<(String, T)>, i: int)
    requires
        names_distinct(s),
        0 <= i < s.len(),
    ensures
        themes_map(s.remove(i)) == themes_map(s).remove(s[i].0@),
        names_distinct(s.remove(i)),
    decreases s.len(),
{
    let r = s.remove(i);
    let d = s.drop_last();
    assert forall|a: int, b: int| 0 <= a < b < r.len() implies #[trigger] r[a].0@ != #[trigger] r[b].0@ by {
        let sa = if a < i { a } else { a + 1 };
        let sb = if b < i { b } else { b + 1 };
        assert(r[a] == s[sa] && r[b] == s[sb]);
    }
    assert forall|a: int, b: int| 0 <= a < b < d.len() implies #[trigger] d[a].0@ != #[trigger] d[b].0@ by {
        assert(d[a] == s[a] && d[b] == s[b]);
    }
    if i == s.len() - 1 {
        assert(r =~= d);
        lemma_themes_map(d);
        assert(!themes_map(d).contains_key(s[i].0@)) by {
            if themes_map(d).contains_key(s[i].0@) {
                let j = choose|j: int| 0 <= j < d.len() && d[j].0@ == s[i].0@;
                assert(s[j] == d[j]);
            }
        }
        assert(themes_map(r) =~= themes_map(s).remove(s[i].0@));
    } else {
        assert(r.drop_last() =~= d.remove(i));
        assert(r.last() == s.last());
        lemma_themes_map_remove(d, i);
        assert(s.last().0@ != s[i].0@);
        assert(themes_map(r) =~= themes_map(s).remove(s[i].0@));
    }
}

/// Whether the entries are in the order of their names, each name before
/// the next.
pub open spec fn names_sorted<T>(s: Seq<(String, T)>) -> bool {
    forall|i: int, j: int| 0 <= i < j < s.len() ==> name_less(#[trigger] s[i].0@, #[trigger] s[j].0@)
}

/// Whether `names` lists the themes of `themes`: every name once, in the
/// order of `String`, and nothing else.
pub open spec fn lists_in_order<T>(names: Seq<Seq<char>>, themes: Map<Seq<char>, T>) -> bool {
    &&& names.len() == themes.len()
    &&& forall|k: Seq<char>| themes.contains_key(k) <==> names.contains(k)
    &&& forall|i: int, j: int| 0 <= i < j < names.len() ==> name_less(#[trigger] names[i], #[trigger] names[j])
}

/// Putting an entry with a new name anywhere adds that name's theme.
pub proof fn lemma_themes_map_insert<T>(s: Seq<(String, T)>, p: int, e: (String, T))
    requires
        names_distinct(s),
        0 <= p <= s.len(),
        forall|j: int| 0 <= j < s.len() ==> #[trigger] s[j].0@ != e.0@,
    ensures
        names_distinct(s.insert(p, e)),
        themes_map(s.insert(p, e)) == themes_map(s).insert(e.0@, e.1),
{
    let t = s.insert(p, e);
    assert forall|a: int, b: int| 0 <= a < b < t.len() implies #[trigger] t[a].0@ != #[trigger] t[b].0@ by {
        if a < p && b < p {
            assert(t[a] == s[a] && t[b] == s[b]);
        } else if a < p && b == p {
            assert(t[a] == s[a]);
        } else if a < p {
            assert(t[a] == s[a] && t[b] == s[b - 1]);
        } else if a == p {
            assert(t[b] == s[b - 1]);
        } else {
            assert(t[a] == s[a - 1] && t[b] == s[b - 1]);
        }
    }
    lemma_themes_map(s);
    lemma_themes_map(t);
    let m = themes_map(s).insert(e.0@, e.1);
    assert forall|k: Seq<char>| themes_map(t).contains_key(k) <==> m.contains_key(k) by {
        if themes_map(t).contains_key(k) {
            let i = choose|i: int| 0 <= i < t.len() && t[i].0@ == k;
            if i < p {
                assert(t[i] == s[i]);
            } else if i > p {
                assert(t[i] == s[i - 1]);
            }
        }
        if themes_map(s).contains_key(k) {
            let i = choose|i: int| 0 <= i < s.len() && s[i].0@ == k;
            if i < p {
                assert(t[i] == s[i]);
            } else {
                assert(t[i + 1] == s[i]);
            }
        }
        if k == e.0@ {
            assert(t[p] == e);
        }
    }
    assert forall|k: Seq<char>| #[trigger] themes_map(t).contains_key(k) implies themes_map(t)[k] == m[k] by {
        let i = choose|i: int| 0 <= i < t.len() && t[i].0@ == k;
        assert(themes_map(t)[t[i].0@] == t[i].1);
        if i < p {
            assert(t[i] == s[i]);
            assert(themes_map(s)[s[i].0@] == s[i].1);
        } else if i > p {
            assert(t[i] == s[i - 1]);
            assert(themes_map(s)[s[i - 1].0@] == s[i - 1].1);
        } else {
            assert(t[i] == e);
        }
    }
    assert(themes_map(t) =~= m);
}

/// The themes that can be chosen, by name, each with what the application
/// keeps of it (its styles and the file it was loaded from); kept in the
/// order of their names, as a `BTreeMap` keyed by name lists them.
#[derive(Debug)]
pub struct ThemeIndex<T> {
    entries: Vec<(String, T)>,
}

impl<T> View for ThemeIndex<T> {
    type V = Map<Seq<char>, T>;

    closed spec fn view(&self) -> Map<Seq<char>, T> {
        themes_map(self.entries@)
    }
}

/// What happened in the theme controls this frame, with the outcome of the
/// file work that the application did for it.
#[derive(Debug)]
pub enum ThemeEvent<T> {
    /// "Change Theme" was clicked.
    ChangeClicked,
    /// "Save Theme" was clicked and the theme was written to its file.
    Saved(T),
    /// "Save Theme" was clicked and the theme could not be serialized.
    SerializeFailed,
    /// "Save Theme" was clicked and the file could not be written.
    WriteFailed,
    /// "Remove Theme" was clicked for a known theme; whether its file was
    /// deleted.
    RemoveClicked { file_removed: bool },
}

/// What the application shows or does after a theme event.
#[derive(Debug, Clone, Copy, PartialEq, Eq, Structural)]
pub enum ThemeNotice {
    /// Nothing.
    Nothing,
    /// Apply the named theme's styles, store its name as the current theme,
    /// and report "Changed Theme".
    Changed,
    /// Report "Failed to serialize theme".
    SerializeFailed,
    /// Report "Failed to save theme".
    SaveFailed,
    /// Report "Removed theme <name>".
    Removed,
    /// Report "Failed to remove theme <name>".
    RemoveFailed,
}

impl<T> ThemeIndex<T> {
    #[verifier::type_invariant]
    spec fn inv(self) -> bool {
        names_distinct(self.entries@) && names_sorted(self.entries@)
    }

    /// The names of the themes in the order they are listed.
    pub closed spec fn names(&self) -> Seq<Seq<char>> {
        self.entries@.map_values(|e: (String, T)| e.0@)
    }

    proof fn lemma_listing(&self)
        requires
            names_distinct(self.entries@),
            names_sorted(self.entries@),
        ensures
            lists_in_order(self.names(), self@),
    {
        lemma_themes_len(self.entries@);
        lemma_themes_map(self.entries@);
        let n = self.names();
        assert forall|k: Seq<char>| self@.contains_key(k) <==> n.contains(k) by {
            if self@.contains_key(k) {
                let i = choose|i: int| 0 <= i < self.entries@.len() && self.entries@[i].0@ == k;
                assert(n[i] == k);
            }
            if n.contains(k) {
                let i = choose|i: int| 0 <= i < n.len() && n[i] == k;
                assert(self.entries@[i].0@ == k);
            }
        }
        assert forall|i: int, j: int| 0 <= i < j < n.len() implies name_less(#[trigger] n[i], #[trigger] n[j]) by {
            assert(name_less(self.entries@[i].0@, self.entries@[j].0@));
        }
    }

    /// No theme.
    pub fn new() -> (themes: Self)
        ensures
            themes@ == Map::<Seq<char>, T>::empty(),
    {
        ThemeIndex { entries: Vec::new() }
    }

    /// The position of the entry named `name`.
    fn find(&self, name: &str) -> (index: Option<usize>)
        ensures
            match index {
                Some(i) => i < self.entries@.len() && self.entries@[i as int].0@ == name@,
                None => !self@.contains_key(name@),
            },
    {
        proof {
            lemma_themes_map(self.entries@);
        }
        let key = String::from_str(name);
        let mut i: usize = 0;
        while i < self.entries.len()
            invariant
                i <= self.entries@.len(),
                key@ == name@,
                forall|j: int| 0 <= j < i ==> self.entries@[j].0@ != name@,
            decreases self.entries@.len() - i,
        {
            if self.entries[i].0 == key {
                return Some(i);
            }
            i = i + 1;
        }
        None
    }

    /// Whether a theme is named `name`.
    pub fn contains(&self, name: &str) -> (res: bool)
        ensures
            res == self@.contains_key(name@),
    {
        proof {
            lemma_themes_map(self.entries@);
        }
        self.find(name).is_some()
    }

    /// The theme named `name`.
    pub fn get(&self, name: &str) -> (theme: Option<&T>)
        ensures
            match theme {
                Some(t) => self@.contains_key(name@) && *t == self@[name@],
                None => !self@.contains_key(name@),
            },
    {
        proof {
            use_type_invariant(self);
            lemma_themes_map(self.entries@);
        }
        match self.find(name) {
            Some(i) => Some(&self.entries[i].1),
            None => None,
        }
    }

    /// How many themes there are; the themes are listed by name, in the
    /// order of `String`, each once.
    pub fn len(&self) -> (n: usize)
        ensures
            n == self@.len(),
            n == self.names().len(),
            lists_in_order(self.names(), self@),
    {
        proof {
            use_type_invariant(self);
            self.lemma_listing();
        }
        self.entries.len()
    }

    /// The name of the `i`-th theme in the list.
    pub fn name(&self, i: usize) -> (name: &str)
        requires
            i < self.names().len(),
        ensures
            name@ == self.names()[i as int],
            lists_in_order(self.names(), self@),
    {
        proof {
            use_type_invariant(self);
            self.lemma_listing();
        }
        self.entries[i].0.as_str()
    }

    /// Makes `theme` the theme named `name`, in place of any earlier one.
    pub fn insert(&mut self, name: &str, theme: T)
        ensures
            final(self)@ == old(self)@.insert(name@, theme),
    {
        proof {
            use_type_invariant(&*self);
            lemma_themes_map(self.entries@);
        }
        let found = self.find(name);
        let mut entries: Vec<(String, T)> = Vec::new();
        std::mem::swap(&mut entries, &mut self.entries);
        let ghost before = entries@;
        let key = String::from_str(name);
        match found {
            Some(i) => {
                proof {
                    lemma_themes_map_update(before, i as int, (key, theme));
                }
                entries.set(i, (key, theme));
                assert forall|a: int, b: int| 0 <= a < b < entries@.len() implies #[trigger] entries@[a].0@
                    != #[trigger] entries@[b].0@ by {
                    assert(before[a].0@ != before[b].0@);
                }
                assert forall|a: int, b: int| 0 <= a < b < entries@.len() implies name_less(
                    #[trigger] entries@[a].0@,
                    #[trigger] entries@[b].0@,
                ) by {
                    assert(name_less(before[a].0@, before[b].0@));
                }
            },
            None => {
                let mut pos: usize = 0;
                while pos < entries.len() && str_less(entries[pos].0.as_str(), name)
                    invariant
                        entries@ == before,
                        pos <= before.len(),
                        forall|j: int| 0 <= j < pos ==> name_less(#[trigger] before[j].0@, name@),
                    decreases before.len() - pos,
                {
                    pos = pos + 1;
                }
                proof {
                    assert forall|j: int| pos <= j < before.len() implies name_less(
                        name@,
                        #[trigger] before[j].0@,
                    ) by {
                        assert(before[pos as int].0@ != name@);
                        lemma_name_less_total(before[pos as int].0@, name@);
                        if j > pos {
                            assert(name_less(before[pos as int].0@, before[j].0@));
                            lemma_name_less_transitive(name@, before[pos as int].0@, before[j].0@);
                        }
                    }
                    assert forall|j: int| 0 <= j < before.len() implies #[trigger] before[j].0@ != name@ by {
                        lemma_name_less_irreflexive(name@);
                        if j < pos {
                            assert(name_less(before[j].0@, name@));
                        } else {
                            assert(name_less(name@, before[j].0@));
                        }
                    }
                    lemma_themes_map_insert(before, pos as int, (key, theme));
                }
                entries.insert(pos, (key, theme));
                assert forall|a: int, b: int| 0 <= a < b < entries@.len() implies name_less(
                    #[trigger] entries@[a].0@,
                    #[trigger] entries@[b].0@,
                ) by {
                    if b < pos {
                        assert(name_less(before[a].0@, before[b].0@));
                    } else if b == pos {
                        assert(name_less(before[a].0@, name@));
                    } else if a < pos {
                        assert(name_less(before[a].0@, before[b - 1].0@));
                    } else if a == pos {
                        assert(name_less(name@, before[b - 1].0@));
                    } else {
                        assert(name_less(before[a - 1].0@, before[b - 1].0@));
                    }
                }
            },
        }
        self.entries = entries;
    }

    /// Takes out the theme named `name`; returns whether there was one.
    pub fn remove(&mut self, name: &str) -> (removed: bool)
        ensures
            removed == old(self)@.contains_key(name@),
            final(self)@ == old(self)@.remove(name@),
    {
        proof {
            use_type_invariant(&*self);
        }
        match self.find(name) {
            Some(i) => {
                let mut entries: Vec<(String, T)> = Vec::new();
                std::mem::swap(&mut entries, &mut self.entries);
                let ghost before = entries@;
                proof {
                    lemma_themes_map_remove(entries@, i as int);
                    lemma_themes_map(entries@);
                }
                entries.remove(i);
                assert forall|a: int, b: int| 0 <= a < b < entries@.len() implies name_less(
                    #[trigger] entries@[a].0@,
                    #[trigger] entries@[b].0@,
                ) by {
                    let sa = if a < i { a } else { a + 1 };
                    let sb = if b < i { b } else { b + 1 };
                    assert(entries@[a] == before[sa] && entries@[b] == before[sb]);
                    assert(name_less(before[sa].0@, before[sb].0@));
                }
                self.entries = entries;
                true
            },
            None => {
                assert(old(self)@.remove(name@) =~= old(self)@);
                false
            },
        }
    }

    /// One step of the theme controls for the theme named `current`:
    /// - "Change Theme" applies it when it is known, else does nothing;
    /// - a theme that was written is then known under that name, in place of
    ///   any earlier one; a failed save changes nothing and is reported;
    /// - "Remove Theme" on a known theme whose file was deleted forgets it;
    ///   when the file could not be deleted it is kept and the failure is
    ///   reported; on an unknown theme it does nothing.
    pub fn theme_step(&mut self, current: &str, event: ThemeEvent<T>) -> (notice: ThemeNotice)
        ensures
            ({
                let was = old(self)@;
                let now = final(self)@;
                let known = was.contains_key(current@);
                match event {
                    ThemeEvent::ChangeClicked => now == was && notice == (if known {
                        ThemeNotice::Changed
                    } else {
                        ThemeNotice::Nothing
                    }),
                    ThemeEvent::Saved(t) => now == was.insert(current@, t) && notice == ThemeNotice::Nothing,
                    ThemeEvent::SerializeFailed => now == was && notice == ThemeNotice::SerializeFailed,
                    ThemeEvent::WriteFailed => now == was && notice == ThemeNotice::SaveFailed,
                    ThemeEvent::RemoveClicked { file_removed } => if !known {
                        now == was && notice == ThemeNotice::Nothing
                    } else if file_removed {
                        now == was.remove(current@) && notice == ThemeNotice::Removed
                    } else {
                        now == was && notice == ThemeNotice::RemoveFailed
                    },
                }
            }),
    {
        match event {
            ThemeEvent::ChangeClicked => {
                if self.contains(current) {
                    ThemeNotice::Changed
                } else {
                    ThemeNotice::Nothing
                }
            },
            ThemeEvent::Saved(t) => {
                self.insert(current, t);
                ThemeNotice::Nothing
            },
            ThemeEvent::SerializeFailed => ThemeNotice::SerializeFailed,
            ThemeEvent::WriteFailed => ThemeNotice::SaveFailed,
            ThemeEvent::RemoveClicked { file_removed } => {
                if !self.contains(current) {
                    ThemeNotice::Nothing
                } else if file_removed {
                    self.remove(current);
                    ThemeNotice::Removed
                } else {
                    ThemeNotice::RemoveFailed
                }
            },
        }
    }
}

/// With distinct names there are as many themes as entries.
pub proof fn lemma_themes_len<T>(s: Seq<(String, T)>)
    requires
        names_distinct(s),
    ensures
        themes_map(s).dom().finite(),
        themes_map(s).len() == s.len(),
    decreases s.len(),
{
    if s.len() > 0 {
        let d = s.drop_last();
        assert forall|a: int, b: int| 0 <= a < b < d.len() implies #[trigger] d[a].0@ != #[trigger] d[b].0@ by {
            assert(d[a] == s[a] && d[b] == s[b]);
        }
        lemma_themes_len(d);
        lemma_themes_map(d);
        assert(!themes_map(d).contains_key(s.last().0@)) by {
            if themes_map(d).contains_key(s.last().0@) {
                let j = choose|j: int| 0 <= j < d.len() && d[j].0@ == s.last().0@;
                assert(s[j] == d[j]);
            }
        }
    }
}

} // verus!
