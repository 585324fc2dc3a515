//! Saving and restoring the panel layout.
use vstd::prelude::*;

verus! {

/// Lower-case hexadecimal digit of `n`, for `0 <= n < 16`.
pub open spec fn hex_digit(n: u128) -> char {
    if n < 10 {
        ((48 + n) as u32) as char
    } else {
        ((87 + n) as u32) as char
    }
}

/// The `i`-th hexadecimal digit of `v`, most significant first, for
/// `0 <= i < 32`.
pub open spec fn nibble(v: u128, i: int) -> u128 {
    (v >> ((31 - i) * 4) as u128) & 15
}

/// The hyphenated lower-case form of a UUID, `8-4-4-4-12` digits, most
/// significant first.
pub open spec fn uuid_hyphenated(v: u128) -> Seq<char> {
    Seq::new(
        36,
        |k: int|
            if k == 8 || k == 13 || k == 18 || k == 23 {
                '-'
            } else {
                let hyphens_before = if k < 8 {
                    0int
                } else if k < 13 {
                    1
                } else if k < 18 {
                    2
                } else if k < 23 {
                    3
                } else {
                    4
                };
                hex_digit(nibble(v, k - hyphens_before))
            },
    )
}

/// `Uuid::from_u128(id).to_string()`: the UUID's `Display` form, which is
/// hyphenated lower-case hexadecimal.
#[verifier::external_body]
fn uuid_to_string(id: u128) -> (s: String)
    ensures
        s@ == uuid_hyphenated(id),
{
    uuid::Uuid::from_u128(id).to_string()
}

/// A panel that was saved in a layout but whose kind is not registered.
#[derive(Debug)]
pub struct MissingUi {
    message: String,
    id: u128,
    name: String,
}

impl MissingUi {
    pub closed spec fn message_spec(&self) -> Seq<char> {
        self.message@
    }

    pub closed spec fn id_spec(&self) -> u128 {
        self.id
    }

    pub closed spec fn name_spec(&self) -> Seq<char> {
        self.name@
    }

    /// The placeholder for the panel `name` of kind `id`, with the message
    /// it shows.
    pub fn new(name: &str, id: u128) -> (ui: MissingUi)
        ensures
            ui.name_spec() == name@,
            ui.id_spec() == id,
            ui.message_spec() == "Failed to find ui component "@ + name@ + " with uuid: "@
                + uuid_hyphenated(id),
    {
        let mut message = String::from_str("Failed to find ui component ");
        message.append(name);
        message.append(" with uuid: ");
        let id_text = uuid_to_string(id);
        message.append(id_text.as_str());
        MissingUi { message, id, name: String::from_str(name) }
    }

    pub fn id(&self) -> (id: u128)
        ensures
            id == self.id_spec(),
    {
        self.id
    }

    pub fn name(&self) -> (name: &str)
        ensures
            name@ == self.name_spec(),
    {
        self.name.as_str()
    }

    pub fn message(&self) -> (message: &str)
        ensures
            message@ == self.message_spec(),
    {
        self.message.as_str()
    }
}

/// What a saved layout records of a panel: the id of its kind and its name.
#[derive(Debug, Clone)]
pub struct LayoutInfo {
    id: u128,
    name: String,
}

impl LayoutInfo {
    pub closed spec fn id_spec(&self) -> u128 {
        self.id
    }

    pub closed spec fn name_spec(&self) -> Seq<char> {
        self.name@
    }

    pub fn new(id: u128, name: &str) -> (info: LayoutInfo)
        ensures
            info.id_spec() == id,
            info.name_spec() == name@,
    {
        LayoutInfo { id, name: String::from_str(name) }
    }

    pub fn id(&self) -> (id: u128)
        ensures
            id == self.id_spec(),
    {
        self.id
    }

    pub fn name(&self) -> (name: &str)
        ensures
            name@ == self.name_spec(),
    {
        self.name.as_str()
    }
}

/// What a saved panel becomes when a layout is restored.
#[derive(Debug, Clone, Copy, PartialEq, Eq, Structural)]
pub enum TabRestore {
    /// Its kind is unknown: a placeholder that says so takes its place.
    Missing,
    /// It is opened again.
    Reopen,
    /// It is left closed.
    Drop,
}

/// A panel of an unknown kind becomes a placeholder; a known one reopens
/// when its kind reopens on startup, else it stays closed.
pub fn restore_tab(kind_known: bool, reopen_on_startup: bool) -> (restore: TabRestore)
    ensures
        restore == (if !kind_known {
            TabRestore::Missing
        } else if reopen_on_startup {
            TabRestore::Reopen
        } else {
            TabRestore::Drop
        }),
{
    if !kind_known {
        TabRestore::Missing
    } else if reopen_on_startup {
        TabRestore::Reopen
    } else {
        TabRestore::Drop
    }
}

/// How the layout is saved on exit.
#[derive(Debug, PartialEq, Eq)]
pub enum LayoutSave {
    /// Nothing is saved.
    Skip,
    /// The layout is saved under `name`; when `record_name`, the name is
    /// first stored as the current layout.
    Save { name: String, record_name: bool },
}

/// On exit, the layout is saved unless the setting says not to (saving is
/// the default); it goes under the current layout's name, or under
/// `"default"`, which then becomes the current layout.
pub fn layout_to_save(save_on_exit: Option<bool>, current_layout: Option<String>) -> (save: LayoutSave)
    ensures
        save_on_exit == Some(false) ==> save == LayoutSave::Skip,
        save_on_exit != Some(false) && current_layout is Some ==> (save matches LayoutSave::Save {
            name,
            record_name,
        } && name@ == current_layout->0@ && !record_name),
        save_on_exit != Some(false) && current_layout is None ==> (save matches LayoutSave::Save {
            name,
            record_name,
        } && name@ == "default"@ && record_name),
{
    let save = match save_on_exit {
        Some(s) => s,
        None => true,
    };
    if !save {
        return LayoutSave::Skip;
    }
    match current_layout {
        Some(name) => LayoutSave::Save { name, record_name: false },
        None => LayoutSave::Save { name: String::from_str("default"), record_name: true },
    }
}

/// Where the layout on startup comes from.
#[derive(Debug, Clone, Copy, PartialEq, Eq, Structural)]
pub enum LayoutSource {
    /// The layout saved under the current layout's name.
    Saved,
    /// The built-in default arrangement.
    Default,
}

/// The saved layout is restored when a current layout is named and found;
/// otherwise the default arrangement is built.
pub fn layout_source(current_layout_named: bool, saved_layout_found: bool) -> (source: LayoutSource)
    ensures
        source == (if current_layout_named && saved_layout_found {
            LayoutSource::Saved
        } else {
            LayoutSource::Default
        }),
{
    if current_layout_named && saved_layout_found {
        LayoutSource::Saved
    } else {
        LayoutSource::Default
    }
}

/// The name under which a prefab is listed: its type's short name, followed
/// by `#` and the variant's name when it has one.
pub fn prefab_item_name(short_name: &str, variant: Option<&str>) -> (name: String)
    ensures
        name@ == (match variant {
            Some(v) => short_name@ + "#"@ + v@,
            None => short_name@,
        }),
{
    let mut name = String::from_str(short_name);
    match variant {
        Some(v) => {
            name.append("#");
            name.append(v);
        },
        None => {},
    }
    name
}

/// The registered kinds of panel, by the id of their kind. What a kind
/// records about itself is carried as given.
#[derive(Debug)]
pub struct UiVTables<V> {
    tables: std::collections::HashMap<u128, V>,
}

impl<V> View for UiVTables<V> {
    type V = Map<u128, V>;

    closed spec fn view(&self) -> Map<u128, V> {
        self.tables@
    }
}

impl<V> UiVTables<V> {
    pub fn new() -> (tables: Self)
        ensures
            tables@ == Map::<u128, V>::empty(),
    {
        UiVTables { tables: std::collections::HashMap::new() }
    }

    /// Registers a kind of panel. A kind can be registered only once.
    pub fn register(&mut self, id: u128, vtable: V)
        requires
            !old(self)@.contains_key(id),
        ensures
            final(self)@ == old(self)@.insert(id, vtable),
    {
        broadcast use vstd::std_specs::hash::group_hash_axioms;

        self.tables.insert(id, vtable);
    }

    /// Whether a kind is registered.
    pub fn contains_key(&self, id: u128) -> (res: bool)
        ensures
            res == self@.contains_key(id),
    {
        broadcast use vstd::std_specs::hash::group_hash_axioms;

        self.tables.contains_key(&id)
    }

    /// What a registered kind records about itself.
    pub fn get(&self, id: u128) -> (vtable: Option<&V>)
        ensures
            match vtable {
                Some(v) => self@.contains_key(id) && *v == self@[id],
                None => !self@.contains_key(id),
            },
    {
        broadcast use vstd::std_specs::hash::group_hash_axioms;

        self.tables.get(&id)
    }
}

} // verus!
