//! Counting where a watched value was changed from: for each entity, how
//! many times a change came from each source location.
use vstd::prelude::*;

verus! {

/// How many changes of one entity's value came from one source location.
#[derive(Debug)]
pub struct HitEntry {
    pub entity: u64,
    pub file: String,
    pub line: u32,
    pub count: usize,
}

/// Whether an entry counts changes of `entity` from `file` at `line`.
pub open spec fn entry_is(e: HitEntry, entity: u64, file: Seq<char>, line: u32) -> bool {
    e.entity == entity && e.file@ == file && e.line == line
}

/// The count recorded for a location: that of the last entry for it, or 0.
pub open spec fn hit_count(entries: Seq<HitEntry>, entity: u64, file: Seq<char>, line: u32) -> nat
    decreases entries.len(),
{
    if entries.len() == 0 {
        0
    } else if entry_is(entries.last(), entity, file, line) {
        entries.last().count as nat
    } else {
        hit_count(entries.drop_last(), entity, file, line)
    }
}

/// Index of the last entry for a location, or -1.
pub open spec fn last_entry(entries: Seq<HitEntry>, entity: u64, file: Seq<char>, line: u32) -> int
    decreases entries.len(),
{
    if entries.len() == 0 {
        -1
    } else if entry_is(entries.last(), entity, file, line) {
        entries.len() - 1
    } else {
        last_entry(entries.drop_last(), entity, file, line)
    }
}

/// The last entry for a location holds its count, and no later entry is
/// for it.
pub proof fn lemma_last_entry(entries: Seq<HitEntry>, entity: u64, file: Seq<char>, line: u32)
    ensures
        -1 <= last_entry(entries, entity, file, line) < entries.len(),
        last_entry(entries, entity, file, line) >= 0 ==> {
            let i = last_entry(entries, entity, file, line);
            &&& entry_is(entries[i], entity, file, line)
            &&& hit_count(entries, entity, file, line) == entries[i].count
            &&& forall|j: int| i < j < entries.len() ==> !entry_is(#[trigger] entries[j], entity, file, line)
        },
        last_entry(entries, entity, file, line) < 0 ==> hit_count(entries, entity, file, line) == 0,
    decreases entries.len(),
{
    if entries.len() > 0 {
        lemma_last_entry(entries.drop_last(), entity, file, line);
        let i = last_entry(entries, entity, file, line);
        if i >= 0 && !entry_is(entries.last(), entity, file, line) {
            assert forall|j: int| i < j < entries.len() implies !entry_is(#[trigger] entries[j], entity, file, line) by {
                if j < entries.len() - 1 {
                    assert(entries[j] == entries.drop_last()[j]);
                }
            }
        }
    }
}

/// Replacing the entry at `i` by one for the same location changes the count
/// of that location to the new entry's and no other count.
pub proof fn lemma_update_entry(
    entries: Seq<HitEntry>,
    i: int,
    new_entry: HitEntry,
    entity: u64,
    file: Seq<char>,
    line: u32,
)
    requires
        0 <= i < entries.len(),
        entry_is(entries[i], new_entry.entity, new_entry.file@, new_entry.line),
        forall|j: int| i < j < entries.len() ==> !entry_is(#[trigger] entries[j], new_entry.entity, new_entry.file@, new_entry.line),
    ensures
        hit_count(entries.update(i, new_entry), entity, file, line) == if entry_is(
            new_entry,
            entity,
            file,
            line,
        ) {
            new_entry.count as nat
        } else {
            hit_count(entries, entity, file, line)
        },
    decreases entries.len(),
{
    let u = entries.update(i, new_entry);
    if i < entries.len() - 1 {
        assert(u.drop_last() =~= entries.drop_last().update(i, new_entry));
        assert(!entry_is(entries.last(), new_entry.entity, new_entry.file@, new_entry.line));
        lemma_update_entry(entries.drop_last(), i, new_entry, entity, file, line);
    } else {
        assert(u.drop_last() =~= entries.drop_last());
        if !entry_is(new_entry, entity, file, line) {
            assert(!entry_is(entries[i], entity, file, line));
        }
    }
}

/// Where the changes of watched values came from.
#[derive(Debug)]
pub struct ChangeHits {
    entries: Vec<HitEntry>,
}

impl ChangeHits {
    /// How many changes of `entity` came from `file` at `line`.
    pub closed spec fn count_spec(&self, entity: u64, file: Seq<char>, line: u32) -> nat {
        hit_count(self.entries@, entity, file, line)
    }

    pub fn new() -> (hits: Self)
        ensures
            forall|e: u64, f: Seq<char>, l: u32| #[trigger] hits.count_spec(e, f, l) == 0,
    {
        ChangeHits { entries: Vec::new() }
    }

    fn find(&self, entity: u64, file: &String, line: u32) -> (index: Option<usize>)
        ensures
            match index {
                Some(i) => i as int == last_entry(self.entries@, entity, file@, line),
                None => last_entry(self.entries@, entity, file@, line) == -1,
            },
    {
        let mut i = self.entries.len();
        while i > 0
            invariant
                i <= self.entries@.len(),
                forall|j: int|
                    i <= j < self.entries@.len() ==> !entry_is(#[trigger] self.entries@[j], entity, file@, line),
            decreases i,
        {
            let k = i - 1;
            let e = &self.entries[k];
            if e.entity == entity && e.line == line && e.file == *file {
                proof {
                    lemma_last_entry_from_back(self.entries@, k as int, entity, file@, line);
                }
                return Some(k);
            }
            i = k;
        }
        proof {
            lemma_last_entry(self.entries@, entity, file@, line);
        }
        None
    }

    /// Records one more change of `entity` from `file` at `line`.
    pub fn record(&mut self, entity: u64, file: &str, line: u32)
        requires
            old(self).count_spec(entity, file@, line) < usize::MAX,
        ensures
            forall|e: u64, f: Seq<char>, l: u32| #[trigger] final(self).count_spec(e, f, l) == if e
                == entity && f == file@ && l == line {
                old(self).count_spec(e, f, l) + 1
            } else {
                old(self).count_spec(e, f, l)
            },
    {
        let file = String::from_str(file);
        match self.find(entity, &file, line) {
            Some(i) => {
                proof {
                    lemma_last_entry(self.entries@, entity, file@, line);
                }
                let count = self.entries[i].count;
                let ghost before = self.entries@;
                let new_entry = HitEntry { entity, file, line, count: count + 1 };
                proof {
                    assert forall|e: u64, f: Seq<char>, l: u32| #[trigger] hit_count(
                        before.update(i as int, new_entry),
                        e,
                        f,
                        l,
                    ) == if e == entity && f == new_entry.file@ && l == line {
                        hit_count(before, e, f, l) + 1
                    } else {
                        hit_count(before, e, f, l)
                    } by {
                        lemma_update_entry(before, i as int, new_entry, e, f, l);
                    }
                }
                self.entries.set(i, new_entry);
            },
            None => {
                proof {
                    lemma_last_entry(self.entries@, entity, file@, line);
                }
                let ghost before = self.entries@;
                self.entries.push(HitEntry { entity, file, line, count: 1 });
                assert(self.entries@.drop_last() =~= before);
            },
        }
    }

    /// How many changes of `entity` came from `file` at `line`.
    pub fn count(&self, entity: u64, file: &str, line: u32) -> (n: usize)
        ensures
            n == self.count_spec(entity, file@, line),
    {
        let file = String::from_str(file);
        proof {
            lemma_last_entry(self.entries@, entity, file@, line);
        }
        match self.find(entity, &file, line) {
            Some(i) => self.entries[i].count,
            None => 0,
        }
    }
}

/// An entry for a location with no later entry for it is the last one.
pub proof fn lemma_last_entry_from_back(entries: Seq<HitEntry>, k: int, entity: u64, file: Seq<char>, line: u32)
    requires
        0 <= k < entries.len(),
        entry_is(entries[k], entity, file, line),
        forall|j: int| k < j < entries.len() ==> !entry_is(#[trigger] entries[j], entity, file, line),
    ensures
        last_entry(entries, entity, file, line) == k,
    decreases entries.len(),
{
    if k < entries.len() - 1 {
        assert(!entry_is(entries[entries.len() - 1], entity, file, line));
        assert forall|j: int| k < j < entries.drop_last().len() implies !entry_is(#[trigger] entries.drop_last()[j], entity, file, line) by {
            assert(entries.drop_last()[j] == entries[j]);
        }
        lemma_last_entry_from_back(entries.drop_last(), k, entity, file, line);
    }
}

/// What is found of the watched component when its type is first looked up.
#[derive(Debug, Clone, Copy, PartialEq, Eq)]
pub enum ComponentLookup<T> {
    /// No component is registered under the id.
    Missing,
    /// The component has no Rust type.
    NoTypeId,
    /// The component's type.
    TypeId(T),
}

/// The title of a change viewer panel, worked out once over several frames:
/// first the watched component's type, then that type's short path.
#[derive(Debug)]
pub struct ChangeViewerTitle<T> {
    cached_name: Option<String>,
    cached_type_id: Option<T>,
    failed_to_find_component_name: bool,
}

/// The title shown until the watched type's name is known.
pub open spec fn default_title() -> Seq<char> {
    "ChangeViewerUi"@
}

impl<T: Copy> ChangeViewerTitle<T> {
    pub closed spec fn cached_name_spec(&self) -> Option<Seq<char>> {
        match self.cached_name {
            Some(n) => Some(n@),
            None => None,
        }
    }

    pub closed spec fn cached_type_id_spec(&self) -> Option<T> {
        self.cached_type_id
    }

    pub closed spec fn failed_spec(&self) -> bool {
        self.failed_to_find_component_name
    }

    /// Nothing known yet.
    pub fn new(type_id: Option<T>) -> (title: Self)
        ensures
            title.cached_name_spec() is None,
            title.cached_type_id_spec() == type_id,
            !title.failed_spec(),
    {
        ChangeViewerTitle { cached_name: None, cached_type_id: type_id, failed_to_find_component_name: false }
    }

    /// The title for this frame. A known name is shown as it is. Otherwise,
    /// without the watched type, the component is looked up once (when the
    /// panel watches something and no earlier lookup failed) and its type
    /// kept for the next frame; with the type, its short path is looked up
    /// and, when found, `ChangeViewerUi - <path>` becomes the name for good.
    pub fn title<F: Fn() -> ComponentLookup<T>, G: Fn(T) -> Option<String>>(
        &mut self,
        watches_something: bool,
        find_component: F,
        short_path: G,
    ) -> (title: String)
        requires
            find_component.requires(()),
            forall|t: T| short_path.requires((t,)),
        ensures
            ({
                let was = *old(self);
                let now = *final(self);
                &&& was.cached_name_spec() is Some ==> {
                    &&& title@ == was.cached_name_spec()->0
                    &&& now == was
                }
                &&& was.cached_name_spec() is None && was.cached_type_id_spec() is None ==> {
                    &&& title@ == default_title()
                    &&& now.cached_name_spec() is None
                    &&& (was.failed_spec() || !watches_something) ==> now == was
                    &&& (!was.failed_spec() && watches_something) ==> exists|found: ComponentLookup<T>|
                        #[trigger] find_component.ensures((), found) && match found {
                            ComponentLookup::TypeId(t) => now.cached_type_id_spec() == Some(t)
                                && !now.failed_spec(),
                            _ => now.cached_type_id_spec() is None && now.failed_spec(),
                        }
                }
                &&& was.cached_name_spec() is None && was.cached_type_id_spec() is Some ==> {
                    &&& now.cached_type_id_spec() == was.cached_type_id_spec()
                    &&& now.failed_spec() == was.failed_spec()
                    &&& exists|path: Option<String>|
                        #[trigger] short_path.ensures((was.cached_type_id_spec()->0,), path)
                            && match path {
                            Some(p) => title@ == default_title() + " - "@ + p@
                                && now.cached_name_spec() == Some(title@),
                            None => title@ == default_title() && now.cached_name_spec() is None,
                        }
                }
            }),
    {
        match &self.cached_name {
            Some(name) => {
                return name.clone();
            },
            None => {},
        }
        match self.cached_type_id {
            None => {
                if self.failed_to_find_component_name || !watches_something {
                    return String::from_str("ChangeViewerUi");
                }
                let found = find_component();
                match found {
                    ComponentLookup::TypeId(t) => {
                        self.cached_type_id = Some(t);
                    },
                    _ => {
                        self.failed_to_find_component_name = true;
                    },
                }
                String::from_str("ChangeViewerUi")
            },
            Some(t) => {
                let path = short_path(t);
                match path {
                    Some(p) => {
                        let mut name = String::from_str("ChangeViewerUi");
                        name.append(" - ");
                        name.append(p.as_str());
                        self.cached_name = Some(name.clone());
                        name
                    },
                    None => String::from_str("ChangeViewerUi"),
                }
            },
        }
    }
}

} // verus!
