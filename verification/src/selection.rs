//! Which entities are selected in the hierarchy, and how clicks change that.
//!
//! An entity is identified by its 64-bit id (`Entity::to_bits`).
use vstd::prelude::*;

verus! {

/// A short list of entity ids, kept in a `SmallVec` that stores up to eight
/// ids inline.
#[verifier::external_body]
pub struct EntityList {
    items: smallvec::SmallVec<[u64; 8]>,
}

/// The ids an [`EntityList`] holds, front to back.
pub uninterp spec fn entity_list_items(list: EntityList) -> Seq<u64>;

/// Builds the list with `SmallVec::from_vec`, which keeps the elements and
/// their order.
#[verifier::external_body]
fn entity_list_from_vec(v: Vec<u64>) -> (res: EntityList)
    ensures
        entity_list_items(res) == v@,
{
    EntityList { items: smallvec::SmallVec::from_vec(v) }
}

/// Copies the ids out with `SmallVec::to_vec`, which keeps their order.
#[verifier::external_body]
fn entity_list_to_vec(list: &EntityList) -> (res: Vec<u64>)
    ensures
        res@ == entity_list_items(*list),
{
    list.items.to_vec()
}

/// How a click changes the selection.
#[derive(Debug, Clone, Copy, PartialEq, Eq, Structural)]
pub enum SelectionMode {
    /// No modifiers
    Replace,
    /// `Ctrl`
    Add,
    /// `Shift`
    Extend,
}

impl SelectionMode {
    /// `Ctrl` adds, `Shift` alone extends, no modifier replaces.
    pub fn from_ctrl_shift(ctrl: bool, shift: bool) -> (mode: SelectionMode)
        ensures
            ctrl ==> mode == SelectionMode::Add,
            !ctrl && shift ==> mode == SelectionMode::Extend,
            !ctrl && !shift ==> mode == SelectionMode::Replace,
    {
        match (ctrl, shift) {
            (true, _) => SelectionMode::Add,
            (false, true) => SelectionMode::Extend,
            (false, false) => SelectionMode::Replace,
        }
    }
}

// ---------------------------------------------------------------------------
// The selection as a sequence of ids.

/// `s` with `e` appended unless it is already there.
pub open spec fn insert_one(s: Seq<u64>, e: u64) -> Seq<u64> {
    if s.contains(e) {
        s
    } else {
        s.push(e)
    }
}

/// `s` with each of `xs` inserted in turn.
pub open spec fn insert_all(s: Seq<u64>, xs: Seq<u64>) -> Seq<u64>
    decreases xs.len(),
{
    if xs.len() == 0 {
        s
    } else {
        insert_one(insert_all(s, xs.drop_last()), xs.last())
    }
}

/// `s` with every occurrence of `e` taken out, the rest in order.
pub open spec fn without(s: Seq<u64>, e: u64) -> Seq<u64>
    decreases s.len(),
{
    if s.len() == 0 {
        s
    } else if s.last() == e {
        without(s.drop_last(), e)
    } else {
        without(s.drop_last(), e).push(s.last())
    }
}

/// The elements of `prev` that `cur` does not hold, in the order of `prev`.
pub open spec fn minus(prev: Seq<u64>, cur: Seq<u64>) -> Seq<u64>
    decreases prev.len(),
{
    if prev.len() == 0 {
        prev
    } else if cur.contains(prev.last()) {
        minus(prev.drop_last(), cur)
    } else {
        minus(prev.drop_last(), cur).push(prev.last())
    }
}

/// A `Ctrl` click on `e`: takes it out if selected, else appends it.
pub open spec fn toggle(s: Seq<u64>, e: u64) -> Seq<u64> {
    if s.contains(e) {
        without(s, e)
    } else {
        s.push(e)
    }
}

/// The selection after a click on `entity` with `Ctrl` held (`add`) or not.
pub open spec fn selected_after_click(s: Seq<u64>, entity: u64, add: bool) -> Seq<u64> {
    if s.len() == 0 {
        seq![entity]
    } else if add {
        toggle(s, entity)
    } else {
        seq![entity]
    }
}

/// What a `Shift` click extends: the selection itself after an earlier
/// extension, else nothing.
pub open spec fn extend_base(s: Seq<u64>, last_mode: SelectionMode) -> Seq<u64> {
    if last_mode == SelectionMode::Extend {
        s
    } else {
        Seq::<u64>::empty()
    }
}

/// The mode of a click with `Ctrl` held (`add`) or not.
pub open spec fn click_mode(add: bool) -> SelectionMode {
    if add {
        SelectionMode::Add
    } else {
        SelectionMode::Replace
    }
}

/// Whether a click extends from an earlier one: a `Shift` click on a
/// non-empty selection after an earlier click.
pub open spec fn extends_from_anchor(s: Seq<u64>, anchor: Option<(SelectionMode, u64)>, mode: SelectionMode) -> bool {
    s.len() > 0 && mode == SelectionMode::Extend && anchor is Some
}

/// The selection after a click on `entity` in `mode`, where `ext` is what
/// the extension from the earlier click gives (used only when the click
/// extends from it).
pub open spec fn selected_after(
    s: Seq<u64>,
    anchor: Option<(SelectionMode, u64)>,
    mode: SelectionMode,
    entity: u64,
    ext: Seq<u64>,
) -> Seq<u64> {
    if s.len() == 0 {
        seq![entity]
    } else {
        match mode {
            SelectionMode::Replace => seq![entity],
            SelectionMode::Add => toggle(s, entity),
            SelectionMode::Extend => match anchor {
                None => insert_one(s, entity),
                Some((last_mode, _)) => insert_all(extend_base(s, last_mode), ext),
            },
        }
    }
}

/// The earlier click remembered after a click: this one, unless it extends
/// from an earlier one, which then stays.
pub open spec fn anchor_after(
    s: Seq<u64>,
    anchor: Option<(SelectionMode, u64)>,
    mode: SelectionMode,
    entity: u64,
) -> Option<(SelectionMode, u64)> {
    if extends_from_anchor(s, anchor, mode) {
        anchor
    } else {
        Some((mode, entity))
    }
}

/// Index of the last occurrence of `x` in `s`, or -1.
pub open spec fn last_position(s: Seq<u64>, x: u64) -> int
    decreases s.len(),
{
    if s.len() == 0 {
        -1
    } else if s.last() == x {
        s.len() - 1
    } else {
        last_position(s.drop_last(), x)
    }
}

/// The entities from `from` to `to` (either way round) among `level`, or
/// nothing when one of the two is not there.
pub open spec fn range_between(level: Seq<u64>, from: u64, to: u64) -> Seq<u64> {
    let a = last_position(level, from);
    let b = last_position(level, to);
    if a < 0 || b < 0 {
        Seq::<u64>::empty()
    } else if a < b {
        level.subrange(a, b + 1)
    } else {
        level.subrange(b, a + 1)
    }
}

/// What a sequence holds after a push.
pub proof fn lemma_push_contains(s: Seq<u64>, e: u64)
    ensures
        forall|x: u64| #[trigger] s.push(e).contains(x) <==> (s.contains(x) || x == e),
{
    assert forall|x: u64| #[trigger] s.push(e).contains(x) <==> (s.contains(x) || x == e) by {
        if s.push(e).contains(x) {
            let k = choose|k: int| 0 <= k < s.push(e).len() && s.push(e)[k] == x;
            if k < s.len() {
                assert(s[k] == x);
            }
        }
        if s.contains(x) {
            let k = choose|k: int| 0 <= k < s.len() && s[k] == x;
            assert(s.push(e)[k] == x);
        }
        if x == e {
            assert(s.push(e)[s.len() as int] == x);
        }
    }
}

/// Pushing a new element keeps a sequence free of duplicates.
pub proof fn lemma_push_no_duplicates(s: Seq<u64>, e: u64)
    requires
        s.no_duplicates(),
        !s.contains(e),
    ensures
        s.push(e).no_duplicates(),
{
    let p = s.push(e);
    assert forall|i: int, j: int| 0 <= i < p.len() && 0 <= j < p.len() && i != j implies p[i]
        != p[j] by {
        if i < s.len() && j < s.len() {
            assert(p[i] == s[i] && p[j] == s[j]);
        } else if i < s.len() {
            assert(p[i] == s[i]);
            assert(s.contains(p[i]));
        } else if j < s.len() {
            assert(p[j] == s[j]);
            assert(s.contains(p[j]));
        }
    }
}

/// What a sequence holds without its last element.
pub proof fn lemma_drop_last(s: Seq<u64>)
    requires
        s.len() > 0,
    ensures
        forall|x: u64| #[trigger] s.contains(x) <==> (s.drop_last().contains(x) || x == s.last()),
        s.no_duplicates() ==> s.drop_last().no_duplicates() && !s.drop_last().contains(s.last()),
        s =~= s.drop_last().push(s.last()),
{
    let d = s.drop_last();
    assert forall|x: u64| #[trigger] s.contains(x) <==> (d.contains(x) || x == s.last()) by {
        if s.contains(x) {
            let k = choose|k: int| 0 <= k < s.len() && s[k] == x;
            if k < s.len() - 1 {
                assert(d[k] == x);
            }
        }
        if d.contains(x) {
            let k = choose|k: int| 0 <= k < d.len() && d[k] == x;
            assert(s[k] == x);
        }
    }
    if s.no_duplicates() {
        assert(!d.contains(s.last())) by {
            if d.contains(s.last()) {
                let k = choose|k: int| 0 <= k < d.len() && d[k] == s.last();
                assert(s[k] == s[s.len() - 1]);
            }
        }
    }
}

/// What a sequence holds after `insert_one`.
pub proof fn lemma_insert_one(s: Seq<u64>, e: u64)
    ensures
        s.no_duplicates() ==> insert_one(s, e).no_duplicates(),
        forall|x: u64| #[trigger] insert_one(s, e).contains(x) <==> (s.contains(x) || x == e),
{
    lemma_push_contains(s, e);
    if s.no_duplicates() && !s.contains(e) {
        lemma_push_no_duplicates(s, e);
    }
}

/// An extension by `Shift` never selects an entity twice, and selects
/// exactly the entities selected before and those of the extension.
pub proof fn law_extension_selects_union(s: Seq<u64>, xs: Seq<u64>)
    ensures
        s.no_duplicates() ==> insert_all(s, xs).no_duplicates(),
        forall|x: u64| #[trigger] insert_all(s, xs).contains(x) <==> (s.contains(x) || xs.contains(x)),
    decreases xs.len(),
{
    if xs.len() > 0 {
        law_extension_selects_union(s, xs.drop_last());
        lemma_insert_one(insert_all(s, xs.drop_last()), xs.last());
        lemma_drop_last(xs);
    }
}

/// What a sequence holds after `without`.
pub proof fn lemma_without(s: Seq<u64>, e: u64)
    ensures
        s.no_duplicates() ==> without(s, e).no_duplicates(),
        forall|x: u64| #[trigger] without(s, e).contains(x) <==> (s.contains(x) && x != e),
        !s.contains(e) ==> without(s, e) == s,
    decreases s.len(),
{
    if s.len() > 0 {
        let d = s.drop_last();
        lemma_without(d, e);
        lemma_drop_last(s);
        if s.last() != e {
            let w = without(d, e);
            lemma_push_contains(w, s.last());
            if s.no_duplicates() {
                lemma_push_no_duplicates(w, s.last());
            }
        }
    }
}

/// What `minus` holds.
pub proof fn lemma_minus(prev: Seq<u64>, cur: Seq<u64>)
    ensures
        forall|x: u64| #[trigger] minus(prev, cur).contains(x) <==> (prev.contains(x) && !cur.contains(x)),
        prev.no_duplicates() ==> minus(prev, cur).no_duplicates(),
    decreases prev.len(),
{
    if prev.len() > 0 {
        let d = prev.drop_last();
        lemma_minus(d, cur);
        lemma_drop_last(prev);
        if !cur.contains(prev.last()) {
            let m = minus(d, cur);
            lemma_push_contains(m, prev.last());
            if prev.no_duplicates() {
                lemma_push_no_duplicates(m, prev.last());
            }
        }
    }
}

/// Nothing is taken away when nothing remains to compare with.
pub proof fn lemma_minus_empty(prev: Seq<u64>)
    ensures
        minus(prev, Seq::<u64>::empty()) == prev,
    decreases prev.len(),
{
    if prev.len() > 0 {
        lemma_minus_empty(prev.drop_last());
        assert(prev.drop_last().push(prev.last()) =~= prev);
    }
}

/// An entity is reported as removed exactly when it was selected before a
/// change and is not selected after it.
pub proof fn law_removed_is_previous_minus_current(prev: Seq<u64>, cur: Seq<u64>, x: u64)
    ensures
        minus(prev, cur).contains(x) <==> (prev.contains(x) && !cur.contains(x)),
{
    lemma_minus(prev, cur);
}

/// The entities marked as selected follow the selection: when the marked
/// entities were those selected before a change, marking the event's current
/// entities and unmarking its removed ones leaves marked exactly those
/// selected after it.
pub proof fn law_markers_follow_selection(prev: Seq<u64>, cur: Seq<u64>)
    ensures
        prev.to_set().union(cur.to_set()).difference(minus(prev, cur).to_set()) == cur.to_set(),
{
    lemma_minus(prev, cur);
    assert(prev.to_set().union(cur.to_set()).difference(minus(prev, cur).to_set()) =~= cur.to_set());
}

/// A click with or without `Ctrl` is a click in `Add` or `Replace` mode that
/// extends nothing: whatever the extension would give, the selection and the
/// remembered click come out as `select_maybe_add` states.
pub proof fn law_maybe_add_is_select_without_extension(
    s: Seq<u64>,
    anchor: Option<(SelectionMode, u64)>,
    entity: u64,
    add: bool,
    ext: Seq<u64>,
)
    ensures
        !extends_from_anchor(s, anchor, click_mode(add)),
        selected_after(s, anchor, click_mode(add), entity, ext) == selected_after_click(s, entity, add),
        anchor_after(s, anchor, click_mode(add), entity) == Some((click_mode(add), entity)),
{
}

/// What a click selects, entity by entity: the clicked entity alone on an
/// empty selection or without modifiers; with `Ctrl`, the selection with the
/// clicked entity toggled; with `Shift` and no earlier click, the selection
/// plus the clicked entity; with `Shift` after a plain or `Ctrl` click,
/// exactly the extension's entities, whatever was selected before; with
/// `Shift` after a `Shift` click, the selection plus the extension's
/// entities. A `Shift` click after an earlier click keeps that earlier click
/// as the anchor; every other click becomes the anchor.
pub proof fn law_click_effects(
    s: Seq<u64>,
    anchor: Option<(SelectionMode, u64)>,
    mode: SelectionMode,
    entity: u64,
    ext: Seq<u64>,
)
    requires
        s.no_duplicates(),
    ensures
        s.len() == 0 || mode == SelectionMode::Replace ==> selected_after(s, anchor, mode, entity, ext)
            == seq![entity],
        s.len() > 0 && mode == SelectionMode::Add ==> forall|x: u64|
            #[trigger] selected_after(s, anchor, mode, entity, ext).contains(x) <==> (s.contains(x) != (x
                == entity)),
        s.len() > 0 && mode == SelectionMode::Extend && anchor is None ==> forall|x: u64|
            #[trigger] selected_after(s, anchor, mode, entity, ext).contains(x) <==> (s.contains(x) || x
                == entity),
        s.len() > 0 && mode == SelectionMode::Extend && anchor is Some ==> forall|x: u64|
            #[trigger] selected_after(s, anchor, mode, entity, ext).contains(x) <==> (((anchor->0).0
                == SelectionMode::Extend && s.contains(x)) || ext.contains(x)),
        anchor_after(s, anchor, mode, entity) == (if s.len() > 0 && mode == SelectionMode::Extend
            && anchor is Some {
            anchor
        } else {
            Some((mode, entity))
        }),
{
    if s.len() > 0 {
        match mode {
            SelectionMode::Add => {
                lemma_without(s, entity);
                lemma_push_contains(s, entity);
            },
            SelectionMode::Extend => {
                match anchor {
                    None => {
                        lemma_insert_one(s, entity);
                    },
                    Some((m, a)) => {
                        law_extension_selects_union(extend_base(s, m), ext);
                    },
                }
            },
            _ => {},
        }
    }
}

/// Two `Ctrl` clicks on the same entity leave the same set of entities
/// selected; when the entity was not selected at first, they leave the
/// selection exactly as it was.
pub proof fn law_toggle_twice(s: Seq<u64>, e: u64)
    requires
        s.no_duplicates(),
    ensures
        toggle(toggle(s, e), e).to_set() == s.to_set(),
        !s.contains(e) ==> toggle(toggle(s, e), e) == s,
{
    if s.contains(e) {
        lemma_without(s, e);
        let w = without(s, e);
        assert(!w.contains(e));
        assert(toggle(w, e) == w.push(e));
        assert forall|x: u64| toggle(w, e).to_set().contains(x) == s.to_set().contains(x) by {
            if w.push(e).contains(x) {
                let k = choose|k: int| 0 <= k < w.push(e).len() && w.push(e)[k] == x;
                if k < w.len() {
                    assert(w[k] == x);
                }
            }
            if w.contains(x) {
                let k = choose|k: int| 0 <= k < w.len() && w[k] == x;
                assert(w.push(e)[k] == x);
            }
            if x == e {
                assert(w.push(e)[w.len() as int] == x);
            }
        }
        assert(toggle(toggle(s, e), e).to_set() =~= s.to_set());
    } else {
        let p = s.push(e);
        assert(p.contains(e)) by {
            assert(p[s.len() as int] == e);
        }
        lemma_without(p, e);
        assert(p.drop_last() =~= s);
        lemma_without(s, e);
        assert(without(p, e) == without(s, e));
        assert(toggle(toggle(s, e), e) == s);
    }
}

/// The range that a `Shift` click selects contains both of its ends when
/// both are found on the level.
pub proof fn law_range_contains_ends(level: Seq<u64>, from: u64, to: u64)
    requires
        level.contains(from),
        level.contains(to),
    ensures
        range_between(level, from, to).contains(from),
        range_between(level, from, to).contains(to),
{
    lemma_last_position(level, from);
    lemma_last_position(level, to);
    let a = last_position(level, from);
    let b = last_position(level, to);
    let r = range_between(level, from, to);
    if a < b {
        assert(r[0] == from);
        assert(r[b - a] == to);
    } else {
        assert(r[a - b] == from);
        assert(r[0] == to);
    }
}

/// A `Shift` range is empty when either end is missing from the level, and
/// otherwise is the contiguous run of the level from one end to the other,
/// both included.
pub proof fn law_range_between_ends(level: Seq<u64>, from: u64, to: u64)
    ensures
        !level.contains(from) || !level.contains(to) ==> range_between(level, from, to).len() == 0,
        level.contains(from) && level.contains(to) ==> {
            &&& range_between(level, from, to).contains(from)
            &&& range_between(level, from, to).contains(to)
            &&& exists|a: int, b: int|
                0 <= a <= b < level.len() && range_between(level, from, to) == level.subrange(a, b + 1)
                    && ((level[a] == from && level[b] == to) || (level[a] == to && level[b] == from))
        },
{
    lemma_last_position(level, from);
    lemma_last_position(level, to);
    if level.contains(from) && level.contains(to) {
        law_range_contains_ends(level, from, to);
        let a = last_position(level, from);
        let b = last_position(level, to);
        if a < b {
            assert(level[a] == from && level[b] == to);
        } else {
            assert(level[b] == to && level[a] == from);
        }
    }
}

/// `last_position` finds an occurrence exactly when there is one.
pub proof fn lemma_last_position(s: Seq<u64>, x: u64)
    ensures
        -1 <= last_position(s, x) < s.len(),
        last_position(s, x) >= 0 ==> s[last_position(s, x)] == x,
        s.contains(x) <==> last_position(s, x) >= 0,
    decreases s.len(),
{
    if s.len() > 0 {
        lemma_last_position(s.drop_last(), x);
        if s.last() != x && s.contains(x) {
            let k = choose|k: int| 0 <= k < s.len() && s[k] == x;
            assert(s.drop_last()[k] == x);
        }
        if last_position(s, x) >= 0 {
            assert(s[last_position(s, x)] == x);
        }
    }
}

/// The ids from `from` to `to` among `at_same_level`, both ends included,
/// whichever comes first; empty when either is missing. Where an id occurs
/// more than once its last occurrence counts.
pub fn extend_range(at_same_level: &[u64], from: u64, to: u64) -> (range: Vec<u64>)
    ensures
        range@ == range_between(at_same_level@, from, to),
        !at_same_level@.contains(from) || !at_same_level@.contains(to) ==> range@.len() == 0,
        at_same_level@.contains(from) && at_same_level@.contains(to) ==> {
            &&& range@.contains(from)
            &&& range@.contains(to)
            &&& exists|a: int, b: int|
                0 <= a <= b < at_same_level@.len() && range@ == at_same_level@.subrange(a, b + 1) && ((
                at_same_level@[a] == from && at_same_level@[b] == to) || (at_same_level@[a] == to
                && at_same_level@[b] == from))
        },
{
    proof {
        law_range_between_ends(at_same_level@, from, to);
    }
    let mut from_position: Option<usize> = None;
    let mut to_position: Option<usize> = None;
    let mut i: usize = 0;
    while i < at_same_level.len()
        invariant
            i <= at_same_level@.len(),
            match from_position {
                Some(p) => p as int == last_position(at_same_level@.take(i as int), from) && p
                    >= 0,
                None => last_position(at_same_level@.take(i as int), from) == -1,
            },
            match to_position {
                Some(p) => p as int == last_position(at_same_level@.take(i as int), to) && p >= 0,
                None => last_position(at_same_level@.take(i as int), to) == -1,
            },
        decreases at_same_level@.len() - i,
    {
        let entity = at_same_level[i];
        assert(at_same_level@.take(i + 1).drop_last() =~= at_same_level@.take(i as int));
        if entity == from {
            from_position = Some(i);
        }
        if entity == to {
            to_position = Some(i);
        }
        i = i + 1;
    }
    assert(at_same_level@.take(i as int) =~= at_same_level@);
    proof {
        lemma_last_position(at_same_level@, from);
        lemma_last_position(at_same_level@, to);
    }
    let mut range: Vec<u64> = Vec::new();
    match (from_position, to_position) {
        (Some(a), Some(b)) => {
            let (min, max) = if a < b {
                (a, b)
            } else {
                (b, a)
            };
            let mut k: usize = min;
            while k <= max
                invariant
                    min <= k <= max + 1,
                    max < at_same_level@.len(),
                    range@ =~= at_same_level@.subrange(min as int, k as int),
                decreases max + 1 - k,
            {
                range.push(at_same_level[k]);
                k = k + 1;
            }
        },
        _ => {},
    }
    range
}

// ---------------------------------------------------------------------------

/// What a change of selection reports: the entities selected now, and the
/// entities that were selected before and no longer are.
pub struct SelectedEntitiesChangedEvent {
    current: EntityList,
    removed: EntityList,
}

impl SelectedEntitiesChangedEvent {
    pub closed spec fn current_spec(&self) -> Seq<u64> {
        entity_list_items(self.current)
    }

    pub closed spec fn removed_spec(&self) -> Seq<u64> {
        entity_list_items(self.removed)
    }

    pub fn new(current: Vec<u64>, removed: Vec<u64>) -> (event: Self)
        ensures
            event.current_spec() == current@,
            event.removed_spec() == removed@,
    {
        SelectedEntitiesChangedEvent {
            current: entity_list_from_vec(current),
            removed: entity_list_from_vec(removed),
        }
    }

    /// The entities selected after the change, in selection order.
    pub fn current(&self) -> (ids: Vec<u64>)
        ensures
            ids@ == self.current_spec(),
    {
        entity_list_to_vec(&self.current)
    }

    /// The entities no longer selected after the change.
    pub fn removed(&self) -> (ids: Vec<u64>)
        ensures
            ids@ == self.removed_spec(),
    {
        entity_list_to_vec(&self.removed)
    }
}

/// The selected entities, in the order they were selected, each at most once.
#[derive(Debug)]
pub struct SelectedEntities {
    entities: Vec<u64>,
    last_action: Option<(SelectionMode, u64)>,
}

impl View for SelectedEntities {
    type V = Seq<u64>;

    closed spec fn view(&self) -> Seq<u64> {
        self.entities@
    }
}

impl Default for SelectedEntities {
    fn default() -> (s: Self)
        ensures
            s@ == Seq::<u64>::empty(),
            s.last_action_spec() is None,
    {
        SelectedEntities { entities: Vec::new(), last_action: None }
    }
}

impl SelectedEntities {
    #[verifier::type_invariant]
    spec fn inv(self) -> bool {
        self.entities@.no_duplicates()
    }

    /// The mode and entity of the last click that was not an extension.
    pub closed spec fn last_action_spec(&self) -> Option<(SelectionMode, u64)> {
        self.last_action
    }

    pub fn contains(&self, entity: u64) -> (res: bool)
        ensures
            res == self@.contains(entity),
            self@.no_duplicates(),
    {
        proof {
            use_type_invariant(self);
        }
        let mut i: usize = 0;
        while i < self.entities.len()
            invariant
                i <= self.entities@.len(),
                self.entities@.no_duplicates(),
                forall|k: int| 0 <= k < i ==> self.entities@[k] != entity,
            decreases self.entities@.len() - i,
        {
            if self.entities[i] == entity {
                return true;
            }
            i = i + 1;
        }
        false
    }

    pub fn len(&self) -> (n: usize)
        ensures
            n == self@.len(),
            self@.no_duplicates(),
    {
        proof {
            use_type_invariant(self);
        }
        self.entities.len()
    }

    pub fn is_empty(&self) -> (res: bool)
        ensures
            res == (self@.len() == 0),
            self@.no_duplicates(),
    {
        proof {
            use_type_invariant(self);
        }
        self.entities.len() == 0
    }

    /// The selected ids, in selection order.
    pub fn iter(&self) -> (ids: Vec<u64>)
        ensures
            ids@ == self@,
            ids@.no_duplicates(),
    {
        proof {
            use_type_invariant(self);
        }
        let mut ids: Vec<u64> = Vec::new();
        let mut i: usize = 0;
        while i < self.entities.len()
            invariant
                i <= self.entities@.len(),
                ids@ =~= self.entities@.take(i as int),
            decreases self.entities@.len() - i,
        {
            ids.push(self.entities[i]);
            i = i + 1;
        }
        ids
    }

    pub fn as_slice(&self) -> (ids: &[u64])
        ensures
            ids@ == self@,
            ids@.no_duplicates(),
    {
        proof {
            use_type_invariant(self);
        }
        self.entities.as_slice()
    }

    pub fn last_action(&self) -> (last: Option<(SelectionMode, u64)>)
        ensures
            last == self.last_action_spec(),
    {
        self.last_action
    }

    /// The event that compares `previous` with the selection now.
    fn change_since(&self, previous: &Vec<u64>) -> (event: SelectedEntitiesChangedEvent)
        ensures
            event.current_spec() == self@,
            event.removed_spec() == minus(previous@, self@),
    {
        let current = self.iter();
        let mut removed: Vec<u64> = Vec::new();
        let mut i: usize = 0;
        while i < previous.len()
            invariant
                i <= previous@.len(),
                removed@ == minus(previous@.take(i as int), self@),
            decreases previous@.len() - i,
        {
            let e = previous[i];
            assert(previous@.take(i + 1).drop_last() =~= previous@.take(i as int));
            if !self.contains(e) {
                removed.push(e);
            }
            i = i + 1;
        }
        assert(previous@.take(i as int) =~= previous@);
        SelectedEntitiesChangedEvent::new(current, removed)
    }

    fn insert(&mut self, entity: u64)
        ensures
            final(self)@ == insert_one(old(self)@, entity),
            final(self).last_action_spec() == old(self).last_action_spec(),
    {
        proof {
            use_type_invariant(&*self);
            lemma_insert_one(self.entities@, entity);
        }
        if !self.contains(entity) {
            let mut entities = self.take_entities();
            entities.push(entity);
            self.entities = entities;
        }
    }

    /// Moves the ids out, leaving the selection empty.
    fn take_entities(&mut self) -> (entities: Vec<u64>)
        ensures
            entities@ == old(self)@,
            final(self)@ == Seq::<u64>::empty(),
            final(self).last_action_spec() == old(self).last_action_spec(),
    {
        let mut entities: Vec<u64> = Vec::new();
        std::mem::swap(&mut entities, &mut self.entities);
        entities
    }

    fn insert_replace(&mut self, entity: u64)
        ensures
            final(self)@ == seq![entity],
            final(self).last_action_spec() == old(self).last_action_spec(),
    {
        let mut entities: Vec<u64> = Vec::new();
        entities.push(entity);
        self.entities = entities;
    }

    fn clear(&mut self)
        ensures
            final(self)@ == Seq::<u64>::empty(),
            final(self).last_action_spec() == old(self).last_action_spec(),
    {
        self.entities = Vec::new();
    }

    /// Takes `entity` out of the selection, keeping the others in order.
    fn remove_entity(&mut self, entity: u64)
        ensures
            final(self)@ == without(old(self)@, entity),
            final(self).last_action_spec() == old(self).last_action_spec(),
    {
        proof {
            use_type_invariant(&*self);
        }
        let mut kept: Vec<u64> = Vec::new();
        let mut i: usize = 0;
        while i < self.entities.len()
            invariant
                i <= self.entities@.len(),
                kept@ == without(self.entities@.take(i as int), entity),
            decreases self.entities@.len() - i,
        {
            let e = self.entities[i];
            assert(self.entities@.take(i + 1).drop_last() =~= self.entities@.take(i as int));
            if e != entity {
                kept.push(e);
            }
            i = i + 1;
        }
        assert(self.entities@.take(i as int) =~= self.entities@);
        proof {
            lemma_without(self.entities@, entity);
        }
        self.entities = kept;
    }

    /// Inserts each of `ids` in turn.
    fn insert_each(&mut self, ids: &Vec<u64>)
        ensures
            final(self)@ == insert_all(old(self)@, ids@),
            final(self).last_action_spec() == old(self).last_action_spec(),
    {
        let mut i: usize = 0;
        while i < ids.len()
            invariant
                i <= ids@.len(),
                self@ == insert_all(old(self)@, ids@.take(i as int)),
                self.last_action_spec() == old(self).last_action_spec(),
            decreases ids@.len() - i,
        {
            assert(ids@.take(i + 1).drop_last() =~= ids@.take(i as int));
            self.insert(ids[i]);
            i = i + 1;
        }
        assert(ids@.take(i as int) =~= ids@);
    }

    /// Selects `entity` alone.
    pub fn select_replace(&mut self, entity: u64) -> (event: SelectedEntitiesChangedEvent)
        ensures
            final(self)@ == seq![entity],
            final(self).last_action_spec() == Some((SelectionMode::Replace, entity)),
            event.current_spec() == seq![entity],
            event.removed_spec() == minus(old(self)@, seq![entity]),
            forall|x: u64| #[trigger] event.removed_spec().contains(x) <==> (old(self)@.contains(x) && x != entity),
            event.removed_spec().no_duplicates(),
    {
        let previous = self.iter();
        proof {
            lemma_minus(previous@, seq![entity]);
            assert forall|x: u64| seq![entity].contains(x) <==> x == entity by {
                if x == entity {
                    assert(seq![entity][0] == x);
                }
            }
        }
        self.insert_replace(entity);
        self.last_action = Some((SelectionMode::Replace, entity));
        self.change_since(&previous)
    }

    /// Selects `entity`, adding to (toggling in) the selection when `add`,
    /// else replacing it.
    pub fn select_maybe_add(&mut self, entity: u64, add: bool) -> (event:
        SelectedEntitiesChangedEvent)
        ensures
            final(self)@ == selected_after_click(old(self)@, entity, add),
            old(self)@.len() == 0 || !add ==> final(self)@ == seq![entity],
            old(self)@.len() > 0 && add ==> forall|x: u64|
                #[trigger] final(self)@.contains(x) <==> (old(self)@.contains(x) != (x == entity)),
            final(self).last_action_spec() == Some((if add { SelectionMode::Add } else { SelectionMode::Replace }, entity)),
            forall|x: u64| #[trigger] event.removed_spec().contains(x) <==> (old(self)@.contains(x) && !final(self)@.contains(x)),
            final(self).last_action_spec() == Some((click_mode(add), entity)),
            final(self)@.no_duplicates(),
            event.current_spec() == final(self)@,
            event.removed_spec() == minus(old(self)@, final(self)@),
            event.removed_spec().no_duplicates(),
    {
        let mode = match add {
            true => SelectionMode::Add,
            false => SelectionMode::Replace,
        };
        let no_extension = |from: u64, to: u64| -> (r: Vec<u64>)
            ensures
                r@.len() == 0,
            { Vec::new() };
        let event = self.select(mode, entity, no_extension);
        proof {
            use_type_invariant(&*self);
        }
        event
    }

    /// Applies a click on `entity` with the given mode.
    ///
    /// - On an empty selection the entity becomes the selection.
    /// - `Replace` selects the entity alone.
    /// - `Add` toggles the entity.
    /// - `Extend` without an earlier click inserts the entity; after an
    ///   earlier click on `last`, inserts `extend_with(entity, last)`, first
    ///   dropping the selection when that earlier click was not itself an
    ///   extension, and keeps `last` as the last action.
    pub fn select<F: Fn(u64, u64) -> Vec<u64>>(
        &mut self,
        mode: SelectionMode,
        entity: u64,
        extend_with: F,
    ) -> (event: SelectedEntitiesChangedEvent)
        requires
            forall|a: u64, b: u64| extend_with.requires((a, b)),
        ensures
            !extends_from_anchor(old(self)@, old(self).last_action_spec(), mode) ==> final(self)@
                == selected_after(
                old(self)@,
                old(self).last_action_spec(),
                mode,
                entity,
                Seq::<u64>::empty(),
            ),
            extends_from_anchor(old(self)@, old(self).last_action_spec(), mode) ==> exists|ext: Vec<u64>|
                #[trigger] extend_with.ensures((entity, (old(self).last_action_spec()->0).1), ext)
                    && final(self)@ == selected_after(
                    old(self)@,
                    old(self).last_action_spec(),
                    mode,
                    entity,
                    ext@,
                ),
            final(self).last_action_spec() == anchor_after(old(self)@, old(self).last_action_spec(), mode, entity),
            old(self)@.len() == 0 || mode == SelectionMode::Replace ==> final(self)@ == seq![entity],
            old(self)@.len() > 0 && mode == SelectionMode::Add ==> forall|x: u64|
                #[trigger] final(self)@.contains(x) <==> (old(self)@.contains(x) != (x == entity)),
            old(self)@.len() > 0 && mode == SelectionMode::Extend && old(self).last_action_spec() is None
                ==> forall|x: u64| #[trigger] final(self)@.contains(x) <==> (old(self)@.contains(x) || x == entity),
            old(self)@.len() > 0 && mode == SelectionMode::Extend && old(self).last_action_spec() is Some
                ==> exists|ext: Vec<u64>|
                #[trigger] extend_with.ensures((entity, (old(self).last_action_spec()->0).1), ext) && forall|x: u64|
                    #[trigger] final(self)@.contains(x) <==> (((old(self).last_action_spec()->0).0
                        == SelectionMode::Extend && old(self)@.contains(x)) || ext@.contains(x)),
            final(self).last_action_spec() == (if old(self)@.len() > 0 && mode == SelectionMode::Extend
                && old(self).last_action_spec() is Some {
                old(self).last_action_spec()
            } else {
                Some((mode, entity))
            }),
            final(self)@.no_duplicates(),
            event.current_spec() == final(self)@,
            event.removed_spec() == minus(old(self)@, final(self)@),
            forall|x: u64| #[trigger] event.removed_spec().contains(x) <==> (old(self)@.contains(x) && !final(self)@.contains(x)),
            event.removed_spec().no_duplicates(),
    {
        let previous = self.iter();
        if self.entities.len() == 0 {
            self.insert(entity);
            proof {
                use_type_invariant(&*self);
            }
            self.last_action = Some((mode, entity));
        } else {
            match mode {
                SelectionMode::Replace => {
                    self.insert_replace(entity);
                    proof {
                        use_type_invariant(&*self);
                    }
                    self.last_action = Some((mode, entity));
                },
                SelectionMode::Add => {
                    if self.contains(entity) {
                        self.remove_entity(entity);
                    } else {
                        proof {
                            use_type_invariant(&*self);
                            lemma_insert_one(self.entities@, entity);
                        }
                        let mut entities = self.take_entities();
                        entities.push(entity);
                        self.entities = entities;
                    }
                    proof {
                        use_type_invariant(&*self);
                    }
                    self.last_action = Some((mode, entity));
                },
                SelectionMode::Extend => {
                    match self.last_action {
                        None => {
                            self.insert(entity);
                            proof {
                                use_type_invariant(&*self);
                            }
                            self.last_action = Some((mode, entity));
                        },
                        Some((last_mode, last_entity)) => {
                            match last_mode {
                                SelectionMode::Add | SelectionMode::Replace => {
                                    self.clear();
                                },
                                SelectionMode::Extend => {},
                            }
                            let ext = extend_with(entity, last_entity);
                            self.insert_each(&ext);
                            assert(extend_with.ensures((entity, last_entity), ext) && self@
                                == selected_after(
                                old(self)@,
                                old(self).last_action_spec(),
                                mode,
                                entity,
                                ext@,
                            ));
                            proof {
                                use_type_invariant(&*self);
                                law_click_effects(old(self)@, old(self).last_action_spec(), mode, entity, ext@);
                            }
                            assert(extend_with.ensures((entity, last_entity), ext) && forall|x: u64|
                                #[trigger] self@.contains(x) <==> ((last_mode == SelectionMode::Extend
                                    && old(self)@.contains(x)) || ext@.contains(x)));
                        },
                    }
                },
            }
        }
        proof {
            use_type_invariant(&*self);
            lemma_minus(previous@, self@);
            law_click_effects(previous@, old(self).last_action_spec(), mode, entity, Seq::<u64>::empty());
            if !extends_from_anchor(old(self)@, old(self).last_action_spec(), mode) {
                let after = selected_after(old(self)@, old(self).last_action_spec(), mode, entity, Seq::<u64>::empty());
                assert(self@ == after);
                assert forall|x: u64| #[trigger] self@.contains(x) == after.contains(x) by {}
            }
        }
        self.change_since(&previous)
    }

    /// Drops the whole selection.
    pub fn scoped_clear(&mut self) -> (event: SelectedEntitiesChangedEvent)
        ensures
            final(self)@ == Seq::<u64>::empty(),
            final(self).last_action_spec() == old(self).last_action_spec(),
            event.current_spec() == Seq::<u64>::empty(),
            event.removed_spec() == old(self)@,
            event.removed_spec().no_duplicates(),
    {
        let previous = self.iter();
        self.clear();
        proof {
            lemma_minus_empty(previous@);
        }
        self.change_since(&previous)
    }
}

/// What the inspector shows: some entities, a resource or an asset. The
/// resource and asset descriptions are carried as given.
#[derive(Debug)]
pub enum InspectorSelection<R, A> {
    Entities(SelectedEntities),
    Resource(R),
    Asset(A),
}

impl<R, A> Default for InspectorSelection<R, A> {
    fn default() -> (s: Self)
        ensures
            s matches InspectorSelection::Entities(e) && e@ == Seq::<u64>::empty(),
    {
        InspectorSelection::Entities(SelectedEntities::default())
    }
}

impl<R, A> InspectorSelection<R, A> {
    /// A click on `entity`: toggles it into the selected entities when `add`,
    /// else selects it alone. When a resource or asset was shown, the entity
    /// becomes the only selection.
    pub fn add_selected(&mut self, entity: u64, add: bool) -> (event: SelectedEntitiesChangedEvent)
        ensures
            *final(self) matches InspectorSelection::Entities(now) && event.current_spec() == now@,
            *old(self) matches InspectorSelection::Entities(before) ==> {
                &&& *final(self) matches InspectorSelection::Entities(now)
                &&& now@ == selected_after_click(before@, entity, add)
                &&& now.last_action_spec() == Some((click_mode(add), entity))
                &&& event.removed_spec() == minus(before@, now@)
            },
            !(*old(self) is Entities) ==> {
                &&& *final(self) matches InspectorSelection::Entities(now)
                &&& now@ == seq![entity]
                &&& now.last_action_spec() == Some((SelectionMode::Replace, entity))
                &&& event.removed_spec() == Seq::<u64>::empty()
            },
    {
        match self {
            InspectorSelection::Entities(selected_entities) => {
                selected_entities.select_maybe_add(entity, add)
            },
            _ => {
                let mut selected_entities = SelectedEntities::default();
                let event = selected_entities.select_replace(entity);
                *self = InspectorSelection::Entities(selected_entities);
                event
            },
        }
    }

    /// Puts the selected entities under `parent`, which then becomes the only
    /// selection. Returns the entities to move and the event to send; the
    /// event is that of selecting `parent` in an empty selection, so it names
    /// no removed entity. When no entities were shown, nothing happens.
    pub fn reparent_selected(&mut self, parent: u64) -> (moved: Option<(Vec<u64>, SelectedEntitiesChangedEvent)>)
        ensures
            *old(self) matches InspectorSelection::Entities(before) ==> {
                &&& moved matches Some((children, event)) && children@ == before@
                    && event.current_spec() == seq![parent]
                    && event.removed_spec() == Seq::<u64>::empty()
                &&& *final(self) matches InspectorSelection::Entities(now) && now@ == seq![parent]
                    && now.last_action_spec() == Some((SelectionMode::Replace, parent))
            },
            !(*old(self) is Entities) ==> moved is None && *final(self) == *old(self),
    {
        match self {
            InspectorSelection::Entities(selected) => {
                let children = selected.iter();
                let mut entities = SelectedEntities::default();
                let event = entities.select_replace(parent);
                assert(minus(Seq::<u64>::empty(), seq![parent]) =~= Seq::<u64>::empty());
                *self = InspectorSelection::Entities(entities);
                Some((children, event))
            },
            _ => None,
        }
    }

    /// Clears the selected entities, and returns the event to send; when no
    /// entities were shown, nothing happens.
    pub fn clear_selected(&mut self) -> (event: Option<SelectedEntitiesChangedEvent>)
        ensures
            *old(self) matches InspectorSelection::Entities(before) ==> {
                &&& event matches Some(e) && e.current_spec() == Seq::<u64>::empty()
                    && e.removed_spec() == before@
                &&& *final(self) matches InspectorSelection::Entities(now) && now@ == Seq::<u64>::empty()
                    && now.last_action_spec() == before.last_action_spec()
            },
            !(*old(self) is Entities) ==> event is None && *final(self) == *old(self),
    {
        match self {
            InspectorSelection::Entities(selected) => {
                Some(selected.scoped_clear())
            },
            _ => None,
        }
    }
}

} // verus!
