//! Editing lists and sets in the inspector: the buttons beside each element,
//! and what a click on them does to one or more collections edited together.
use vstd::prelude::*;

verus! {

/// An edit of a list, at the given element.
#[derive(Debug, Clone, Copy, PartialEq, Eq, Structural)]
pub enum ListOp {
    AddElement(usize),
    RemoveElement(usize),
    MoveElementUp(usize),
    MoveElementDown(usize),
}

/// Which of the four buttons beside an element were clicked.
#[derive(Debug, Clone, Copy, PartialEq, Eq, Structural)]
pub struct ListControlClicks {
    pub add: bool,
    pub remove: bool,
    pub up: bool,
    pub down: bool,
}

/// Whether the element at `index` can move up.
pub fn move_up_enabled(index: usize) -> (enabled: bool)
    ensures
        enabled == (index > 0),
{
    index > 0
}

/// Whether the element at `index` of a list of `len` can move down.
pub fn move_down_enabled(index: usize, len: usize) -> (enabled: bool)
    ensures
        enabled == (len > 0 && index < len - 1),
{
    match len.checked_sub(1) {
        Some(l) => index < l,
        None => false,
    }
}

/// The edit that the clicks beside element `index` ask for: the last clicked
/// of add, remove, up and down, where a disabled button does not count.
pub open spec fn control_op_spec(index: usize, len: usize, clicks: ListControlClicks) -> Option<ListOp> {
    if clicks.down && len > 0 && index < len - 1 {
        Some(ListOp::MoveElementDown(index))
    } else if clicks.up && index > 0 {
        Some(ListOp::MoveElementUp(index))
    } else if clicks.remove {
        Some(ListOp::RemoveElement(index))
    } else if clicks.add {
        Some(ListOp::AddElement(index))
    } else {
        None
    }
}

/// The edit asked for by the buttons beside element `index` of a list of
/// `len` elements.
pub fn ui_for_list_controls(index: usize, len: usize, clicks: ListControlClicks) -> (op: Option<ListOp>)
    ensures
        op == control_op_spec(index, len, clicks),
        op is None <==> !(clicks.add || clicks.remove || (clicks.up && index > 0) || (clicks.down && len > 0
            && index < len - 1)),
        clicks.down && len > 0 && index < len - 1 ==> op == Some(ListOp::MoveElementDown(index)),
        op matches Some(o) ==> (o == ListOp::AddElement(index) || o == ListOp::RemoveElement(index)
            || o == ListOp::MoveElementUp(index) || o == ListOp::MoveElementDown(index)),
{
    let mut op = None;
    if clicks.add {
        op = Some(ListOp::AddElement(index));
    }
    if clicks.remove {
        op = Some(ListOp::RemoveElement(index));
    }
    if move_up_enabled(index) && clicks.up {
        op = Some(ListOp::MoveElementUp(index));
    }
    if move_down_enabled(index, len) && clicks.down {
        op = Some(ListOp::MoveElementDown(index));
    }
    op
}

/// What an edit and its outcome report: whether some list changed, and
/// whether an element could not be added for want of a value.
#[derive(Debug, Clone, Copy, PartialEq, Eq, Structural)]
pub struct ListOpOutcome {
    pub changed: bool,
    pub missing_value: bool,
}

/// The value that `AddElement(i)` inserts: the default value of the element
/// type, else a copy of the element at `i`.
pub open spec fn added_value<T>(l: Seq<T>, i: int, default: Option<T>) -> Option<T> {
    match default {
        Some(v) => Some(v),
        None => if 0 <= i < l.len() {
            Some(l[i])
        } else {
            None
        },
    }
}

/// Whether the edit is an addition that finds no value to add.
pub open spec fn adds_nothing<T>(l: Seq<T>, op: ListOp, default: Option<T>) -> bool {
    match op {
        ListOp::AddElement(i) => added_value(l, i as int, default) is None,
        _ => false,
    }
}

/// Whether an edit can be made to a list without going out of its bounds.
pub open spec fn op_in_bounds<T>(l: Seq<T>, op: ListOp, default: Option<T>) -> bool {
    match op {
        ListOp::AddElement(i) => default is Some ==> i <= l.len(),
        ListOp::RemoveElement(i) => i < l.len(),
        ListOp::MoveElementUp(i) => i == 0 || i < l.len(),
        ListOp::MoveElementDown(i) => i + 1 < l.len(),
    }
}

/// The list after an edit.
pub open spec fn list_after<T>(l: Seq<T>, op: ListOp, default: Option<T>) -> Seq<T> {
    match op {
        ListOp::AddElement(i) => match added_value(l, i as int, default) {
            Some(v) => l.insert(i as int, v),
            None => l,
        },
        ListOp::RemoveElement(i) => l.remove(i as int),
        ListOp::MoveElementUp(i) => if i == 0 {
            l
        } else {
            l.update(i - 1, l[i as int]).update(i as int, l[i - 1])
        },
        ListOp::MoveElementDown(i) => l.update(i as int, l[i + 1]).update(i + 1, l[i as int]),
    }
}

/// Applies an edit to one list; returns whether an element could not be
/// added for want of a value.
fn apply_list_op<T: Copy>(list: &mut Vec<T>, op: ListOp, default: Option<T>) -> (missing: bool)
    requires
        op_in_bounds(old(list)@, op, default),
    ensures
        final(list)@ == list_after(old(list)@, op, default),
        missing == adds_nothing(old(list)@, op, default),
{
    match op {
        ListOp::AddElement(i) => {
            let value = match default {
                Some(v) => Some(v),
                None => if i < list.len() {
                    Some(list[i])
                } else {
                    None
                },
            };
            match value {
                Some(v) => {
                    list.insert(i, v);
                    false
                },
                None => true,
            }
        },
        ListOp::RemoveElement(i) => {
            list.remove(i);
            false
        },
        ListOp::MoveElementUp(i) => {
            let len = list.len();
            if i > 0 {
                let ghost before = list@;
                let element = list[i];
                list.insert(i - 1, element);
                list.remove(i + 1);
                assert(list@ =~= before.update(i - 1, before[i as int]).update(
                    i as int,
                    before[i - 1],
                ));
            }
            false
        },
        ListOp::MoveElementDown(i) => {
            let ghost before = list@;
            let len = list.len();
            assert(i + 1 < len);
            let next = list[i + 1];
            list.insert(i, next);
            list.remove(i + 2);
            assert(list@ =~= before.update(i as int, before[i + 1]).update(
                i + 1,
                before[i as int],
            ));
            false
        },
    }
}

/// Whether an edit counts as a change.
pub open spec fn op_changes(op: ListOp) -> bool {
    match op {
        ListOp::MoveElementUp(i) => i > 0,
        _ => true,
    }
}

/// Applies one edit to each of several lists edited together.
pub fn respond_to_list_op<T: Copy>(lists: &mut Vec<Vec<T>>, op: ListOp, default: Option<T>) -> (outcome: ListOpOutcome)
    requires
        forall|k: int| 0 <= k < old(lists)@.len() ==> op_in_bounds(#[trigger] old(lists)@[k]@, op, default),
    ensures
        final(lists)@.len() == old(lists)@.len(),
        forall|k: int|
            0 <= k < old(lists)@.len() ==> #[trigger] final(lists)@[k]@ == list_after(
                old(lists)@[k]@,
                op,
                default,
            ),
        outcome.changed == (old(lists)@.len() > 0 && op_changes(op)),
        outcome.missing_value == exists|k: int|
            0 <= k < old(lists)@.len() && #[trigger] adds_nothing(old(lists)@[k]@, op, default),
        outcome.changed == (old(lists)@.len() > 0 && op != ListOp::MoveElementUp(0)),
        (exists|k: int| 0 <= k < old(lists)@.len() && #[trigger] final(lists)@[k]@ != old(lists)@[k]@)
            ==> outcome.changed,
        outcome.missing_value == (match op {
            ListOp::AddElement(i) => default is None && exists|k: int|
                0 <= k < old(lists)@.len() && i >= (#[trigger] old(lists)@[k])@.len(),
            _ => false,
        }),
{
    let ghost given = lists@;
    let mut pending: Vec<Vec<T>> = Vec::new();
    std::mem::swap(&mut pending, lists);
    let mut done: Vec<Vec<T>> = Vec::new();
    let mut changed = false;
    let mut missing_value = false;
    let n = pending.len();
    let mut i: usize = 0;
    while i < n
        invariant
            n == given.len(),
            i <= n,
            pending@.len() == n - i,
            done@.len() == i,
            forall|k: int| 0 <= k < pending@.len() ==> #[trigger] pending@[k] == given[i + k],
            forall|k: int| 0 <= k < n ==> op_in_bounds(#[trigger] given[k]@, op, default),
            forall|k: int|
                0 <= k < i ==> #[trigger] done@[k]@ == list_after(given[k]@, op, default),
            changed == (i > 0 && op_changes(op)),
            missing_value == exists|k: int|
                0 <= k < i && #[trigger] adds_nothing(given[k]@, op, default),
        decreases n - i,
    {
        let mut list = pending.remove(0);
        assert(list == given[i as int]);
        let missing = apply_list_op(&mut list, op, default);
        if missing {
            missing_value = true;
        }
        match op {
            ListOp::MoveElementUp(j) => {
                if j > 0 {
                    changed = true;
                }
            },
            _ => {
                changed = true;
            },
        }
        done.push(list);
        proof {
            assert forall|k: int| 0 <= k < pending@.len() implies #[trigger] pending@[k]
                == given[i + 1 + k] by {}
            if missing {
                assert(adds_nothing(given[i as int]@, op, default));
            }
        }
        i = i + 1;
    }
    proof {
        if op == ListOp::MoveElementUp(0) {
            assert forall|k: int| 0 <= k < n implies #[trigger] done@[k]@ == given[k]@ by {
                law_list_edit_effects(given[k]@, op, default);
            }
        }
        match op {
            ListOp::AddElement(j) => {
                assert forall|k: int| 0 <= k < n implies (#[trigger] adds_nothing(given[k]@, op, default)
                    <==> (default is None && j >= given[k]@.len())) by {}
                if missing_value {
                    let k = choose|k: int| 0 <= k < n && #[trigger] adds_nothing(given[k]@, op, default);
                    assert(j >= given[k]@.len());
                }
                if default is None && exists|k: int| 0 <= k < n && j >= (#[trigger] given[k])@.len() {
                    let k = choose|k: int| 0 <= k < n && j >= (#[trigger] given[k])@.len();
                    assert(adds_nothing(given[k]@, op, default));
                }
            },
            _ => {},
        }
    }
    *lists = done;
    ListOpOutcome { changed, missing_value }
}

/// What an edit within bounds does to one list, element by element: adding
/// puts the default value (else a copy of the element there) at the
/// position, or changes nothing when there is neither; removing takes out
/// the element at the position; moving up swaps the element with the one
/// before it (and changes nothing for the first element); moving down swaps
/// it with the one after it.
pub proof fn law_list_edit_effects<T>(l: Seq<T>, op: ListOp, default: Option<T>)
    requires
        op_in_bounds(l, op, default),
    ensures
        ({
            let after = list_after(l, op, default);
            match op {
                ListOp::AddElement(i) => match default {
                    Some(v) => after == l.insert(i as int, v),
                    None => if i < l.len() {
                        after == l.insert(i as int, l[i as int])
                    } else {
                        after == l
                    },
                },
                ListOp::RemoveElement(i) => after == l.remove(i as int),
                ListOp::MoveElementUp(i) => if i == 0 {
                    after == l
                } else {
                    &&& after.len() == l.len()
                    &&& after[i - 1] == l[i as int]
                    &&& after[i as int] == l[i - 1]
                    &&& forall|j: int| 0 <= j < l.len() && j != i - 1 && j != i ==> after[j] == l[j]
                },
                ListOp::MoveElementDown(i) => {
                    &&& after.len() == l.len()
                    &&& after[i as int] == l[i + 1]
                    &&& after[i + 1] == l[i as int]
                    &&& forall|j: int| 0 <= j < l.len() && j != i && j != i + 1 ==> after[j] == l[j]
                },
            }
        }),
{
}

/// Moving an element up and then moving it back down leaves the list as it
/// was.
pub proof fn law_move_up_then_down<T>(l: Seq<T>, i: usize, default: Option<T>)
    requires
        1 <= i < l.len(),
    ensures
        list_after(
            list_after(l, ListOp::MoveElementUp(i), default),
            ListOp::MoveElementDown((i - 1) as usize),
            default,
        ) == l,
{
    let up = list_after(l, ListOp::MoveElementUp(i), default);
    assert(list_after(up, ListOp::MoveElementDown((i - 1) as usize), default) =~= l);
}

/// Adding an element and then removing it at the same position leaves the
/// list as it was.
pub proof fn law_add_then_remove<T>(l: Seq<T>, i: usize, default: Option<T>)
    requires
        i <= l.len(),
        added_value(l, i as int, default) is Some,
    ensures
        list_after(
            list_after(l, ListOp::AddElement(i), default),
            ListOp::RemoveElement(i),
            default,
        ) == l,
{
    let added = list_after(l, ListOp::AddElement(i), default);
    assert(list_after(added, ListOp::RemoveElement(i), default) =~= l);
}

/// An edit of a set: an element, named by its key, to remove or to add.
#[derive(Debug, Clone, Copy, PartialEq, Eq, Structural)]
pub enum SetOp {
    RemoveElement(u64),
    AddElement(u64),
}

/// The set after an edit.
pub open spec fn set_after(s: Set<u64>, op: SetOp) -> Set<u64> {
    match op {
        SetOp::RemoveElement(k) => s.remove(k),
        SetOp::AddElement(k) => s.insert(k),
    }
}

/// Applies an edit to one set; an edit always counts as a change.
fn respond_to_set_op(set: &mut std::collections::HashSet<u64>, op: SetOp) -> (changed: bool)
    ensures
        final(set)@ == set_after(old(set)@, op),
        changed,
{
    broadcast use vstd::std_specs::hash::group_hash_axioms;

    match op {
        SetOp::AddElement(k) => {
            set.insert(k);
        },
        SetOp::RemoveElement(k) => {
            set.remove(&k);
        },
    }
    true
}

/// Applies one edit to each of several sets edited together; reports a
/// change when there was at least one set.
pub fn respond_to_sets_op(sets: &mut Vec<std::collections::HashSet<u64>>, op: SetOp) -> (changed: bool)
    ensures
        final(sets)@.len() == old(sets)@.len(),
        forall|k: int|
            0 <= k < old(sets)@.len() ==> #[trigger] final(sets)@[k]@ == set_after(old(sets)@[k]@, op),
        changed == (old(sets)@.len() > 0),
        forall|k: int, x: u64|
            0 <= k < old(sets)@.len() ==> (#[trigger] final(sets)@[k]@.contains(x) <==> match op {
                SetOp::RemoveElement(key) => old(sets)@[k]@.contains(x) && x != key,
                SetOp::AddElement(key) => old(sets)@[k]@.contains(x) || x == key,
            }),
{
    let ghost given = sets@;
    let mut pending: Vec<std::collections::HashSet<u64>> = Vec::new();
    std::mem::swap(&mut pending, sets);
    let mut done: Vec<std::collections::HashSet<u64>> = Vec::new();
    let mut changed = false;
    let n = pending.len();
    let mut i: usize = 0;
    while i < n
        invariant
            n == given.len(),
            i <= n,
            pending@.len() == n - i,
            done@.len() == i,
            forall|k: int| 0 <= k < pending@.len() ==> #[trigger] pending@[k] == given[i + k],
            forall|k: int| 0 <= k < i ==> #[trigger] done@[k]@ == set_after(given[k]@, op),
            changed == (i > 0),
        decreases n - i,
    {
        let mut set = pending.remove(0);
        assert(set == given[i as int]);
        let c = respond_to_set_op(&mut set, op);
        changed = changed || c;
        done.push(set);
        proof {
            assert forall|k: int| 0 <= k < pending@.len() implies #[trigger] pending@[k]
                == given[i + 1 + k] by {}
        }
        i = i + 1;
    }
    *sets = done;
    changed
}

/// Adding a key that a set lacks and then removing it leaves the set as it
/// was; removing a key that a set holds and adding it back does too.
pub proof fn law_set_add_then_remove(s: Set<u64>, k: u64)
    ensures
        !s.contains(k) ==> set_after(set_after(s, SetOp::AddElement(k)), SetOp::RemoveElement(k)) == s,
        s.contains(k) ==> set_after(set_after(s, SetOp::RemoveElement(k)), SetOp::AddElement(k)) == s,
{
    assert(!s.contains(k) ==> s.insert(k).remove(k) =~= s);
    assert(s.contains(k) ==> s.remove(k).insert(k) =~= s);
}

} // verus!
