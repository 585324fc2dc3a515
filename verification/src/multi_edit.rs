//! Editing several entities at once: which components they share, which
//! entities count, and whether their values agree.
use vstd::prelude::*;

verus! {

/// The common value when there is at least one value and all are equal.
pub fn iter_all_eq(values: &[usize]) -> (same: Option<usize>)
    ensures
        same is Some <==> (values@.len() > 0 && forall|i: int|
            0 <= i < values@.len() ==> #[trigger] values@[i] == values@[0]),
        same matches Some(v) ==> v == values@[0],
{
    if values.len() == 0 {
        return None;
    }
    let first = values[0];
    let mut i: usize = 1;
    while i < values.len()
        invariant
            1 <= i <= values@.len(),
            first == values@[0],
            forall|k: int| 0 <= k < i ==> #[trigger] values@[k] == first,
        decreases values@.len() - i,
    {
        if values[i] != first {
            return None;
        }
        i = i + 1;
    }
    Some(first)
}

/// Whether a component is kept: every other entity that exists has it.
pub open spec fn shared_by_all(component: u64, others: Seq<Option<Vec<u64>>>) -> bool {
    forall|k: int|
        0 <= k < others.len() ==> (#[trigger] others[k] matches Some(components) ==> components@.contains(
            component,
        ))
}

/// The components of `first_components`, in order, that every other entity
/// also has; an entry `None` of `others` is an entity that does not exist
/// and constrains nothing.
pub open spec fn shared_spec(first_components: Seq<u64>, others: Seq<Option<Vec<u64>>>) -> Seq<u64>
    decreases first_components.len(),
{
    if first_components.len() == 0 {
        first_components
    } else if shared_by_all(first_components.last(), others) {
        shared_spec(first_components.drop_last(), others).push(first_components.last())
    } else {
        shared_spec(first_components.drop_last(), others)
    }
}

fn list_contains(list: &Vec<u64>, x: u64) -> (res: bool)
    ensures
        res == list@.contains(x),
{
    let mut i: usize = 0;
    while i < list.len()
        invariant
            i <= list@.len(),
            forall|k: int| 0 <= k < i ==> list@[k] != x,
        decreases list@.len() - i,
    {
        if list[i] == x {
            return true;
        }
        i = i + 1;
    }
    false
}

/// Whether every other existing entity has the component.
fn has_in_all(component: u64, others: &Vec<Option<Vec<u64>>>) -> (res: bool)
    ensures
        res == shared_by_all(component, others@),
        res <==> forall|k: int|
            0 <= k < others@.len() ==> (#[trigger] others@[k] matches Some(c) ==> c@.contains(component)),
{
    let mut i: usize = 0;
    while i < others.len()
        invariant
            i <= others@.len(),
            forall|k: int|
                0 <= k < i ==> (#[trigger] others@[k] matches Some(components)
                    ==> components@.contains(component)),
        decreases others@.len() - i,
    {
        match &others[i] {
            Some(components) => {
                if !list_contains(components, component) {
                    return false;
                }
            },
            None => {},
        }
        i = i + 1;
    }
    true
}

/// The components shown when several entities are inspected together: those
/// of the first entity that all the others have as well.
pub fn shared_components(first_components: &Vec<u64>, others: &Vec<Option<Vec<u64>>>) -> (shared: Vec<u64>)
    ensures
        shared@ == shared_spec(first_components@, others@),
        forall|x: u64|
            #[trigger] shared@.contains(x) <==> (first_components@.contains(x) && forall|k: int|
                0 <= k < others@.len() ==> (#[trigger] others@[k] matches Some(c) ==> c@.contains(x))),
{
    proof {
        law_shared_held_by_all(first_components@, others@);
    }
    let mut shared: Vec<u64> = Vec::new();
    let mut i: usize = 0;
    while i < first_components.len()
        invariant
            i <= first_components@.len(),
            shared@ == shared_spec(first_components@.take(i as int), others@),
        decreases first_components@.len() - i,
    {
        let c = first_components[i];
        assert(first_components@.take(i + 1).drop_last() =~= first_components@.take(i as int));
        if has_in_all(c, others) {
            shared.push(c);
        }
        i = i + 1;
    }
    assert(first_components@.take(i as int) =~= first_components@);
    shared
}

/// A component is shown exactly when the first entity has it and every
/// other entity that exists has it too.
pub proof fn law_shared_held_by_all(first: Seq<u64>, others: Seq<Option<Vec<u64>>>)
    ensures
        forall|x: u64|
            #[trigger] shared_spec(first, others).contains(x) <==> (first.contains(x) && forall|k: int|
                0 <= k < others.len() ==> (#[trigger] others[k] matches Some(c) ==> c@.contains(x))),
    decreases first.len(),
{
    if first.len() > 0 {
        let d = first.drop_last();
        law_shared_held_by_all(d, others);
        crate::selection::lemma_drop_last(first);
        let sd = shared_spec(d, others);
        crate::selection::lemma_push_contains(sd, first.last());
        assert forall|x: u64| #[trigger] shared_spec(first, others).contains(x) <==> (first.contains(x)
            && forall|k: int| 0 <= k < others.len() ==> (#[trigger] others[k] matches Some(c) ==> c@.contains(x))) by {
            if x == first.last() {
                if !shared_by_all(x, others) && shared_spec(first, others).contains(x) {
                    assert(sd.contains(x));
                }
            }
        }
    }
}

/// The entities of `s` that do not occur earlier in `s`, in order.
pub open spec fn first_occurrences(s: Seq<u64>) -> Seq<u64>
    decreases s.len(),
{
    if s.len() == 0 {
        s
    } else if s.drop_last().contains(s.last()) {
        first_occurrences(s.drop_last())
    } else {
        first_occurrences(s.drop_last()).push(s.last())
    }
}

/// The entities whose values are edited, each once, in order of first
/// appearance.
pub fn distinct_entities(entities: &Vec<u64>) -> (distinct: Vec<u64>)
    ensures
        distinct@ == first_occurrences(entities@),
        distinct@.no_duplicates(),
        forall|x: u64| #[trigger] distinct@.contains(x) <==> entities@.contains(x),
{
    proof {
        law_first_occurrences(entities@);
    }
    let mut distinct: Vec<u64> = Vec::new();
    let mut i: usize = 0;
    while i < entities.len()
        invariant
            i <= entities@.len(),
            distinct@ == first_occurrences(entities@.take(i as int)),
        decreases entities@.len() - i,
    {
        let e = entities[i];
        let ghost prefix = entities@.take(i as int);
        assert(entities@.take(i + 1).drop_last() =~= prefix);
        let mut seen = false;
        let mut k: usize = 0;
        while k < i
            invariant
                k <= i < entities@.len(),
                prefix == entities@.take(i as int),
                e == entities@[i as int],
                seen == exists|j: int| 0 <= j < k && prefix[j] == e,
            decreases i - k,
        {
            assert(prefix[k as int] == entities@[k as int]);
            if entities[k] == e {
                seen = true;
            }
            k = k + 1;
        }
        if !seen {
            distinct.push(e);
        }
        i = i + 1;
    }
    assert(entities@.take(i as int) =~= entities@);
    distinct
}

/// The entities edited together are distinct, and each entity given is
/// among them.
pub proof fn law_first_occurrences(s: Seq<u64>)
    ensures
        first_occurrences(s).no_duplicates(),
        forall|x: u64| #[trigger] first_occurrences(s).contains(x) <==> s.contains(x),
    decreases s.len(),
{
    if s.len() > 0 {
        let d = s.drop_last();
        law_first_occurrences(d);
        crate::selection::lemma_drop_last(s);
        if !d.contains(s.last()) {
            crate::selection::lemma_push_contains(first_occurrences(d), s.last());
            crate::selection::lemma_push_no_duplicates(first_occurrences(d), s.last());
        }
    }
}

} // verus!
