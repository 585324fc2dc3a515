//! Decisions of the hierarchy panel: which entries stay open, and which
//! entities give up a component that only one entity may hold.
use vstd::prelude::*;

verus! {

/// Whether the node at `a` is a proper ancestor of the node at `i`, going
/// from each node to its parent; a parent position that does not come before
/// its child ends the chain.
pub open spec fn strict_ancestor(parents: Seq<Option<usize>>, a: int, i: int) -> bool
    decreases i,
{
    if 0 <= i < parents.len() {
        match parents[i] {
            Some(p) => if p < i {
                p == a || strict_ancestor(parents, a, p as int)
            } else {
                false
            },
            None => false,
        }
    } else {
        false
    }
}

/// An ancestor comes before its descendant.
pub proof fn lemma_ancestor_before(parents: Seq<Option<usize>>, a: int, i: int)
    requires
        strict_ancestor(parents, a, i),
    ensures
        0 <= a < i,
    decreases i,
{
    let p = parents[i]->0 as int;
    if p != a {
        lemma_ancestor_before(parents, a, p);
    }
}

/// An ancestor of an ancestor is an ancestor.
pub proof fn lemma_ancestor_transitive(parents: Seq<Option<usize>>, a: int, b: int, c: int)
    requires
        strict_ancestor(parents, a, b),
        strict_ancestor(parents, b, c),
    ensures
        strict_ancestor(parents, a, c),
    decreases c,
{
    let p = parents[c]->0 as int;
    if p != b {
        lemma_ancestor_transitive(parents, a, b, p);
    }
}

/// Whether node `k` is a proper ancestor of one of the first `n` selected
/// nodes.
pub open spec fn above_selection(parents: Seq<Option<usize>>, selected: Seq<usize>, n: int, k: int) -> bool {
    exists|j: int| 0 <= j < n && #[trigger] strict_ancestor(parents, k, selected[j] as int)
}

/// The entries kept open in the hierarchy: every proper ancestor of a
/// selected entity, so that the selection is always in view. `parents[i]` is
/// the position of the parent of the node at `i`.
pub fn always_open(parents: &Vec<Option<usize>>, selected: &Vec<usize>) -> (open: Vec<bool>)
    ensures
        open@.len() == parents@.len(),
        forall|k: int|
            0 <= k < parents@.len() ==> (#[trigger] open@[k] <==> above_selection(
                parents@,
                selected@,
                selected@.len() as int,
                k,
            )),
{
    let n = parents.len();
    let mut open: Vec<bool> = Vec::new();
    let mut i: usize = 0;
    while i < n
        invariant
            n == parents@.len(),
            i <= n,
            open@.len() == i,
            forall|k: int| 0 <= k < i ==> !#[trigger] open@[k],
        decreases n - i,
    {
        open.push(false);
        i = i + 1;
    }
    let mut j: usize = 0;
    while j < selected.len()
        invariant
            n == parents@.len(),
            open@.len() == n,
            j <= selected@.len(),
            forall|k: int|
                0 <= k < n ==> (#[trigger] open@[k] <==> above_selection(
                    parents@,
                    selected@,
                    j as int,
                    k,
                )),
        decreases selected@.len() - j,
    {
        let s = selected[j];
        let ghost before = open@;
        let mut cur = s;
        loop
            invariant_except_break
                n == parents@.len(),
                open@.len() == n,
                cur == s || strict_ancestor(parents@, cur as int, s as int),
                forall|k: int|
                    0 <= k < n ==> (#[trigger] open@[k] <==> (before[k] || (strict_ancestor(
                        parents@,
                        k,
                        s as int,
                    ) && !strict_ancestor(parents@, k, cur as int)))),
            ensures
                open@.len() == n,
                forall|k: int|
                    0 <= k < n ==> (#[trigger] open@[k] <==> (before[k] || strict_ancestor(
                        parents@,
                        k,
                        s as int,
                    ))),
            decreases cur,
        {
            if cur >= n {
                assert forall|k: int| 0 <= k < n implies !strict_ancestor(parents@, k, cur as int) by {}
                break;
            }
            match parents[cur] {
                Some(p) => {
                    if p < cur {
                        let ghost old_open = open@;
                        open.set(p, true);
                        proof {
                            assert(strict_ancestor(parents@, p as int, cur as int));
                            if cur != s {
                                lemma_ancestor_transitive(parents@, p as int, cur as int, s as int);
                            }
                            assert forall|k: int|
                                0 <= k < n implies (#[trigger] open@[k] <==> (before[k] || (
                                strict_ancestor(parents@, k, s as int) && !strict_ancestor(
                                    parents@,
                                    k,
                                    p as int,
                                )))) by {
                                if k == p {
                                    if strict_ancestor(parents@, k, p as int) {
                                        lemma_ancestor_before(parents@, k, p as int);
                                    }
                                } else {
                                    assert(open@[k] == old_open[k]);
                                    if strict_ancestor(parents@, k, p as int) {
                                        if cur != s {
                                            lemma_ancestor_transitive(
                                                parents@,
                                                k,
                                                cur as int,
                                                s as int,
                                            );
                                        }
                                    }
                                }
                            }
                        }
                        cur = p;
                    } else {
                        assert forall|k: int| 0 <= k < n implies !strict_ancestor(
                            parents@,
                            k,
                            cur as int,
                        ) by {}
                        break;
                    }
                },
                None => {
                    assert forall|k: int| 0 <= k < n implies !strict_ancestor(
                        parents@,
                        k,
                        cur as int,
                    ) by {}
                    break;
                },
            }
        }
        proof {
            assert forall|k: int|
                0 <= k < n implies (#[trigger] open@[k] <==> above_selection(
                parents@,
                selected@,
                j + 1,
                k,
            )) by {
                if strict_ancestor(parents@, k, s as int) {
                    assert(strict_ancestor(parents@, k, selected@[j as int] as int));
                }
                if above_selection(parents@, selected@, j + 1, k) {
                    let jj = choose|jj: int|
                        0 <= jj < j + 1 && #[trigger] strict_ancestor(
                            parents@,
                            k,
                            selected@[jj] as int,
                        );
                    if jj < j {
                        assert(above_selection(parents@, selected@, j as int, k));
                    }
                }
            }
        }
        j = j + 1;
    }
    open
}

/// Whether an entry of the hierarchy is forced open or shut: shut without
/// children, open above the selection, else left to the user (`None`).
pub fn header_open(has_children: bool, always_open: bool) -> (open: Option<bool>)
    ensures
        open == (if !has_children {
            Some(false)
        } else if always_open {
            Some(true)
        } else {
            None
        }),
{
    if !has_children {
        Some(false)
    } else if always_open {
        Some(true)
    } else {
        None
    }
}

/// When a component that only one entity may hold is added to `target`, the
/// other holders lose it.
pub fn one_of(holders: &Vec<u64>, target: u64) -> (losers: Vec<u64>)
    ensures
        losers@ == crate::selection::without(holders@, target),
        forall|x: u64| #[trigger] losers@.contains(x) <==> (holders@.contains(x) && x != target),
{
    proof {
        law_one_holder_left_all(holders@, target);
    }
    let mut losers: Vec<u64> = Vec::new();
    let mut i: usize = 0;
    while i < holders.len()
        invariant
            i <= holders@.len(),
            losers@ == crate::selection::without(holders@.take(i as int), target),
        decreases holders@.len() - i,
    {
        let e = holders[i];
        assert(holders@.take(i + 1).drop_last() =~= holders@.take(i as int));
        if e != target {
            losers.push(e);
        }
        i = i + 1;
    }
    assert(holders@.take(i as int) =~= holders@);
    losers
}

/// After `one_of`, the target is the only holder left: it never loses the
/// component, and every other holder does.
pub proof fn law_one_holder_left(holders: Seq<u64>, target: u64, x: u64)
    ensures
        crate::selection::without(holders, target).contains(x) <==> (holders.contains(x) && x != target),
{
    crate::selection::lemma_without(holders, target);
}

/// After `one_of`, exactly the other holders lose the component.
pub proof fn law_one_holder_left_all(holders: Seq<u64>, target: u64)
    ensures
        forall|x: u64| #[trigger] crate::selection::without(holders, target).contains(x) <==> (holders.contains(x)
            && x != target),
{
    crate::selection::lemma_without(holders, target);
}

/// The entity id at position `p` of the tree.
pub open spec fn entity_at(nodes: Seq<crate::filter::HierarchyNode>, p: usize) -> u64 {
    nodes[p as int].entity
}

/// Whether the positions are in order of their entities' ids.
pub open spec fn sorted_by_entity(nodes: Seq<crate::filter::HierarchyNode>, s: Seq<usize>) -> bool {
    forall|a: int, b: int|
        0 <= a < b < s.len() ==> entity_at(nodes, #[trigger] s[a]) <= entity_at(nodes, #[trigger] s[b])
}

/// The positions ordered by their entities' ids (`Entity` orders by its bits).
pub fn sort_by_entity(tree: &crate::filter::EntityTree, positions: &Vec<usize>) -> (sorted: Vec<usize>)
    requires
        forall|k: int| 0 <= k < positions@.len() ==> #[trigger] positions@[k] < tree@.len(),
    ensures
        sorted@.to_multiset() == positions@.to_multiset(),
        sorted_by_entity(tree@, sorted@),
        forall|k: int| 0 <= k < sorted@.len() ==> #[trigger] sorted@[k] < tree@.len(),
{
    broadcast use vstd::seq_lib::group_to_multiset_ensures;

    let mut sorted: Vec<usize> = Vec::new();
    let mut i: usize = 0;
    assert(positions@.take(0) =~= sorted@);
    while i < positions.len()
        invariant
            i <= positions@.len(),
            forall|k: int| 0 <= k < positions@.len() ==> #[trigger] positions@[k] < tree@.len(),
            forall|k: int| 0 <= k < sorted@.len() ==> #[trigger] sorted@[k] < tree@.len(),
            sorted@.to_multiset() == positions@.take(i as int).to_multiset(),
            sorted_by_entity(tree@, sorted@),
        decreases positions@.len() - i,
    {
        let p = positions[i];
        let key = tree.nodes()[p].entity;
        let mut pos: usize = 0;
        while pos < sorted.len() && tree.nodes()[sorted[pos]].entity <= key
            invariant
                pos <= sorted@.len(),
                p < tree@.len(),
                key == entity_at(tree@, p),
                forall|k: int| 0 <= k < sorted@.len() ==> #[trigger] sorted@[k] < tree@.len(),
                forall|k: int| 0 <= k < pos ==> entity_at(tree@, #[trigger] sorted@[k]) <= key,
            decreases sorted@.len() - pos,
        {
            pos = pos + 1;
        }
        let ghost before = sorted@;
        sorted.insert(pos, p);
        proof {
            assert(positions@.take(i + 1) =~= positions@.take(i as int).push(p));
            vstd::seq_lib::to_multiset_build(positions@.take(i as int), p);
            assert(sorted@ =~= before.insert(pos as int, p));
            vstd::seq_lib::to_multiset_insert(before, pos as int, p);
            assert forall|a: int, b: int| 0 <= a < b < sorted@.len() implies entity_at(
                tree@,
                #[trigger] sorted@[a],
            ) <= entity_at(tree@, #[trigger] sorted@[b]) by {
                if pos < before.len() {
                    assert(key < entity_at(tree@, before[pos as int]));
                }
                if b < pos {
                    assert(sorted@[a] == before[a] && sorted@[b] == before[b]);
                } else if b == pos {
                    assert(sorted@[a] == before[a]);
                } else if a < pos {
                    assert(sorted@[a] == before[a] && sorted@[b] == before[b - 1]);
                } else if a == pos {
                    assert(sorted@[b] == before[b - 1]);
                    assert(entity_at(tree@, before[pos as int]) <= entity_at(tree@, before[b - 1]));
                } else {
                    assert(sorted@[a] == before[a - 1] && sorted@[b] == before[b - 1]);
                }
            }
            assert forall|k: int| 0 <= k < sorted@.len() implies #[trigger] sorted@[k] < tree@.len() by {
                if k < pos {
                    assert(sorted@[k] == before[k]);
                } else if k > pos {
                    assert(sorted@[k] == before[k - 1]);
                }
            }
        }
        i = i + 1;
    }
    assert(positions@.take(i as int) =~= positions@);
    sorted
}

/// The top-level entries of the hierarchy panel: the roots that pass the
/// filter, ordered by entity id.
pub fn visible_roots(tree: &crate::filter::EntityTree, filter: &crate::filter::Filter, roots: &Vec<usize>) -> (visible: Vec<usize>)
    requires
        forall|k: int| 0 <= k < roots@.len() ==> #[trigger] roots@[k] < tree@.len(),
    ensures
        sorted_by_entity(tree@, visible@),
        filter.word@.len() == 0 ==> visible@.to_multiset() == roots@.to_multiset(),
        filter.word@.len() > 0 ==> visible@.to_multiset() == crate::filter::passing(
            tree@,
            roots@,
            filter.word@,
            filter.is_fuzzy,
        ).to_multiset(),
{
    let mut kept = roots.clone();
    assert(kept@ == roots@);
    filter.filter_entities(tree, &mut kept);
    proof {
        if filter.word@.len() > 0 {
            crate::filter::lemma_passing_subset(tree@, roots@, filter.word@, filter.is_fuzzy);
        }
    }
    sort_by_entity(tree, &kept)
}

} // verus!
