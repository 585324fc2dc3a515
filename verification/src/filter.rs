//! Filtering the entity hierarchy by name.
//!
//! An entity passes the filter when its own name matches the filter word or
//! when one of its descendants passes. A name matches either fuzzily (the
//! skim algorithm of `fuzzy-matcher`) or when its lower-case form contains
//! the word.
use vstd::prelude::*;
use fuzzy_matcher::FuzzyMatcher;

verus! {

broadcast use vstd::string::group_string_axioms;

/// The lower-case form of a text, as `str::to_lowercase` computes it.
pub uninterp spec fn lowercase(s: Seq<char>) -> Seq<char>;

/// `str::to_lowercase`: the result is the lower-case form of the argument,
/// a function of the argument alone.
#[verifier::external_body]
fn to_lowercase(s: &str) -> (res: String)
    ensures
        res@ == lowercase(s@),
{
    s.to_lowercase()
}

/// The score that `SkimMatcherV2::default()` gives `pattern` against `choice`.
pub uninterp spec fn skim_score(choice: Seq<char>, pattern: Seq<char>) -> Option<i64>;

/// `c` with ASCII upper-case letters turned into lower-case ones.
pub open spec fn ascii_lower(c: char) -> char {
    if 'A' <= c <= 'Z' {
        ((c as u32) + 32) as char
    } else {
        c
    }
}

/// Whether the text holds an ASCII upper-case letter.
pub open spec fn has_ascii_upper(s: Seq<char>) -> bool {
    exists|i: int| 0 <= i < s.len() && 'A' <= #[trigger] s[i] <= 'Z'
}

/// Whether two characters are equal, ignoring ASCII case unless
/// `case_sensitive`.
pub open spec fn chars_match(a: char, b: char, case_sensitive: bool) -> bool {
    if case_sensitive {
        a == b
    } else {
        ascii_lower(a) == ascii_lower(b)
    }
}

/// Whether `pattern` occurs in `choice` as a subsequence, characters compared
/// by [`chars_match`].
pub open spec fn is_subsequence(choice: Seq<char>, pattern: Seq<char>, case_sensitive: bool) -> bool
    decreases choice.len(),
{
    if pattern.len() == 0 {
        true
    } else if choice.len() == 0 {
        false
    } else if chars_match(choice[0], pattern[0], case_sensitive) {
        is_subsequence(choice.drop_first(), pattern.drop_first(), case_sensitive)
    } else {
        is_subsequence(choice.drop_first(), pattern, case_sensitive)
    }
}

/// `SkimMatcherV2::default().fuzzy_match(choice, pattern)`: the score is a
/// function of the two texts alone. It is `Some` exactly when the pattern
/// occurs in the choice as a subsequence, ignoring ASCII case unless the
/// pattern holds an ASCII upper-case letter (the matcher's smart case); the
/// source checks this with `cheap_matches` before it scores.
#[verifier::external_body]
fn skim_fuzzy_match(choice: &str, pattern: &str) -> (res: Option<i64>)
    ensures
        res == skim_score(choice@, pattern@),
        res is Some <==> is_subsequence(choice@, pattern@, has_ascii_upper(pattern@)),
{
    fuzzy_matcher::skim::SkimMatcherV2::default().fuzzy_match(choice, pattern)
}

/// Whether `needle` occurs in `hay` as a contiguous run.
pub open spec fn contains_run(hay: Seq<char>, needle: Seq<char>) -> bool {
    exists|i: int|
        0 <= i && i + needle.len() <= hay.len() && #[trigger] hay.subrange(i, i + needle.len())
            == needle
}

/// Whether a name matches the filter word.
pub open spec fn name_matches_spec(name: Seq<char>, word: Seq<char>, is_fuzzy: bool) -> bool {
    if is_fuzzy {
        skim_score(name, word) is Some
    } else {
        contains_run(lowercase(name), word)
    }
}

/// A plain (not fuzzy) filter word matches a name exactly when it occurs,
/// as a contiguous run of characters, in the name's lower-case form; a
/// fuzzy one exactly when the skim matcher scores it.
pub proof fn law_plain_match_is_substring(name: Seq<char>, word: Seq<char>)
    ensures
        name_matches_spec(name, word, false) <==> exists|i: int|
            0 <= i && i + word.len() <= lowercase(name).len() && #[trigger] lowercase(name).subrange(
                i,
                i + word.len(),
            ) == word,
        name_matches_spec(name, word, true) <==> skim_score(name, word) is Some,
{
}

/// The characters of a text.
fn chars_of(s: &str) -> (v: Vec<char>)
    ensures
        v@ == s@,
{
    let n = s.unicode_len();
    let mut v: Vec<char> = Vec::new();
    let mut i: usize = 0;
    while i < n
        invariant
            n == s@.len(),
            i <= n,
            v@ =~= s@.take(i as int),
        decreases n - i,
    {
        v.push(s.get_char(i));
        i = i + 1;
    }
    v
}

/// Whether `needle` occurs in `hay` starting at `start`.
fn run_at(hay: &Vec<char>, needle: &Vec<char>, start: usize) -> (res: bool)
    requires
        start + needle@.len() <= hay@.len(),
    ensures
        res == (hay@.subrange(start as int, start + needle@.len()) == needle@),
{
    let hay_len = hay.len();
    let mut k: usize = 0;
    while k < needle.len()
        invariant
            hay_len == hay@.len(),
            k <= needle@.len(),
            start + needle@.len() <= hay@.len(),
            forall|j: int| 0 <= j < k ==> hay@[start + j] == needle@[j],
        decreases needle@.len() - k,
    {
        assert(start + k < hay@.len());
        if hay[start + k] != needle[k] {
            assert(hay@.subrange(start as int, start + needle@.len())[k as int] != needle@[k as int]);
            return false;
        }
        k = k + 1;
    }
    assert(hay@.subrange(start as int, start + needle@.len()) =~= needle@);
    true
}

/// Whether `needle` occurs in `hay` as a contiguous run.
fn contains_chars(hay: &Vec<char>, needle: &Vec<char>) -> (res: bool)
    ensures
        res == contains_run(hay@, needle@),
{
    if needle.len() > hay.len() {
        return false;
    }
    let last = hay.len() - needle.len();
    let mut i: usize = 0;
    while i < last
        invariant
            last + needle@.len() == hay@.len(),
            i <= last,
            forall|j: int|
                0 <= j < i ==> #[trigger] hay@.subrange(j, j + needle@.len()) != needle@,
        decreases last - i,
    {
        if run_at(hay, needle, i) {
            return true;
        }
        i = i + 1;
    }
    run_at(hay, needle, last)
}

/// Whether `name` matches the filter `word`: fuzzily, or by the lower-case
/// name containing the word.
pub fn name_matches(name: &str, word: &str, is_fuzzy: bool) -> (res: bool)
    ensures
        res == name_matches_spec(name@, word@, is_fuzzy),
        !is_fuzzy ==> (res <==> exists|i: int|
            0 <= i && i + word@.len() <= lowercase(name@).len() && #[trigger] lowercase(name@).subrange(
                i,
                i + word@.len(),
            ) == word@),
        is_fuzzy ==> (res <==> skim_score(name@, word@) is Some),
{
    proof {
        law_plain_match_is_substring(name@, word@);
    }
    if is_fuzzy {
        skim_fuzzy_match(name, word).is_some()
    } else {
        let lower = to_lowercase(name);
        let hay = chars_of(lower.as_str());
        let needle = chars_of(word);
        contains_chars(&hay, &needle)
    }
}

// ---------------------------------------------------------------------------

/// One entity of the hierarchy: its id, its name, and the positions of its
/// children in the [`EntityTree`].
#[derive(Debug)]
pub struct HierarchyNode {
    pub entity: u64,
    pub name: String,
    pub children: Vec<usize>,
}

/// Whether `child` is a position that comes after `parent` in the list.
pub open spec fn follows(nodes: Seq<HierarchyNode>, parent: int, child: int) -> bool {
    parent < child < nodes.len()
}

/// Whether every child position of every node comes after the node and
/// lies within the list: the hierarchy flattened parent first.
pub open spec fn children_after_parent(nodes: Seq<HierarchyNode>) -> bool {
    forall|i: int, k: int|
        0 <= i < nodes.len() && 0 <= k < nodes[i].children@.len() ==> follows(
            nodes,
            i,
            #[trigger] nodes[i].children@[k] as int,
        )
}

/// The entity hierarchy, flattened so that every child comes after its
/// parent.
#[derive(Debug)]
pub struct EntityTree {
    nodes: Vec<HierarchyNode>,
}

impl View for EntityTree {
    type V = Seq<HierarchyNode>;

    closed spec fn view(&self) -> Seq<HierarchyNode> {
        self.nodes@
    }
}

impl EntityTree {
    #[verifier::type_invariant]
    spec fn inv(self) -> bool {
        children_after_parent(self.nodes@)
    }

    /// The tree over the given nodes, when every child comes after its
    /// parent; `None` otherwise.
    pub fn new(nodes: Vec<HierarchyNode>) -> (tree: Option<EntityTree>)
        ensures
            tree is Some <==> children_after_parent(nodes@),
            tree matches Some(t) ==> t@ == nodes@,
    {
        let n = nodes.len();
        let mut i: usize = 0;
        while i < n
            invariant
                n == nodes@.len(),
                i <= n,
                forall|i2: int, k: int|
                    0 <= i2 < i && 0 <= k < nodes@[i2].children@.len() ==> follows(
                        nodes@,
                        i2,
                        #[trigger] nodes@[i2].children@[k] as int,
                    ),
            decreases n - i,
        {
            let mut k: usize = 0;
            while k < nodes[i].children.len()
                invariant
                    n == nodes@.len(),
                    i < n,
                    k <= nodes@[i as int].children@.len(),
                    forall|i2: int, k2: int|
                        0 <= i2 < i && 0 <= k2 < nodes@[i2].children@.len() ==> follows(
                            nodes@,
                            i2,
                            #[trigger] nodes@[i2].children@[k2] as int,
                        ),
                    forall|k2: int|
                        0 <= k2 < k ==> follows(
                            nodes@,
                            i as int,
                            #[trigger] nodes@[i as int].children@[k2] as int,
                        ),
                decreases nodes@[i as int].children@.len() - k,
            {
                let c = nodes[i].children[k];
                if !(i < c && c < n) {
                    assert(!follows(nodes@, i as int, nodes@[i as int].children@[k as int] as int));
                    return None;
                }
                k = k + 1;
            }
            i = i + 1;
        }
        Some(EntityTree { nodes })
    }

    /// The nodes, parent first.
    pub fn nodes(&self) -> (nodes: &Vec<HierarchyNode>)
        ensures
            nodes@ == self@,
            children_after_parent(self@),
    {
        proof {
            use_type_invariant(self);
        }
        &self.nodes
    }
}

/// Whether the node at `i`, or one of its descendants, has a matching name.
pub open spec fn subtree_matches(nodes: Seq<HierarchyNode>, i: int, word: Seq<char>, is_fuzzy: bool) -> bool
    decreases nodes.len() - i, 1int, 0int,
{
    if 0 <= i < nodes.len() {
        name_matches_spec(nodes[i].name@, word, is_fuzzy) || children_match(
            nodes,
            i,
            nodes[i].children@.len() as int,
            word,
            is_fuzzy,
        )
    } else {
        false
    }
}

/// Whether one of the first `k` children of the node at `i` passes.
pub open spec fn children_match(
    nodes: Seq<HierarchyNode>,
    i: int,
    k: int,
    word: Seq<char>,
    is_fuzzy: bool,
) -> bool
    decreases nodes.len() - i, 0int, k,
{
    if 0 <= i < nodes.len() && 0 < k <= nodes[i].children@.len() {
        let c = nodes[i].children@[k - 1] as int;
        children_match(nodes, i, k - 1, word, is_fuzzy) || (follows(nodes, i, c)
            && subtree_matches(nodes, c, word, is_fuzzy))
    } else {
        false
    }
}

/// One of the first `k` children passes exactly when some child among them,
/// listed after its parent, passes.
pub proof fn lemma_children_match_exists(nodes: Seq<HierarchyNode>, i: int, k: int, word: Seq<char>, is_fuzzy: bool)
    requires
        0 <= i < nodes.len(),
        0 <= k <= nodes[i].children@.len(),
    ensures
        children_match(nodes, i, k, word, is_fuzzy) <==> exists|j: int|
            0 <= j < k && follows(nodes, i, #[trigger] nodes[i].children@[j] as int) && subtree_matches(
                nodes,
                nodes[i].children@[j] as int,
                word,
                is_fuzzy,
            ),
    decreases k,
{
    if k > 0 {
        lemma_children_match_exists(nodes, i, k - 1, word, is_fuzzy);
    }
}

/// An entity passes the filter exactly when its own name matches or one of
/// its children passes.
pub proof fn law_passes_iff_self_or_child(nodes: Seq<HierarchyNode>, i: int, word: Seq<char>, is_fuzzy: bool)
    requires
        0 <= i < nodes.len(),
    ensures
        subtree_matches(nodes, i, word, is_fuzzy) <==> (name_matches_spec(nodes[i].name@, word, is_fuzzy)
            || exists|j: int|
            0 <= j < nodes[i].children@.len() && follows(nodes, i, #[trigger] nodes[i].children@[j] as int)
                && subtree_matches(nodes, nodes[i].children@[j] as int, word, is_fuzzy)),
{
    lemma_children_match_exists(nodes, i, nodes[i].children@.len() as int, word, is_fuzzy);
}

/// What passes the filter out of a list: exactly its entries that pass.
pub proof fn law_passing_is_what_passes(nodes: Seq<HierarchyNode>, list: Seq<usize>, word: Seq<char>, is_fuzzy: bool)
    ensures
        forall|x: usize| #[trigger] passing(nodes, list, word, is_fuzzy).contains(x) <==> (list.contains(x)
            && subtree_matches(nodes, x as int, word, is_fuzzy)),
    decreases list.len(),
{
    if list.len() > 0 {
        let d = list.drop_last();
        law_passing_is_what_passes(nodes, d, word, is_fuzzy);
        let pd = passing(nodes, d, word, is_fuzzy);
        assert forall|x: usize| #[trigger] passing(nodes, list, word, is_fuzzy).contains(x) <==> (list.contains(x)
            && subtree_matches(nodes, x as int, word, is_fuzzy)) by {
            if list.contains(x) {
                let j = choose|j: int| 0 <= j < list.len() && list[j] == x;
                if j < d.len() {
                    assert(d[j] == x);
                }
            }
            if d.contains(x) {
                let j = choose|j: int| 0 <= j < d.len() && d[j] == x;
                assert(list[j] == x);
            }
            if subtree_matches(nodes, list.last() as int, word, is_fuzzy) {
                let p = passing(nodes, list, word, is_fuzzy);
                assert(p == pd.push(list.last()));
                if pd.contains(x) {
                    let j = choose|j: int| 0 <= j < pd.len() && pd[j] == x;
                    assert(p[j] == x);
                }
                if p.contains(x) {
                    let j = choose|j: int| 0 <= j < p.len() && p[j] == x;
                    if j < pd.len() {
                        assert(pd[j] == x);
                    }
                }
                assert(p[pd.len() as int] == list.last());
            }
            assert(list[list.len() - 1] == list.last());
        }
    }
}

/// Once one of the first `k` children passes, one of the first `m` does for
/// every `m` from `k` on.
pub proof fn lemma_children_match_grows(
    nodes: Seq<HierarchyNode>,
    i: int,
    k: int,
    m: int,
    word: Seq<char>,
    is_fuzzy: bool,
)
    requires
        k <= m <= nodes[i].children@.len(),
        0 <= i < nodes.len(),
        children_match(nodes, i, k, word, is_fuzzy),
    ensures
        children_match(nodes, i, m, word, is_fuzzy),
    decreases m - k,
{
    if k < m {
        lemma_children_match_grows(nodes, i, k, m - 1, word, is_fuzzy);
    }
}

/// An entity passes the filter whenever one of its children does.
pub proof fn law_parent_passes_with_child(
    nodes: Seq<HierarchyNode>,
    i: int,
    k: int,
    word: Seq<char>,
    is_fuzzy: bool,
)
    requires
        0 <= i < nodes.len(),
        0 <= k < nodes[i].children@.len(),
        follows(nodes, i, nodes[i].children@[k] as int),
        subtree_matches(nodes, nodes[i].children@[k] as int, word, is_fuzzy),
    ensures
        subtree_matches(nodes, i, word, is_fuzzy),
{
    assert(children_match(nodes, i, k + 1, word, is_fuzzy));
    lemma_children_match_grows(nodes, i, k + 1, nodes[i].children@.len() as int, word, is_fuzzy);
}

/// Whether the entity at `index`, or one of its descendants, has a name that
/// matches `word`.
pub fn self_or_children_satisfy_filter(tree: &EntityTree, index: usize, word: &str, is_fuzzy: bool) -> (res: bool)
    requires
        index < tree@.len(),
    ensures
        res == subtree_matches(tree@, index as int, word@, is_fuzzy),
        res <==> (name_matches_spec(tree@[index as int].name@, word@, is_fuzzy) || exists|j: int|
            0 <= j < tree@[index as int].children@.len() && subtree_matches(
                tree@,
                #[trigger] tree@[index as int].children@[j] as int,
                word@,
                is_fuzzy,
            )),
    decreases tree@.len() - index,
{
    proof {
        law_passes_iff_self_or_child(tree@, index as int, word@, is_fuzzy);
        use_type_invariant(tree);
    }
    let node = &tree.nodes[index];
    if name_matches(node.name.as_str(), word, is_fuzzy) {
        return true;
    }
    let mut k: usize = 0;
    while k < node.children.len()
        invariant
            index < tree@.len(),
            *node == tree@[index as int],
            k <= node.children@.len(),
            !name_matches_spec(node.name@, word@, is_fuzzy),
            !children_match(tree@, index as int, k as int, word@, is_fuzzy),
        decreases node.children@.len() - k,
    {
        let child = node.children[k];
        if index < child && child < tree.nodes.len() {
            if self_or_children_satisfy_filter(tree, child, word, is_fuzzy) {
                proof {
                    assert(children_match(tree@, index as int, k + 1, word@, is_fuzzy));
                    lemma_children_match_grows(
                        tree@,
                        index as int,
                        k + 1,
                        node.children@.len() as int,
                        word@,
                        is_fuzzy,
                    );
                }
                return true;
            }
        }
        k = k + 1;
    }
    false
}

/// The filter typed above the hierarchy.
#[derive(Debug)]
pub struct Filter {
    /// The filter word, in lower case.
    pub word: String,
    pub is_fuzzy: bool,
}

/// The positions of `list` whose entities pass the filter, in order.
pub open spec fn passing(nodes: Seq<HierarchyNode>, list: Seq<usize>, word: Seq<char>, is_fuzzy: bool) -> Seq<usize>
    decreases list.len(),
{
    if list.len() == 0 {
        list
    } else if subtree_matches(nodes, list.last() as int, word, is_fuzzy) {
        passing(nodes, list.drop_last(), word, is_fuzzy).push(list.last())
    } else {
        passing(nodes, list.drop_last(), word, is_fuzzy)
    }
}

/// What passes is drawn from the list.
pub proof fn lemma_passing_subset(nodes: Seq<HierarchyNode>, list: Seq<usize>, word: Seq<char>, is_fuzzy: bool)
    ensures
        forall|k: int|
            0 <= k < passing(nodes, list, word, is_fuzzy).len() ==> list.contains(
                #[trigger] passing(nodes, list, word, is_fuzzy)[k],
            ),
    decreases list.len(),
{
    if list.len() > 0 {
        let d = list.drop_last();
        lemma_passing_subset(nodes, d, word, is_fuzzy);
        let p = passing(nodes, list, word, is_fuzzy);
        assert forall|k: int| 0 <= k < p.len() implies list.contains(#[trigger] p[k]) by {
            let pd = passing(nodes, d, word, is_fuzzy);
            if k < pd.len() {
                assert(p[k] == pd[k]);
                assert(d.contains(pd[k]));
                let j = choose|j: int| 0 <= j < d.len() && d[j] == pd[k];
                assert(list[j] == d[j]);
            } else {
                assert(p[k] == list.last());
                assert(list[list.len() - 1] == list.last());
            }
        }
    }
}

impl Filter {
    /// The filter for what was typed: the word in lower case.
    pub fn from_input(text: &str, is_fuzzy: bool) -> (filter: Filter)
        ensures
            filter.word@ == lowercase(text@),
            filter.is_fuzzy == is_fuzzy,
    {
        Filter { word: to_lowercase(text), is_fuzzy }
    }

    /// The empty filter, which lets everything through.
    pub fn all() -> (filter: Filter)
        ensures
            filter.word@ == Seq::<char>::empty(),
            !filter.is_fuzzy,
    {
        Filter { word: String::new(), is_fuzzy: false }
    }

    /// Whether the filter holds a word at all.
    pub fn is_active(&self) -> (res: bool)
        ensures
            res == (self.word@.len() > 0),
    {
        !self.word.as_str().is_empty()
    }

    /// Whether the entity at `index` passes.
    pub fn filter_entity(&self, tree: &EntityTree, index: usize) -> (res: bool)
        requires
            index < tree@.len(),
        ensures
            res == subtree_matches(tree@, index as int, self.word@, self.is_fuzzy),
    {
        self_or_children_satisfy_filter(tree, index, self.word.as_str(), self.is_fuzzy)
    }

    /// Keeps the entities that pass, in order; keeps all when the filter is
    /// not active.
    pub fn filter_entities(&self, tree: &EntityTree, entities: &mut Vec<usize>)
        requires
            forall|k: int| 0 <= k < old(entities)@.len() ==> #[trigger] old(entities)@[k] < tree@.len(),
        ensures
            self.word@.len() == 0 ==> final(entities)@ == old(entities)@,
            self.word@.len() > 0 ==> final(entities)@ == passing(
                tree@,
                old(entities)@,
                self.word@,
                self.is_fuzzy,
            ),            self.word@.len() > 0 ==> forall|x: usize|
                #[trigger] final(entities)@.contains(x) <==> (old(entities)@.contains(x) && subtree_matches(
                    tree@,
                    x as int,
                    self.word@,
                    self.is_fuzzy,
                )),
    {
        proof {
            law_passing_is_what_passes(tree@, old(entities)@, self.word@, self.is_fuzzy);
        }
        if !self.is_active() {
            return;
        }
        let mut kept: Vec<usize> = Vec::new();
        let mut i: usize = 0;
        while i < entities.len()
            invariant
                i <= entities@.len(),
                entities@ == old(entities)@,
                forall|k: int| 0 <= k < entities@.len() ==> #[trigger] entities@[k] < tree@.len(),
                kept@ == passing(tree@, entities@.take(i as int), self.word@, self.is_fuzzy),
            decreases entities@.len() - i,
        {
            let e = entities[i];
            assert(entities@.take(i + 1).drop_last() =~= entities@.take(i as int));
            if self.filter_entity(tree, e) {
                kept.push(e);
            }
            i = i + 1;
        }
        assert(entities@.take(i as int) =~= entities@);
        *entities = kept;
    }
}

} // verus!
