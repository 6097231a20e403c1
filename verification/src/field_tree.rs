//! Field selections: from a flat list of dotted paths (`"wikidotInfo.title"`)
//! to a forest of named nodes, and from the forest to query text.
//!
//! A forest is kept in one canonical shape: siblings stand in the order of their
//! names and no two of them share a name. The forest built from a list of paths
//! therefore depends only on which paths the list holds.
use vstd::prelude::*;
use vstd::string::StringExecFns;
use crate::field_laws::lemma_selection_of;
use crate::text::{chars_of, copy_text, same_text, split, split_on, str_texts, texts};

verus! {

/// One node of a selection forest.
#[derive(Debug)]
pub enum QueryTree {
    /// A field that is selected whole.
    Node(String),
    /// A field of which the listed sub-fields are selected.
    MotherNode(String, Vec<QueryTree>),
    /// The mark that an empty path leaves behind. It has no name and renders to
    /// nothing.
    Empty,
}

/// What a node is, as a mathematical value.
pub enum Field {
    Leaf(Seq<char>),
    Branch(Seq<char>, Seq<Field>),
    Blank,
}

impl View for QueryTree {
    type V = Field;

    open spec fn view(&self) -> Field
        decreases self,
    {
        match self {
            QueryTree::Node(name) => Field::Leaf(name@),
            QueryTree::MotherNode(name, children) => Field::Branch(
                name@,
                Seq::new(
                    children@.len(),
                    |i: int|
                        if 0 <= i < children@.len() {
                            children@[i]@
                        } else {
                            Field::Blank
                        },
                ),
            ),
            QueryTree::Empty => Field::Blank,
        }
    }
}

/// The forest that a list of nodes stands for.
pub open spec fn forest_view(nodes: Seq<QueryTree>) -> Seq<Field> {
    Seq::new(nodes.len(), |i: int| nodes[i]@)
}

/// The name of a node; the blank mark has none.
pub open spec fn name_of(node: Field) -> Option<Seq<char>> {
    match node {
        Field::Leaf(name) => Some(name),
        Field::Branch(name, _) => Some(name),
        Field::Blank => None,
    }
}

/// The order of names: character by character, a proper prefix first.
pub open spec fn name_lt(a: Seq<char>, b: Seq<char>) -> bool
    decreases a.len(),
{
    if b.len() == 0 {
        false
    } else if a.len() == 0 {
        true
    } else if a[0] != b[0] {
        a[0] < b[0]
    } else {
        name_lt(a.skip(1), b.skip(1))
    }
}

/// Whether the search for `name` ends at `node`: it is named, and its name does
/// not come before `name`.
pub open spec fn stops(node: Field, name: Seq<char>) -> bool {
    name_of(node) matches Some(n) && !name_lt(n, name)
}

/// Where `name` belongs among the nodes of `forest`: the position of the first
/// node at which the search ends, or the length of the forest.
pub open spec fn slot(forest: Seq<Field>, name: Seq<char>) -> int
    decreases forest.len(),
{
    if forest.len() == 0 {
        0
    } else if stops(forest[0], name) {
        0
    } else {
        1 + slot(forest.skip(1), name)
    }
}

/// The single node that a path of at least one segment amounts to: a branch
/// for every segment but the last, which is a leaf.
pub open spec fn chain(path: Seq<Seq<char>>) -> Field
    decreases path.len(),
{
    if path.len() <= 1 {
        Field::Leaf(path[0])
    } else {
        Field::Branch(path[0], seq![chain(path.skip(1))])
    }
}

/// The forest after `path` was added to it.
///
/// The empty path leaves a blank mark at the end. Otherwise the first segment
/// is looked up by name. A node of that name takes the rest of the path among
/// its children (a leaf turns into a branch for that; with no rest, nothing
/// changes). Where there is none, the chain for the path goes in where the
/// name belongs.
pub open spec fn insert_path(forest: Seq<Field>, path: Seq<Seq<char>>) -> Seq<Field>
    decreases path.len(),
{
    if path.len() == 0 {
        forest.push(Field::Blank)
    } else {
        let at = slot(forest, path[0]);
        if at < forest.len() && name_of(forest[at]) == Some(path[0]) {
            if path.len() == 1 {
                forest
            } else {
                match forest[at] {
                    Field::Leaf(name) => forest.update(
                        at,
                        Field::Branch(name, insert_path(Seq::empty(), path.skip(1))),
                    ),
                    Field::Branch(name, children) => forest.update(
                        at,
                        Field::Branch(name, insert_path(children, path.skip(1))),
                    ),
                    Field::Blank => forest,
                }
            }
        } else {
            forest.insert(at, chain(path))
        }
    }
}

/// The forest after all of `paths` were added, first to last.
pub open spec fn insert_all(forest: Seq<Field>, paths: Seq<Seq<Seq<char>>>) -> Seq<Field>
    decreases paths.len(),
{
    if paths.len() == 0 {
        forest
    } else {
        insert_path(insert_all(forest, paths.drop_last()), paths.last())
    }
}

/// The dotted texts of a list, each split into its segments.
pub open spec fn dotted_paths(list: Seq<Seq<char>>) -> Seq<Seq<Seq<char>>> {
    Seq::new(list.len(), |i: int| split_on(list[i], '.'))
}

/// The forest that a list of dotted texts selects.
pub open spec fn selection_of(list: Seq<Seq<char>>) -> Seq<Field> {
    insert_all(Seq::empty(), dotted_paths(list))
}

/// The query text of one node: `name,` for a leaf, `name { children },` for a
/// branch, nothing for the blank mark.
pub open spec fn render_node(node: Field) -> Seq<char>
    decreases node, 1int,
{
    match node {
        Field::Leaf(name) => name + ","@,
        Field::Branch(name, children) => name + " { "@ + render_forest(children) + " },"@,
        Field::Blank => Seq::empty(),
    }
}

/// The query text of a forest: that of its nodes, in order, nothing between.
pub open spec fn render_forest(forest: Seq<Field>) -> Seq<char>
    decreases forest, 0int,
{
    if forest.len() == 0 {
        Seq::empty()
    } else {
        render_forest(forest.drop_last()) + render_node(forest.last())
    }
}

/// The name of a named node.
pub open spec fn label(node: Field) -> Seq<char> {
    match node {
        Field::Leaf(name) => name,
        Field::Branch(name, _) => name,
        Field::Blank => Seq::empty(),
    }
}

/// Whether `q` is a start of `p` with at least one segment.
pub open spec fn is_start_of(q: Seq<Seq<char>>, p: Seq<Seq<char>>) -> bool {
    0 < q.len() <= p.len() && p.take(q.len() as int) == q
}

/// Whether the path `q` leads from `node` downwards: `node` bears the first
/// segment, and the rest, if any, is selected among its children.
pub open spec fn node_selects(node: Field, q: Seq<Seq<char>>) -> bool
    decreases q.len(), 0int,
{
    q.len() > 0 && name_of(node) == Some(q[0]) && (q.len() == 1 || match node {
        Field::Branch(_, children) => selects(children, q.skip(1)),
        _ => false,
    })
}

/// Whether a forest selects the path `q`: some node of it does.
pub open spec fn selects(forest: Seq<Field>, q: Seq<Seq<char>>) -> bool
    decreases q.len(), 1int,
{
    q.len() > 0 && exists|i: int| 0 <= i < forest.len() && node_selects(#[trigger] forest[i], q)
}

/// Whether a node is in canonical shape: it is named, and if it is a branch it
/// has children and they are in canonical shape.
pub open spec fn node_canonical(node: Field) -> bool
    decreases node, 0int,
{
    match node {
        Field::Leaf(_) => true,
        Field::Branch(_, children) => children.len() > 0 && canonical(children),
        Field::Blank => false,
    }
}

/// Whether the names of a forest's nodes strictly rise.
pub open spec fn rising(forest: Seq<Field>) -> bool {
    forall|i: int, j: int|
        0 <= i < j < forest.len() ==> name_lt(
            label(#[trigger] forest[i]),
            label(#[trigger] forest[j]),
        )
}

/// Whether a forest is in canonical shape: its nodes are, and their names
/// strictly rise, so that no two siblings share a name.
pub open spec fn canonical(forest: Seq<Field>) -> bool
    decreases forest, 1int,
{
    &&& rising(forest)
    &&& forall|i: int| 0 <= i < forest.len() ==> node_canonical(#[trigger] forest[i])
}

/// The children that the rest of a path is added to: those of a branch, none
/// for a leaf.
pub open spec fn children_of(node: Field) -> Seq<Field> {
    match node {
        Field::Branch(_, children) => children,
        _ => Seq::empty(),
    }
}

/// Whether `q` is a start of one of `paths`.
pub open spec fn starts_one_of(q: Seq<Seq<char>>, paths: Seq<Seq<Seq<char>>>) -> bool {
    exists|i: int| 0 <= i < paths.len() && is_start_of(q, #[trigger] paths[i])
}

/// Whether every path of a list has at least one segment.
pub open spec fn all_nonempty(paths: Seq<Seq<Seq<char>>>) -> bool {
    forall|i: int| 0 <= i < paths.len() ==> (#[trigger] paths[i]).len() > 0
}

/// What `slot` finds: no search ends before it, and one ends at it unless it is
/// the length of the forest.
pub proof fn lemma_slot(forest: Seq<Field>, name: Seq<char>)
    ensures
        0 <= slot(forest, name) <= forest.len(),
        forall|k: int| 0 <= k < slot(forest, name) ==> !stops(#[trigger] forest[k], name),
        slot(forest, name) < forest.len() ==> stops(forest[slot(forest, name)], name),
    decreases forest.len(),
{
    if forest.len() > 0 && !stops(forest[0], name) {
        let rest = forest.skip(1);
        lemma_slot(rest, name);
        assert forall|k: int| 0 <= k < slot(forest, name) implies !stops(
            #[trigger] forest[k],
            name,
        ) by {
            if k > 0 {
                assert(forest[k] == rest[k - 1]);
            }
        }
        if slot(forest, name) < forest.len() {
            assert(forest[slot(forest, name)] == rest[slot(rest, name)]);
        }
    }
}

/// The position with the properties of `slot` is `slot`.
pub proof fn lemma_slot_is(forest: Seq<Field>, name: Seq<char>, at: int)
    requires
        0 <= at <= forest.len(),
        forall|k: int| 0 <= k < at ==> !stops(#[trigger] forest[k], name),
        at < forest.len() ==> stops(forest[at], name),
    ensures
        slot(forest, name) == at,
{
    lemma_slot(forest, name);
    let s = slot(forest, name);
    if s < at {
        assert(!stops(forest[s], name));
    } else if at < s {
        assert(!stops(forest[at], name));
    }
}

impl QueryTree {
    /// The name of the node, if it has one.
    pub fn name(&self) -> (r: Option<&String>)
        ensures
            match r {
                Some(n) => name_of(self@) == Some(n@),
                None => name_of(self@) is None,
            },
    {
        match self {
            QueryTree::Node(name) => Some(name),
            QueryTree::MotherNode(name, _) => Some(name),
            QueryTree::Empty => None,
        }
    }

    /// The forest for a list of dotted paths. Each text is split at its dots and
    /// added to the forest; the result holds one node for each distinct prefix
    /// of a path, whatever the order of the list.
    pub fn from_vec(info_list: Vec<&str>) -> (forest: Vec<Self>)
        ensures
            forest_view(forest@) == selection_of(str_texts(info_list@)),
            canonical(forest_view(forest@)),
            forall|q: Seq<Seq<char>>|
                selects(forest_view(forest@), q) <==> starts_one_of(
                    q,
                    dotted_paths(str_texts(info_list@)),
                ),
    {
        let mut forest: Vec<QueryTree> = Vec::new();
        let mut i: usize = 0;
        let ghost paths = dotted_paths(str_texts(info_list@));
        assert(paths.take(0) == Seq::<Seq<Seq<char>>>::empty());
        assert(forest_view(forest@) == Seq::<Field>::empty());
        while i < info_list.len()
            invariant
                i <= info_list.len(),
                paths == dotted_paths(str_texts(info_list@)),
                forest_view(forest@) == insert_all(Seq::empty(), paths.take(i as int)),
            decreases info_list.len() - i,
        {
            let path = split(info_list[i], '.');
            proof {
                let next = paths.take(i + 1);
                assert(next.drop_last() == paths.take(i as int));
                assert(next.last() == texts(path@));
            }
            forest = Self::insert(forest, &path);
            i += 1;
        }
        assert(paths.take(info_list@.len() as int) == paths);
        proof {
            lemma_selection_of(str_texts(info_list@), Seq::empty());
            assert forall|q: Seq<Seq<char>>|
                selects(forest_view(forest@), q) <==> starts_one_of(
                    q,
                    dotted_paths(str_texts(info_list@)),
                ) by {
                lemma_selection_of(str_texts(info_list@), q);
            }
        }
        forest
    }

    /// Adds a path to a forest: the forest comes back with a node for every
    /// start of the path that it had none for, each where its name belongs
    /// among its siblings.
    pub fn insert(forest: Vec<Self>, path: &Vec<String>) -> (out: Vec<Self>)
        ensures
            forest_view(out@) == insert_path(forest_view(forest@), texts(path@)),
    {
        assert(texts(path@).skip(0) == texts(path@));
        Self::insert_from(forest, path, 0)
    }

    /// Adds the path `path[start..]` to a forest.
    pub fn insert_from(forest: Vec<Self>, path: &Vec<String>, start: usize) -> (out: Vec<Self>)
        requires
            start <= path.len(),
        ensures
            forest_view(out@) == insert_path(forest_view(forest@), texts(path@).skip(start as int)),
        decreases path.len() - start,
    {
        let mut forest = forest;
        let ghost before = forest_view(forest@);
        let ghost p = texts(path@).skip(start as int);
        if start == path.len() {
            forest.push(QueryTree::Empty);
            assert(forest_view(forest@) == before.push(Field::Blank));
            return forest;
        }
        assert(p[0] == path@[start as int]@);
        assert(p.skip(1) == texts(path@).skip(start + 1));
        let (at, found) = find_slot(&forest, path[start].as_str());
        if !found {
            let node = Self::chain(path, start);
            forest.insert(at, node);
            assert(forest_view(forest@) == before.insert(at as int, chain(p)));
            return forest;
        }
        if start + 1 == path.len() {
            return forest;
        }
        let node = forest.remove(at);
        assert(node@ == before[at as int]);
        let grown = match node {
            QueryTree::Node(name) => {
                let children = Self::insert_from(Vec::new(), path, start + 1);
                assert(forest_view(Seq::<QueryTree>::empty()) == Seq::<Field>::empty());
                proof {
                    lemma_view_branch(name, children);
                }
                QueryTree::MotherNode(name, children)
            },
            QueryTree::MotherNode(name, children) => {
                proof {
                    lemma_view_branch(name, children);
                }
                let children = Self::insert_from(children, path, start + 1);
                proof {
                    lemma_view_branch(name, children);
                }
                QueryTree::MotherNode(name, children)
            },
            QueryTree::Empty => QueryTree::Empty,
        };
        forest.insert(at, grown);
        assert(forest_view(forest@) == before.update(at as int, grown@));
        forest
    }

    /// The node for the path `path[start..]`, which has at least one segment.
    pub fn chain(path: &Vec<String>, start: usize) -> (node: Self)
        requires
            start < path.len(),
        ensures
            node@ == chain(texts(path@).skip(start as int)),
        decreases path.len() - start,
    {
        let ghost p = texts(path@).skip(start as int);
        assert(p[0] == path@[start as int]@);
        let name = copy_text(path[start].as_str());
        if start + 1 == path.len() {
            QueryTree::Node(name)
        } else {
            assert(p.skip(1) == texts(path@).skip(start + 1));
            let child = Self::chain(path, start + 1);
            let mut children: Vec<QueryTree> = Vec::new();
            children.push(child);
            proof {
                lemma_view_branch(name, children);
                assert(forest_view(children@) == seq![child@]);
            }
            QueryTree::MotherNode(name, children)
        }
    }

    /// The query text of the node.
    pub fn render(&self) -> (text: String)
        ensures
            text@ == render_node(self@),
        decreases self,
    {
        match self {
            QueryTree::Node(name) => {
                let mut text = copy_text(name.as_str());
                text.append(",");
                text
            },
            QueryTree::MotherNode(name, children) => {
                proof {
                    lemma_view_branch(*name, *children);
                }
                let mut text = copy_text(name.as_str());
                text.append(" { ");
                let inner = render_all(children);
                text.append(inner.as_str());
                text.append(" },");
                text
            },
            QueryTree::Empty => String::new(),
        }
    }
}

/// The view of a branch is the branch of the views.
pub proof fn lemma_view_branch(name: String, children: Vec<QueryTree>)
    ensures
        QueryTree::MotherNode(name, children)@ == Field::Branch(name@, forest_view(children@)),
{
    let node = QueryTree::MotherNode(name, children);
    assert(node@->Branch_1 =~= forest_view(children@));
}

/// The query text of a forest.
pub fn render_all(forest: &Vec<QueryTree>) -> (text: String)
    ensures
        text@ == render_forest(forest_view(forest@)),
    decreases forest,
{
    let mut text = String::new();
    let mut i: usize = 0;
    let ghost all = forest_view(forest@);
    assert(all.take(0) == Seq::<Field>::empty());
    while i < forest.len()
        invariant
            i <= forest.len(),
            all == forest_view(forest@),
            text@ == render_forest(all.take(i as int)),
        decreases forest.len() - i,
    {
        proof {
            let next = all.take(i + 1);
            assert(next.drop_last() == all.take(i as int));
            assert(next.last() == forest@[i as int]@);
        }
        let piece = forest[i].render();
        text.append(piece.as_str());
        i += 1;
    }
    assert(all.take(forest@.len() as int) == all);
    text
}

/// Whether `a` comes before `b` in the order of names.
pub fn name_before(a: &Vec<char>, b: &Vec<char>) -> (r: bool)
    ensures
        r == name_lt(a@, b@),
{
    let mut k: usize = 0;
    assert(a@.skip(0) == a@ && b@.skip(0) == b@);
    loop
        invariant
            k <= a.len(),
            k <= b.len(),
            name_lt(a@, b@) == name_lt(a@.skip(k as int), b@.skip(k as int)),
        decreases a.len() - k,
    {
        if k == b.len() {
            return false;
        }
        if k == a.len() {
            return true;
        }
        let ghost x = a@.skip(k as int);
        let ghost y = b@.skip(k as int);
        assert(x[0] == a@[k as int] && y[0] == b@[k as int]);
        if a[k] != b[k] {
            return a[k] < b[k];
        }
        assert(x.skip(1) == a@.skip(k + 1) && y.skip(1) == b@.skip(k + 1));
        k += 1;
    }
}

/// Looks `name` up among the nodes of a forest: the position where it belongs,
/// and whether the node there bears it.
pub fn find_slot(forest: &Vec<QueryTree>, name: &str) -> (r: (usize, bool))
    ensures
        r.0 == slot(forest_view(forest@), name@),
        r.0 <= forest.len(),
        r.1 == (r.0 < forest.len() && name_of(forest@[r.0 as int]@) == Some(name@)),
{
    let key = chars_of(name);
    let ghost all = forest_view(forest@);
    let mut i: usize = 0;
    while i < forest.len()
        invariant
            i <= forest.len(),
            all == forest_view(forest@),
            key@ == name@,
            forall|k: int| 0 <= k < i ==> !stops(#[trigger] all[k], name@),
        decreases forest.len() - i,
    {
        assert(all[i as int] == forest@[i as int]@);
        match forest[i].name() {
            Some(n) => {
                let here = chars_of(n.as_str());
                if !name_before(&here, &key) {
                    proof {
                        lemma_slot_is(all, name@, i as int);
                    }
                    return (i, same_text(n.as_str(), name));
                }
            },
            None => {},
        }
        i += 1;
    }
    proof {
        lemma_slot_is(all, name@, i as int);
    }
    (i, false)
}

} // verus!
