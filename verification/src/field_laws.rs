//! What holds of selection forests: that adding a path keeps the canonical
//! shape and adds the starts of the path to what is selected, that a forest
//! in canonical shape is known by what it selects, and so that the forest of
//! a list of paths does not depend on the order of the list.
use vstd::prelude::*;
use crate::text::{lemma_split_on_nonempty, split_on};
use crate::field_tree::{
    all_nonempty, canonical, chain, children_of, dotted_paths, insert_all, insert_path,
    is_start_of, label, lemma_slot, name_lt, name_of, node_canonical, node_selects, render_forest,
    rising, selection_of, selects, slot, starts_one_of, stops, Field,
};

verus! {

/// No name comes before itself.
pub proof fn lemma_name_lt_irreflexive(a: Seq<char>)
    ensures
        !name_lt(a, a),
    decreases a.len(),
{
    if a.len() > 0 {
        lemma_name_lt_irreflexive(a.skip(1));
    }
}

/// The order of names is transitive.
pub proof fn lemma_name_lt_transitive(a: Seq<char>, b: Seq<char>, c: Seq<char>)
    requires
        name_lt(a, b),
        name_lt(b, c),
    ensures
        name_lt(a, c),
    decreases a.len(),
{
    if a.len() > 0 && a[0] == b[0] && b[0] == c[0] {
        lemma_name_lt_transitive(a.skip(1), b.skip(1), c.skip(1));
    }
}

/// Of two different names one comes before the other.
pub proof fn lemma_name_lt_total(a: Seq<char>, b: Seq<char>)
    ensures
        a == b || name_lt(a, b) || name_lt(b, a),
    decreases a.len(),
{
    if a.len() > 0 && b.len() > 0 {
        if a[0] == b[0] {
            lemma_name_lt_total(a.skip(1), b.skip(1));
            if a.skip(1) == b.skip(1) {
                assert(a =~= seq![a[0]] + a.skip(1));
                assert(b =~= seq![b[0]] + b.skip(1));
            }
        }
    } else if a.len() == 0 && b.len() == 0 {
        assert(a =~= b);
    }
}

/// A start of a path, segment by segment.
pub proof fn lemma_start_of_step(q: Seq<Seq<char>>, p: Seq<Seq<char>>)
    requires
        q.len() > 0,
        p.len() > 0,
    ensures
        is_start_of(q, p) <==> q[0] == p[0] && (q.len() == 1 || is_start_of(q.skip(1), p.skip(1))),
{
    let n = q.len() as int;
    if is_start_of(q, p) {
        assert(p.take(n)[0] == q[0]);
        if n > 1 {
            assert(p.skip(1).take(n - 1) =~= p.take(n).skip(1));
        }
    }
    if q[0] == p[0] && (n == 1 || is_start_of(q.skip(1), p.skip(1))) {
        if n == 1 {
            assert(p.take(1) =~= q);
        } else {
            assert(p.skip(1).take(n - 1) =~= p.take(n).skip(1));
            assert(p.take(n) =~= seq![p[0]] + p.take(n).skip(1));
            assert(q =~= seq![q[0]] + q.skip(1));
        }
    }
}

/// The chain for a path selects the starts of that path and nothing else.
pub proof fn lemma_chain_selects(p: Seq<Seq<char>>, q: Seq<Seq<char>>)
    requires
        p.len() > 0,
    ensures
        node_selects(chain(p), q) <==> is_start_of(q, p),
    decreases p.len(),
{
    if q.len() > 0 {
        lemma_start_of_step(q, p);
        if p.len() > 1 {
            let below = seq![chain(p.skip(1))];
            lemma_chain_selects(p.skip(1), q.skip(1));
            if q.len() > 1 {
                if selects(below, q.skip(1)) {
                    let i = choose|i: int|
                        0 <= i < below.len() && node_selects(#[trigger] below[i], q.skip(1));
                    assert(below[i] == chain(p.skip(1)));
                }
                if is_start_of(q.skip(1), p.skip(1)) {
                    assert(node_selects(below[0], q.skip(1)));
                }
            }
        }
    }
}

/// Adding a path never leaves a forest empty, nor shorter than it was.
pub proof fn lemma_insert_len(f: Seq<Field>, p: Seq<Seq<char>>)
    ensures
        insert_path(f, p).len() >= f.len(),
        insert_path(f, p).len() > 0,
{
    if p.len() > 0 {
        lemma_slot(f, p[0]);
    }
}

/// Adding a path with a rest below a node that bears its first segment.
proof fn lemma_insert_below(f: Seq<Field>, p: Seq<Seq<char>>)
    requires
        p.len() > 1,
        slot(f, p[0]) < f.len(),
        name_of(f[slot(f, p[0])]) == Some(p[0]),
    ensures
        insert_path(f, p) == f.update(
            slot(f, p[0]),
            Field::Branch(p[0], insert_path(children_of(f[slot(f, p[0])]), p.skip(1))),
        ),
{
}

/// What a forest selects after a path was added: what it selected before, and
/// the starts of the path.
pub proof fn lemma_insert_selects(f: Seq<Field>, p: Seq<Seq<char>>, q: Seq<Seq<char>>)
    requires
        p.len() > 0,
    ensures
        selects(insert_path(f, p), q) <==> selects(f, q) || is_start_of(q, p),
    decreases p.len(),
{
    lemma_slot(f, p[0]);
    let at = slot(f, p[0]);
    let out = insert_path(f, p);
    if q.len() == 0 {
        return ;
    }
    lemma_start_of_step(q, p);
    if at < f.len() && name_of(f[at]) == Some(p[0]) {
        if p.len() == 1 {
            if is_start_of(q, p) {
                assert(node_selects(f[at], q));
            }
        } else {
            let rest = p.skip(1);
            let kids = children_of(f[at]);
            let grown = insert_path(kids, rest);
            lemma_insert_below(f, p);
            assert(out == f.update(at, Field::Branch(p[0], grown)));
            if q.len() > 1 {
                lemma_insert_selects(kids, rest, q.skip(1));
            }
            if selects(out, q) {
                let i = choose|i: int| 0 <= i < out.len() && node_selects(#[trigger] out[i], q);
                if i != at {
                    assert(node_selects(f[i], q));
                } else if q.len() > 1 {
                    if selects(kids, q.skip(1)) {
                        assert(node_selects(f[at], q));
                    }
                }
            }
            if selects(f, q) {
                let i = choose|i: int| 0 <= i < f.len() && node_selects(#[trigger] f[i], q);
                if i != at {
                    assert(node_selects(out[i], q));
                } else {
                    assert(node_selects(out[at], q));
                }
            }
            if is_start_of(q, p) {
                assert(node_selects(out[at], q));
            }
        }
    } else {
        assert(out == f.insert(at, chain(p)));
        lemma_chain_selects(p, q);
        if selects(out, q) {
            let i = choose|i: int| 0 <= i < out.len() && node_selects(#[trigger] out[i], q);
            if i < at {
                assert(node_selects(f[i], q));
            } else if i > at {
                assert(node_selects(f[i - 1], q));
            }
        }
        if selects(f, q) {
            let i = choose|i: int| 0 <= i < f.len() && node_selects(#[trigger] f[i], q);
            if i < at {
                assert(node_selects(out[i], q));
            } else {
                assert(out[i + 1] == f[i]);
                assert(node_selects(out[i + 1], q));
            }
        }
        if is_start_of(q, p) {
            assert(node_selects(out[at], q));
        }
    }
}

/// The chain for a path is in canonical shape.
pub proof fn lemma_chain_canonical(p: Seq<Seq<char>>)
    requires
        p.len() > 0,
    ensures
        node_canonical(chain(p)),
        label(chain(p)) == p[0],
    decreases p.len(),
{
    if p.len() > 1 {
        lemma_chain_canonical(p.skip(1));
        let below = seq![chain(p.skip(1))];
        assert(canonical(below));
    }
}

/// Adding a path of at least one segment keeps a forest in canonical shape.
pub proof fn lemma_insert_canonical(f: Seq<Field>, p: Seq<Seq<char>>)
    requires
        canonical(f),
        p.len() > 0,
    ensures
        canonical(insert_path(f, p)),
    decreases p.len(),
{
    lemma_slot(f, p[0]);
    let at = slot(f, p[0]);
    let out = insert_path(f, p);
    if at < f.len() && name_of(f[at]) == Some(p[0]) {
        if p.len() > 1 {
            let rest = p.skip(1);
            let kids = children_of(f[at]);
            let grown = insert_path(kids, rest);
            lemma_insert_below(f, p);
            assert(node_canonical(f[at]));
            assert(canonical(kids));
            lemma_insert_canonical(kids, rest);
            lemma_insert_len(kids, rest);
            assert(node_canonical(out[at]));
            assert forall|i: int| 0 <= i < out.len() implies node_canonical(#[trigger] out[i]) by {
                if i != at {
                    assert(out[i] == f[i]);
                }
            }
            assert forall|i: int, j: int| 0 <= i < j < out.len() implies name_lt(
                label(#[trigger] out[i]),
                label(#[trigger] out[j]),
            ) by {
                assert(label(out[i]) == label(f[i]));
                assert(label(out[j]) == label(f[j]));
            }
        }
    } else {
        lemma_chain_canonical(p);
        assert(out == f.insert(at, chain(p)));
        assert forall|i: int| 0 <= i < out.len() implies node_canonical(#[trigger] out[i]) by {
            if i < at {
                assert(out[i] == f[i]);
            } else if i > at {
                assert(out[i] == f[i - 1]);
            }
        }
        assert forall|k: int| 0 <= k < at implies name_lt(label(#[trigger] f[k]), p[0]) by {
            assert(node_canonical(f[k]));
            assert(!stops(f[k], p[0]));
        }
        assert forall|k: int| at <= k < f.len() implies name_lt(p[0], label(#[trigger] f[k])) by {
            assert(node_canonical(f[at]));
            assert(stops(f[at], p[0]));
            lemma_name_lt_total(p[0], label(f[at]));
            if k > at {
                lemma_name_lt_transitive(p[0], label(f[at]), label(f[k]));
            }
        }
        assert forall|i: int, j: int| 0 <= i < j < out.len() implies name_lt(
            label(#[trigger] out[i]),
            label(#[trigger] out[j]),
        ) by {
            let a = if i < at { i } else { i - 1 };
            let b = if j < at { j } else { j - 1 };
            if i != at {
                assert(out[i] == f[a]);
            }
            if j != at {
                assert(out[j] == f[b]);
            }
        }
    }
}

/// In a canonical forest a name is borne by one node only.
pub proof fn lemma_one_node_per_name(f: Seq<Field>, i: int, j: int)
    requires
        rising(f),
        0 <= i < f.len(),
        0 <= j < f.len(),
        label(f[i]) == label(f[j]),
    ensures
        i == j,
{
    lemma_name_lt_irreflexive(label(f[i]));
}

/// In a canonical forest, a path is selected by the forest exactly when the
/// node that bears its first segment selects it.
pub proof fn lemma_selects_through(f: Seq<Field>, i: int, q: Seq<Seq<char>>)
    requires
        rising(f),
        0 <= i < f.len(),
        q.len() > 0,
        name_of(f[i]) == Some(q[0]),
    ensures
        selects(f, q) <==> node_selects(f[i], q),
{
    if selects(f, q) {
        let k = choose|k: int| 0 <= k < f.len() && node_selects(#[trigger] f[k], q);
        lemma_one_node_per_name(f, i, k);
    }
}

/// A canonical forest without its last node selects what the whole forest
/// selects, but for the paths that begin with the name of the last node.
pub proof fn lemma_selects_drop_last(f: Seq<Field>, q: Seq<Seq<char>>)
    requires
        canonical(f),
        f.len() > 0,
    ensures
        canonical(f.drop_last()),
        selects(f.drop_last(), q) <==> selects(f, q) && q[0] != label(f.last()),
{
    let shorter = f.drop_last();
    let last = f.len() - 1;
    assert forall|i: int| 0 <= i < shorter.len() implies node_canonical(#[trigger] shorter[i]) by {
        assert(shorter[i] == f[i]);
    }
    assert forall|i: int, j: int| 0 <= i < j < shorter.len() implies name_lt(
        label(#[trigger] shorter[i]),
        label(#[trigger] shorter[j]),
    ) by {
        assert(shorter[i] == f[i] && shorter[j] == f[j]);
    }
    if selects(shorter, q) {
        let i = choose|i: int| 0 <= i < shorter.len() && node_selects(#[trigger] shorter[i], q);
        assert(shorter[i] == f[i]);
        assert(node_selects(f[i], q));
        if q[0] == label(f.last()) {
            assert(node_canonical(f[i]));
            lemma_one_node_per_name(f, i, last);
        }
    }
    if selects(f, q) && q[0] != label(f.last()) {
        let i = choose|i: int| 0 <= i < f.len() && node_selects(#[trigger] f[i], q);
        assert(node_canonical(f[i]));
        assert(i != last);
        assert(node_selects(shorter[i], q));
    }
}

/// Two named nodes of canonical forests that select the same paths bear the
/// same name at the end of those forests.
proof fn lemma_same_last_name(f: Seq<Field>, g: Seq<Field>)
    requires
        canonical(f),
        canonical(g),
        f.len() > 0,
        forall|q: Seq<Seq<char>>| selects(f, q) == selects(g, q),
    ensures
        g.len() > 0,
        label(f.last()) == label(g.last()),
{
    let a = f.last();
    let qa = seq![label(a)];
    assert(node_canonical(a));
    assert(node_selects(a, qa));
    assert(selects(f, qa));
    assert(selects(g, qa));
    let j = choose|j: int| 0 <= j < g.len() && node_selects(#[trigger] g[j], qa);
    assert(node_canonical(g[j]));
    let b = g.last();
    let qb = seq![label(b)];
    assert(node_canonical(b));
    assert(node_selects(b, qb));
    assert(selects(g, qb));
    assert(selects(f, qb));
    let i = choose|i: int| 0 <= i < f.len() && node_selects(#[trigger] f[i], qb);
    assert(node_canonical(f[i]));
    if i < f.len() - 1 {
        assert(name_lt(label(f[i]), label(f[f.len() - 1])));
        if j < g.len() - 1 {
            assert(name_lt(label(g[j]), label(g[g.len() - 1])));
            lemma_name_lt_transitive(label(b), label(a), label(b));
        }
        lemma_name_lt_irreflexive(label(b));
    }
}

/// Two canonical forests that select the same paths are the same forest.
pub proof fn lemma_canonical_unique(f: Seq<Field>, g: Seq<Field>)
    requires
        canonical(f),
        canonical(g),
        forall|q: Seq<Seq<char>>| selects(f, q) == selects(g, q),
    ensures
        f == g,
    decreases f,
{
    if f.len() == 0 {
        if g.len() > 0 {
            let q = seq![label(g[0])];
            assert(node_canonical(g[0]));
            assert(node_selects(g[0], q));
            assert(selects(g, q));
        }
        assert(f =~= g);
    } else {
        lemma_same_last_name(f, g);
        let a = f.last();
        let b = g.last();
        let name = label(a);
        let fl = f.len() - 1;
        let gl = g.len() - 1;
        assert(node_canonical(a) && node_canonical(b));
        // The last nodes select the same paths.
        assert forall|q: Seq<Seq<char>>| q.len() > 0 && q[0] == name implies node_selects(a, q)
            == node_selects(b, q) by {
            lemma_selects_through(f, fl, q);
            lemma_selects_through(g, gl, q);
        }
        // So they are of one kind, and their children select the same paths.
        if a is Branch {
            let first = children_of(a)[0];
            let q2 = seq![name, label(first)];
            assert(node_canonical(first));
            assert(q2.skip(1) =~= seq![label(first)]);
            assert(node_selects(first, q2.skip(1)));
            assert(node_selects(a, q2));
        }
        if b is Branch {
            let first = children_of(b)[0];
            let q2 = seq![name, label(first)];
            assert(node_canonical(first));
            assert(q2.skip(1) =~= seq![label(first)]);
            assert(node_selects(first, q2.skip(1)));
            assert(node_selects(b, q2));
        }
        if a is Branch {
            let ca = children_of(a);
            let cb = children_of(b);
            assert forall|q: Seq<Seq<char>>| selects(ca, q) == selects(cb, q) by {
                if q.len() > 0 {
                    let longer = seq![name] + q;
                    assert(longer.skip(1) =~= q);
                    assert(node_selects(a, longer) == node_selects(b, longer));
                }
            }
            lemma_canonical_unique(ca, cb);
        }
        assert(a == b);
        // The forests before the last nodes select the same paths.
        assert forall|q: Seq<Seq<char>>| selects(f.drop_last(), q) == selects(g.drop_last(), q) by {
            lemma_selects_drop_last(f, q);
            lemma_selects_drop_last(g, q);
        }
        lemma_selects_drop_last(f, Seq::empty());
        lemma_selects_drop_last(g, Seq::empty());
        lemma_canonical_unique(f.drop_last(), g.drop_last());
        assert(f =~= f.drop_last().push(a));
        assert(g =~= g.drop_last().push(b));
    }
}

/// What a forest selects after a list of paths was added, and that it stays
/// in canonical shape.
pub proof fn lemma_insert_all(f: Seq<Field>, paths: Seq<Seq<Seq<char>>>, q: Seq<Seq<char>>)
    requires
        all_nonempty(paths),
    ensures
        selects(insert_all(f, paths), q) <==> selects(f, q) || starts_one_of(q, paths),
        canonical(f) ==> canonical(insert_all(f, paths)),
    decreases paths.len(),
{
    if paths.len() > 0 {
        let before = paths.drop_last();
        let p = paths.last();
        assert forall|i: int| 0 <= i < before.len() implies (#[trigger] before[i]).len() > 0 by {
            assert(before[i] == paths[i]);
        }
        lemma_insert_all(f, before, q);
        let mid = insert_all(f, before);
        lemma_insert_selects(mid, p, q);
        if canonical(f) {
            lemma_insert_canonical(mid, p);
        }
        if starts_one_of(q, before) {
            let i = choose|i: int| 0 <= i < before.len() && is_start_of(q, #[trigger] before[i]);
            assert(before[i] == paths[i]);
        }
        if is_start_of(q, p) {
            assert(paths[paths.len() - 1] == p);
        }
        if starts_one_of(q, paths) {
            let i = choose|i: int| 0 <= i < paths.len() && is_start_of(q, #[trigger] paths[i]);
            if i < before.len() {
                assert(before[i] == paths[i]);
            }
        }
    }
}

/// The paths of a list of dotted texts all have a segment.
pub proof fn lemma_dotted_paths_nonempty(list: Seq<Seq<char>>)
    ensures
        all_nonempty(dotted_paths(list)),
{
    assert forall|i: int| 0 <= i < list.len() implies (#[trigger] dotted_paths(list)[i]).len()
        > 0 by {
        lemma_split_on_nonempty(list[i], '.');
    }
}

/// The forest of a list of dotted texts is in canonical shape, and selects
/// exactly the starts of the listed paths.
pub proof fn lemma_selection_of(list: Seq<Seq<char>>, q: Seq<Seq<char>>)
    ensures
        canonical(selection_of(list)),
        selects(selection_of(list), q) <==> starts_one_of(q, dotted_paths(list)),
{
    lemma_dotted_paths_nonempty(list);
    assert(canonical(Seq::<Field>::empty()));
    lemma_insert_all(Seq::empty(), dotted_paths(list), q);
}

/// Two lists of dotted texts that hold the same texts give the same forest and
/// the same query text, however often and in whatever order each text stands
/// in them.
pub proof fn lemma_selection_by_content(a: Seq<Seq<char>>, b: Seq<Seq<char>>)
    requires
        forall|x: Seq<char>| a.contains(x) <==> b.contains(x),
    ensures
        selection_of(a) == selection_of(b),
        render_forest(selection_of(a)) == render_forest(selection_of(b)),
{
    let pa = dotted_paths(a);
    let pb = dotted_paths(b);
    assert forall|q: Seq<Seq<char>>| selects(selection_of(a), q) == selects(
        selection_of(b),
        q,
    ) by {
        lemma_selection_of(a, q);
        lemma_selection_of(b, q);
        if starts_one_of(q, pa) {
            let i = choose|i: int| 0 <= i < pa.len() && is_start_of(q, #[trigger] pa[i]);
            assert(a.contains(a[i]));
            let j = choose|j: int| 0 <= j < b.len() && b[j] == a[i];
            assert(pb[j] == pa[i]);
        }
        if starts_one_of(q, pb) {
            let j = choose|j: int| 0 <= j < pb.len() && is_start_of(q, #[trigger] pb[j]);
            assert(b.contains(b[j]));
            let i = choose|i: int| 0 <= i < a.len() && a[i] == b[j];
            assert(pa[i] == pb[j]);
        }
    }
    lemma_selection_of(a, Seq::empty());
    lemma_selection_of(b, Seq::empty());
    lemma_canonical_unique(selection_of(a), selection_of(b));
}

/// The query text of a list of dotted paths is the same for every reordering
/// of the list.
pub proof fn lemma_render_order_free(a: Seq<Seq<char>>, b: Seq<Seq<char>>)
    requires
        a.to_multiset() == b.to_multiset(),
    ensures
        selection_of(a) == selection_of(b),
        render_forest(selection_of(a)) == render_forest(selection_of(b)),
{
    a.to_multiset_ensures();
    b.to_multiset_ensures();
    assert forall|x: Seq<char>| a.contains(x) <==> b.contains(x) by {
        assert(a.contains(x) <==> a.to_multiset().count(x) > 0);
        assert(b.contains(x) <==> b.to_multiset().count(x) > 0);
    }
    lemma_selection_by_content(a, b);
}

/// Adding a path that was added before changes nothing: a path and its
/// duplicate leave one node, not two.
pub proof fn lemma_insert_twice(f: Seq<Field>, p: Seq<Seq<char>>)
    requires
        canonical(f),
        p.len() > 0,
    ensures
        insert_path(insert_path(f, p), p) == insert_path(f, p),
{
    let once = insert_path(f, p);
    let twice = insert_path(once, p);
    lemma_insert_canonical(f, p);
    lemma_insert_canonical(once, p);
    assert forall|q: Seq<Seq<char>>| selects(twice, q) == selects(once, q) by {
        lemma_insert_selects(f, p, q);
        lemma_insert_selects(once, p, q);
    }
    lemma_canonical_unique(twice, once);
}

/// Two paths can be added in either order.
pub proof fn lemma_insert_commutes(f: Seq<Field>, p: Seq<Seq<char>>, r: Seq<Seq<char>>)
    requires
        canonical(f),
        p.len() > 0,
        r.len() > 0,
    ensures
        insert_path(insert_path(f, p), r) == insert_path(insert_path(f, r), p),
{
    let pr = insert_path(insert_path(f, p), r);
    let rp = insert_path(insert_path(f, r), p);
    lemma_insert_canonical(f, p);
    lemma_insert_canonical(f, r);
    lemma_insert_canonical(insert_path(f, p), r);
    lemma_insert_canonical(insert_path(f, r), p);
    assert forall|q: Seq<Seq<char>>| selects(pr, q) == selects(rp, q) by {
        lemma_insert_selects(f, p, q);
        lemma_insert_selects(f, r, q);
        lemma_insert_selects(insert_path(f, p), r, q);
        lemma_insert_selects(insert_path(f, r), p, q);
    }
    lemma_canonical_unique(pr, rp);
}

} // verus!
