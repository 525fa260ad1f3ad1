//! The building navigation tree: finding nodes, their parents and the
//! spatial ancestors (site, building, floor, space) of a node, and what
//! adding a node offers and creates.

use vstd::prelude::*;

use crate::text::{opt_text, push_str, str_eq};

verus! {

/// Kind of a navigation node and the id of the node it stands for in the
/// node store.
#[derive(Debug, Clone)]
pub enum NavNodeKind {
    Site { node_id: String },
    Building { node_id: String },
    Floor { node_id: String },
    FloorArea { node_id: String },
    Room { node_id: String },
}

/// A node of the navigation tree.
#[derive(Debug)]
pub struct NavNode {
    pub id: String,
    pub kind: NavNodeKind,
    pub children: Vec<NavNode>,
}

/// The nodes of a forest in pre-order: each node, then its descendants,
/// then its following siblings and theirs.
pub open spec fn preorder(nodes: Seq<NavNode>) -> Seq<NavNode>
    decreases nodes,
{
    if nodes.len() == 0 {
        seq![]
    } else {
        seq![nodes[0]] + preorder(nodes[0].children@) + preorder(nodes.subrange(1, nodes.len() as int))
    }
}


/// Pre-order of a concatenation is the concatenation of the pre-orders.
pub proof fn lemma_preorder_append(a: Seq<NavNode>, b: Seq<NavNode>)
    ensures
        preorder(a + b) == preorder(a) + preorder(b),
    decreases a.len(),
{
    if a.len() == 0 {
        assert(a + b =~= b);
        assert(preorder(a) =~= Seq::<NavNode>::empty());
        assert(preorder(a) + preorder(b) =~= preorder(b));
    } else {
        let ab = a + b;
        assert(ab[0] == a[0]);
        assert(ab.subrange(1, ab.len() as int) =~= a.subrange(1, a.len() as int) + b);
        lemma_preorder_append(a.subrange(1, a.len() as int), b);
        assert(preorder(ab) =~= preorder(a) + preorder(b));
    }
}

/// Pre-order of the first `i + 1` nodes extends that of the first `i` by
/// node `i` and its descendants.
pub proof fn lemma_preorder_take(nodes: Seq<NavNode>, i: int)
    requires
        0 <= i < nodes.len(),
    ensures
        preorder(nodes.take(i + 1)) == preorder(nodes.take(i)) + seq![nodes[i]] + preorder(nodes[i].children@),
{
    let one = seq![nodes[i]];
    assert(nodes.take(i + 1) =~= nodes.take(i) + one);
    lemma_preorder_append(nodes.take(i), one);
    assert(one.subrange(1, 1) =~= Seq::<NavNode>::empty());
    assert(preorder(one) =~= seq![nodes[i]] + preorder(nodes[i].children@) + preorder(Seq::<NavNode>::empty()));
    assert(preorder(Seq::<NavNode>::empty()) =~= Seq::<NavNode>::empty());
}

/// Some node of `s` satisfies `p`.
pub open spec fn any_where(s: Seq<NavNode>, p: spec_fn(NavNode) -> bool) -> bool {
    exists|k: int| 0 <= k < s.len() && p(#[trigger] s[k])
}

/// The first node of `s` that satisfies `p`.
pub open spec fn first_where(s: Seq<NavNode>, p: spec_fn(NavNode) -> bool) -> Option<NavNode> {
    if any_where(s, p) {
        let k = choose|k: int| 0 <= k < s.len() && p(s[k]) && forall|j: int| 0 <= j < k ==> !p(#[trigger] s[j]);
        Some(s[k])
    } else {
        None
    }
}

/// The node has id `id`.
pub open spec fn id_is(id: Seq<char>) -> spec_fn(NavNode) -> bool {
    |n: NavNode| n.id@ == id
}

/// The node has a direct child with id `id`.
pub open spec fn parent_of(id: Seq<char>) -> spec_fn(NavNode) -> bool {
    |n: NavNode| any_where(n.children@, id_is(id))
}

/// A sequence with a match has a least matching index.
pub proof fn lemma_least_index_exists(s: Seq<NavNode>, p: spec_fn(NavNode) -> bool, k: int)
    requires
        0 <= k < s.len(),
        p(s[k]),
    ensures
        exists|m: int| 0 <= m < s.len() && p(s[m]) && forall|j: int| 0 <= j < m ==> !p(#[trigger] s[j]),
    decreases k,
{
    if exists|j: int| 0 <= j < k && p(#[trigger] s[j]) {
        let j = choose|j: int| 0 <= j < k && p(#[trigger] s[j]);
        lemma_least_index_exists(s, p, j);
    }
}

/// The first match in a concatenation lies in the first part if it has
/// one, else in the second.
pub proof fn lemma_first_where_append(a: Seq<NavNode>, b: Seq<NavNode>, p: spec_fn(NavNode) -> bool)
    ensures
        first_where(a + b, p) == if any_where(a, p) { first_where(a, p) } else { first_where(b, p) },
        any_where(a + b, p) == (any_where(a, p) || any_where(b, p)),
{
    let ab = a + b;
    if any_where(a, p) {
        let k0 = choose|k: int| 0 <= k < a.len() && p(#[trigger] a[k]);
        lemma_least_index_exists(a, p, k0);
        let ka = choose|k: int| 0 <= k < a.len() && p(a[k]) && forall|j: int| 0 <= j < k ==> !p(#[trigger] a[j]);
        assert(ab[ka] == a[ka]);
        assert(any_where(ab, p));
        lemma_least_index_exists(ab, p, ka);
        let kab = choose|k: int| 0 <= k < ab.len() && p(ab[k]) && forall|j: int| 0 <= j < k ==> !p(#[trigger] ab[j]);
        if kab < ka {
            assert(ab[kab] == a[kab]);
        } else if ka < kab {
            assert(!p(ab[ka]));
        }
    } else {
        if any_where(b, p) {
            let k0 = choose|k: int| 0 <= k < b.len() && p(#[trigger] b[k]);
            lemma_least_index_exists(b, p, k0);
            let kb = choose|k: int| 0 <= k < b.len() && p(b[k]) && forall|j: int| 0 <= j < k ==> !p(#[trigger] b[j]);
            assert(ab[a.len() + kb] == b[kb]);
            assert(any_where(ab, p));
            lemma_least_index_exists(ab, p, a.len() + kb);
            let kab = choose|k: int| 0 <= k < ab.len() && p(ab[k]) && forall|j: int| 0 <= j < k ==> !p(#[trigger] ab[j]);
            if kab < a.len() {
                assert(ab[kab] == a[kab]);
            } else {
                assert(ab[kab] == b[kab - a.len()]);
                if kab - a.len() > kb {
                    assert(!p(ab[a.len() + kb]));
                }
            }
        } else {
            assert forall|k: int| 0 <= k < ab.len() implies !p(#[trigger] ab[k]) by {
                if k < a.len() {
                    assert(ab[k] == a[k]);
                } else {
                    assert(ab[k] == b[k - a.len()]);
                }
            }
        }
    }
}

/// Facts about the first match after the first `i` nodes of a forest and
/// the pre-order of the remaining ones.
pub proof fn lemma_step(tree: Seq<NavNode>, i: int, p: spec_fn(NavNode) -> bool)
    requires
        0 <= i < tree.len(),
        !any_where(preorder(tree.take(i)), p),
    ensures
        !p(tree[i]) && !any_where(preorder(tree[i].children@), p) ==> !any_where(preorder(tree.take(i + 1)), p),
        p(tree[i]) ==> first_where(preorder(tree), p) == Some(tree[i]),
        !p(tree[i]) && any_where(preorder(tree[i].children@), p) ==> first_where(preorder(tree), p) == first_where(preorder(tree[i].children@), p),
{
    let one = seq![tree[i]];
    lemma_preorder_take(tree, i);
    lemma_first_where_append(preorder(tree.take(i)), one, p);
    lemma_first_where_append(preorder(tree.take(i)) + one, preorder(tree[i].children@), p);
    lemma_preorder_append(tree.take(i + 1), tree.subrange(i + 1, tree.len() as int));
    assert(tree.take(i + 1) + tree.subrange(i + 1, tree.len() as int) =~= tree);
    lemma_first_where_append(preorder(tree.take(i + 1)), preorder(tree.subrange(i + 1, tree.len() as int)), p);
    if p(tree[i]) {
        assert(one[0] == tree[i]);
        lemma_least_index_exists(one, p, 0);
    } else {
        assert forall|k: int| 0 <= k < one.len() implies !p(#[trigger] one[k]) by {
            assert(one[k] == tree[i]);
        }
    }
}

/// Find a nav node by id: the first node in pre-order with that id.
pub fn find_nav_node<'a>(tree: &'a [NavNode], id: &str) -> (r: Option<&'a NavNode>)
    ensures
        match r {
            Some(n) => first_where(preorder(tree@), id_is(id@)) == Some(*n),
            None => first_where(preorder(tree@), id_is(id@)) is None,
        },
    decreases tree@,
{
    let ghost p = id_is(id@);
    let mut i: usize = 0;
    while i < tree.len()
        invariant
            i <= tree@.len(),
            p == id_is(id@),
            !any_where(preorder(tree@.take(i as int)), p),
        decreases tree.len() - i,
    {
        let node = &tree[i];
        proof {
            lemma_step(tree@, i as int, p);
        }
        if str_eq(node.id.as_str(), id) {
            return Some(node);
        }
        proof {
            assert(decreases_to!(tree@ => tree@[i as int]));
        }
        match find_nav_node(node.children.as_slice(), id) {
            Some(found) => {
                return Some(found);
            },
            None => {},
        }
        i = i + 1;
    }
    proof {
        assert(tree@.take(i as int) =~= tree@);
    }
    None
}

/// Whether one of the nodes has id `id`.
fn has_child_with_id(children: &Vec<NavNode>, id: &str) -> (r: bool)
    ensures
        r == any_where(children@, id_is(id@)),
{
    let mut j: usize = 0;
    while j < children.len()
        invariant
            j <= children@.len(),
            forall|k: int| 0 <= k < j ==> !id_is(id@)(#[trigger] children@[k]),
        decreases children.len() - j,
    {
        if str_eq(children[j].id.as_str(), id) {
            assert(id_is(id@)(children@[j as int]));
            return true;
        }
        j = j + 1;
    }
    false
}

/// Find the parent of a nav node by id: the first node in pre-order that
/// has a direct child with that id.
pub fn find_nav_parent<'a>(tree: &'a [NavNode], child_id: &str) -> (r: Option<&'a NavNode>)
    ensures
        match r {
            Some(n) => first_where(preorder(tree@), parent_of(child_id@)) == Some(*n),
            None => first_where(preorder(tree@), parent_of(child_id@)) is None,
        },
    decreases tree@,
{
    let ghost p = parent_of(child_id@);
    let mut i: usize = 0;
    while i < tree.len()
        invariant
            i <= tree@.len(),
            p == parent_of(child_id@),
            !any_where(preorder(tree@.take(i as int)), p),
        decreases tree.len() - i,
    {
        let node = &tree[i];
        proof {
            lemma_step(tree@, i as int, p);
        }
        if has_child_with_id(&node.children, child_id) {
            return Some(node);
        }
        proof {
            assert(decreases_to!(tree@ => tree@[i as int]));
        }
        match find_nav_parent(node.children.as_slice(), child_id) {
            Some(found) => {
                return Some(found);
            },
            None => {},
        }
        i = i + 1;
    }
    proof {
        assert(tree@.take(i as int) =~= tree@);
    }
    None
}


// ----------------------------------------------------------------
// Paths and unique ids
// ----------------------------------------------------------------

/// The path from a root of the forest down to the first node, in
/// pre-order, with id `id`.
pub open spec fn path_in(nodes: Seq<NavNode>, id: Seq<char>) -> Option<Seq<NavNode>>
    decreases nodes,
{
    if nodes.len() == 0 {
        None
    } else if nodes[0].id@ == id {
        Some(seq![nodes[0]])
    } else {
        match path_in(nodes[0].children@, id) {
            Some(q) => Some(seq![nodes[0]] + q),
            None => path_in(nodes.subrange(1, nodes.len() as int), id),
        }
    }
}

/// No two nodes of the forest share an id.
pub open spec fn unique_ids(nodes: Seq<NavNode>) -> bool {
    let pre = preorder(nodes);
    forall|i: int, j: int| 0 <= i < j < pre.len() ==> (#[trigger] pre[i]).id@ != (#[trigger] pre[j]).id@
}

/// The pre-order of a non-empty forest: first root, its descendants, then
/// the rest.
pub proof fn lemma_preorder_unfold(nodes: Seq<NavNode>)
    requires
        nodes.len() > 0,
    ensures
        preorder(nodes) == seq![nodes[0]] + preorder(nodes[0].children@) + preorder(nodes.subrange(1, nodes.len() as int)),
{
}

/// Membership in a concatenation.
pub proof fn lemma_contains_concat(a: Seq<NavNode>, b: Seq<NavNode>, x: NavNode)
    ensures
        (a + b).contains(x) <==> (a.contains(x) || b.contains(x)),
{
    if (a + b).contains(x) {
        let i = choose|i: int| 0 <= i < (a + b).len() && (a + b)[i] == x;
        if i < a.len() {
            assert(a[i] == x);
        } else {
            assert(b[i - a.len()] == x);
        }
    }
    if a.contains(x) {
        let i = choose|i: int| 0 <= i < a.len() && a[i] == x;
        assert((a + b)[i] == x);
    }
    if b.contains(x) {
        let i = choose|i: int| 0 <= i < b.len() && b[i] == x;
        assert((a + b)[a.len() + i] == x);
    }
}

/// Membership in the three parts of an unfolded pre-order.
pub proof fn lemma_preorder_contains(nodes: Seq<NavNode>, x: NavNode)
    requires
        nodes.len() > 0,
    ensures
        preorder(nodes).contains(x) <==> (x == nodes[0] || preorder(nodes[0].children@).contains(x)
            || preorder(nodes.subrange(1, nodes.len() as int)).contains(x)),
{
    let one = seq![nodes[0]];
    let a = preorder(nodes[0].children@);
    let b = preorder(nodes.subrange(1, nodes.len() as int));
    lemma_contains_concat(one + a, b, x);
    lemma_contains_concat(one, a, x);
    if one.contains(x) {
        let i = choose|i: int| 0 <= i < one.len() && one[i] == x;
    }
    if x == nodes[0] {
        assert(one[0] == x);
    }
}

/// The roots of a forest are in its pre-order.
pub proof fn lemma_roots_in_preorder(nodes: Seq<NavNode>, r: NavNode)
    requires
        nodes.contains(r),
    ensures
        preorder(nodes).contains(r),
    decreases nodes.len(),
{
    lemma_preorder_contains(nodes, r);
    if r != nodes[0] {
        let i = choose|i: int| 0 <= i < nodes.len() && nodes[i] == r;
        assert(nodes.subrange(1, nodes.len() as int)[i - 1] == r);
        lemma_roots_in_preorder(nodes.subrange(1, nodes.len() as int), r);
    }
}

/// The children of a node of the pre-order are in the pre-order.
pub proof fn lemma_child_in_preorder(nodes: Seq<NavNode>, x: NavNode, c: NavNode)
    requires
        preorder(nodes).contains(x),
        x.children@.contains(c),
    ensures
        preorder(nodes).contains(c),
    decreases nodes,
{
    if nodes.len() == 0 {
        assert(preorder(nodes) =~= Seq::<NavNode>::empty());
    } else {
        lemma_preorder_contains(nodes, x);
        lemma_preorder_contains(nodes, c);
        if x == nodes[0] {
            lemma_roots_in_preorder(nodes[0].children@, c);
        } else if preorder(nodes[0].children@).contains(x) {
            assert(decreases_to!(nodes => nodes[0]));
            lemma_child_in_preorder(nodes[0].children@, x, c);
        } else {
            lemma_child_in_preorder(nodes.subrange(1, nodes.len() as int), x, c);
        }
    }
}

/// An id occurs in the pre-order exactly when it has a path, and the path
/// leads from a root down through children to a node with that id, all of
/// it within the pre-order.
pub proof fn lemma_path_in(nodes: Seq<NavNode>, id: Seq<char>)
    ensures
        path_in(nodes, id) is Some <==> any_where(preorder(nodes), id_is(id)),
        path_in(nodes, id) matches Some(p) ==> {
            &&& p.len() >= 1
            &&& p.last().id@ == id
            &&& nodes.contains(p[0])
            &&& forall|k: int| 0 <= k < p.len() ==> preorder(nodes).contains(#[trigger] p[k])
            &&& forall|k: int| 0 <= k < p.len() - 1 ==> (#[trigger] p[k]).children@.contains(p[k + 1])
        },
    decreases nodes,
{
    let pre = preorder(nodes);
    if nodes.len() == 0 {
        assert(pre =~= Seq::<NavNode>::empty());
    } else {
        let n0 = nodes[0];
        let rest = nodes.subrange(1, nodes.len() as int);
        let a = preorder(n0.children@);
        let b = preorder(rest);
        lemma_preorder_unfold(nodes);
        lemma_first_where_append(seq![n0] + a, b, id_is(id));
        lemma_first_where_append(seq![n0], a, id_is(id));
        assert(decreases_to!(nodes => nodes[0]));
        lemma_path_in(n0.children@, id);
        lemma_path_in(rest, id);
        if n0.id@ == id {
            assert(seq![n0][0] == n0);
            assert(id_is(id)(seq![n0][0]));
            assert(nodes[0] == n0);
            assert(pre[0] == n0);
        } else {
            assert(!any_where(seq![n0], id_is(id))) by {
                assert forall|k: int| 0 <= k < seq![n0].len() implies !id_is(id)(#[trigger] seq![n0][k]) by {
                    assert(seq![n0][k] == n0);
                }
            }
            match path_in(n0.children@, id) {
                Some(q) => {
                    let p = seq![n0] + q;
                    assert(p[0] == n0);
                    assert(p.last() == q.last());
                    assert forall|k: int| 0 <= k < p.len() implies pre.contains(#[trigger] p[k]) by {
                        lemma_preorder_contains(nodes, p[k]);
                        if k > 0 {
                            assert(p[k] == q[k - 1]);
                        }
                    }
                    assert forall|k: int| 0 <= k < p.len() - 1 implies (#[trigger] p[k]).children@.contains(p[k + 1]) by {
                        if k == 0 {
                            assert(p[1] == q[0]);
                        } else {
                            assert(p[k] == q[k - 1]);
                            assert(p[k + 1] == q[k]);
                        }
                    }
                },
                None => {
                    match path_in(rest, id) {
                        Some(p) => {
                            assert(nodes.contains(p[0])) by {
                                let i = choose|i: int| 0 <= i < rest.len() && rest[i] == p[0];
                                assert(nodes[i + 1] == p[0]);
                            }
                            assert forall|k: int| 0 <= k < p.len() implies pre.contains(#[trigger] p[k]) by {
                                lemma_preorder_contains(nodes, p[k]);
                            }
                        },
                        None => {},
                    }
                },
            }
        }
    }
}


/// Unique ids split over the parts of an unfolded pre-order: each part has
/// unique ids, and no id is shared between the first root, its descendants
/// and the rest.
pub proof fn lemma_unique_split(nodes: Seq<NavNode>)
    requires
        nodes.len() > 0,
        unique_ids(nodes),
    ensures
        unique_ids(nodes[0].children@),
        unique_ids(nodes.subrange(1, nodes.len() as int)),
        forall|x: NavNode| preorder(nodes[0].children@).contains(x) ==> x.id@ != nodes[0].id@,
        forall|y: NavNode| preorder(nodes.subrange(1, nodes.len() as int)).contains(y) ==> y.id@ != nodes[0].id@,
        forall|x: NavNode, y: NavNode| preorder(nodes[0].children@).contains(x)
            && preorder(nodes.subrange(1, nodes.len() as int)).contains(y) ==> x.id@ != y.id@,
{
    let n0 = nodes[0];
    let a = preorder(n0.children@);
    let b = preorder(nodes.subrange(1, nodes.len() as int));
    let pre = preorder(nodes);
    lemma_preorder_unfold(nodes);
    assert(pre =~= seq![n0] + a + b);
    assert forall|i: int, j: int| 0 <= i < j < a.len() implies (#[trigger] a[i]).id@ != (#[trigger] a[j]).id@ by {
        assert(pre[1 + i] == a[i]);
        assert(pre[1 + j] == a[j]);
    }
    assert forall|i: int, j: int| 0 <= i < j < b.len() implies (#[trigger] b[i]).id@ != (#[trigger] b[j]).id@ by {
        assert(pre[1 + a.len() + i] == b[i]);
        assert(pre[1 + a.len() + j] == b[j]);
    }
    assert forall|x: NavNode| a.contains(x) implies x.id@ != n0.id@ by {
        let i = choose|i: int| 0 <= i < a.len() && a[i] == x;
        assert(pre[1 + i] == a[i]);
        assert(pre[0] == n0);
    }
    assert forall|y: NavNode| b.contains(y) implies y.id@ != n0.id@ by {
        let i = choose|i: int| 0 <= i < b.len() && b[i] == y;
        assert(pre[1 + a.len() + i] == b[i]);
        assert(pre[0] == n0);
    }
    assert forall|x: NavNode, y: NavNode| a.contains(x) && b.contains(y) implies x.id@ != y.id@ by {
        let i = choose|i: int| 0 <= i < a.len() && a[i] == x;
        let j = choose|j: int| 0 <= j < b.len() && b[j] == y;
        assert(pre[1 + i] == a[i]);
        assert(pre[1 + a.len() + j] == b[j]);
    }
}

/// An id that no node of the pre-order carries has no parent there either.
pub proof fn lemma_no_parent_when_absent(nodes: Seq<NavNode>, id: Seq<char>)
    requires
        !any_where(preorder(nodes), id_is(id)),
    ensures
        !any_where(preorder(nodes), parent_of(id)),
{
    let pre = preorder(nodes);
    assert forall|k: int| 0 <= k < pre.len() implies !parent_of(id)(#[trigger] pre[k]) by {
        if parent_of(id)(pre[k]) {
            let x = pre[k];
            let j = choose|j: int| 0 <= j < x.children@.len() && id_is(id)(#[trigger] x.children@[j]);
            let c = x.children@[j];
            assert(pre.contains(x));
            assert(x.children@.contains(c));
            lemma_child_in_preorder(nodes, x, c);
            let m = choose|m: int| 0 <= m < pre.len() && pre[m] == c;
            assert(id_is(id)(pre[m]));
        }
    }
}

/// With unique ids, the node of a path's id is the first (and only) node
/// with that id.
pub proof fn lemma_path_end_is_found(nodes: Seq<NavNode>, id: Seq<char>)
    requires
        unique_ids(nodes),
        path_in(nodes, id) is Some,
    ensures
        first_where(preorder(nodes), id_is(id)) == Some(path_in(nodes, id).unwrap().last()),
{
    let p = path_in(nodes, id).unwrap();
    let pre = preorder(nodes);
    lemma_path_in(nodes, id);
    assert(pre.contains(p[p.len() - 1]));
    let k1 = choose|k: int| 0 <= k < pre.len() && pre[k] == p.last();
    assert(id_is(id)(pre[k1]));
    let k0 = choose|k: int| 0 <= k < pre.len() && id_is(id)(pre[k]) && forall|j: int| 0 <= j < k ==> !id_is(id)(#[trigger] pre[j]);
    if k0 < k1 {
        assert(pre[k0].id@ != pre[k1].id@);
    } else if k1 < k0 {
        assert(!id_is(id)(pre[k1]));
    }
}

/// With unique ids, a root carrying an id is where its path ends.
pub proof fn lemma_unique_root_path(nodes: Seq<NavNode>, r: NavNode)
    requires
        unique_ids(nodes),
        nodes.contains(r),
    ensures
        path_in(nodes, r.id@) == Some(seq![r]),
    decreases nodes.len(),
{
    let n0 = nodes[0];
    let rest = nodes.subrange(1, nodes.len() as int);
    lemma_unique_split(nodes);
    if n0 != r {
        let i = choose|i: int| 0 <= i < nodes.len() && nodes[i] == r;
        assert(i != 0);
        assert(rest[i - 1] == r);
        assert(rest.contains(r));
        lemma_roots_in_preorder(rest, r);
        assert(n0.id@ != r.id@);
        lemma_path_in(n0.children@, r.id@);
        if path_in(n0.children@, r.id@) is Some {
            let q = path_in(n0.children@, r.id@).unwrap();
            assert(preorder(n0.children@).contains(q[q.len() - 1]));
        }
        lemma_unique_root_path(rest, r);
    }
}

/// With unique ids, the parent that the pre-order search finds is the node
/// before the last on the path, and the path to that parent is the path
/// without its last node; a node at the top, or an id that no node carries,
/// has no parent.
pub open spec fn parent_fact(nodes: Seq<NavNode>, id: Seq<char>) -> bool {
    match path_in(nodes, id) {
        None => !any_where(preorder(nodes), parent_of(id)),
        Some(p) => if p.len() == 1 {
            !any_where(preorder(nodes), parent_of(id))
        } else {
            &&& first_where(preorder(nodes), parent_of(id)) == Some(p[p.len() - 2])
            &&& path_in(nodes, p[p.len() - 2].id@) == Some(p.drop_last())
        },
    }
}

/// The parent search over an unfolded pre-order: the first root, then its
/// descendants, then the rest.
pub proof fn lemma_parent_search_parts(nodes: Seq<NavNode>, id: Seq<char>)
    requires
        nodes.len() > 0,
    ensures
        ({
            let n0 = nodes[0];
            let a = preorder(n0.children@);
            let b = preorder(nodes.subrange(1, nodes.len() as int));
            let pp = parent_of(id);
            &&& pp(n0) ==> first_where(preorder(nodes), pp) == Some(n0)
            &&& !pp(n0) ==> first_where(preorder(nodes), pp) == if any_where(a, pp) { first_where(a, pp) } else { first_where(b, pp) }
            &&& any_where(preorder(nodes), pp) == (pp(n0) || any_where(a, pp) || any_where(b, pp))
        }),
{
    let n0 = nodes[0];
    let a = preorder(n0.children@);
    let b = preorder(nodes.subrange(1, nodes.len() as int));
    let one = seq![n0];
    let pp = parent_of(id);
    lemma_preorder_unfold(nodes);
    lemma_first_where_append(one + a, b, pp);
    lemma_first_where_append(one, a, pp);
    if pp(n0) {
        assert(one[0] == n0);
        lemma_least_index_exists(one, pp, 0);
    } else {
        assert forall|k: int| 0 <= k < one.len() implies !pp(#[trigger] one[k]) by {
            assert(one[k] == n0);
        }
    }
}

/// `parent_fact` when the first root carries the id.
#[verifier::spinoff_prover]
#[verifier::rlimit(40)]
pub proof fn lemma_parent_fact_root(nodes: Seq<NavNode>, id: Seq<char>)
    requires
        nodes.len() > 0,
        unique_ids(nodes),
        nodes[0].id@ == id,
    ensures
        parent_fact(nodes, id),
{
    let n0 = nodes[0];
    let rest = nodes.subrange(1, nodes.len() as int);
    let a = preorder(n0.children@);
    let b = preorder(rest);
    let pp = parent_of(id);
    lemma_unique_split(nodes);
    lemma_parent_search_parts(nodes, id);
    if pp(n0) {
        let j = choose|j: int| 0 <= j < n0.children@.len() && id_is(id)(#[trigger] n0.children@[j]);
        assert(n0.children@.contains(n0.children@[j]));
        lemma_roots_in_preorder(n0.children@, n0.children@[j]);
    }
    assert(!any_where(a, id_is(id))) by {
        if any_where(a, id_is(id)) {
            let k = choose|k: int| 0 <= k < a.len() && id_is(id)(#[trigger] a[k]);
            assert(a.contains(a[k]));
        }
    }
    assert(!any_where(b, id_is(id))) by {
        if any_where(b, id_is(id)) {
            let k = choose|k: int| 0 <= k < b.len() && id_is(id)(#[trigger] b[k]);
            assert(b.contains(b[k]));
        }
    }
    lemma_no_parent_when_absent(n0.children@, id);
    lemma_no_parent_when_absent(rest, id);
}

/// `parent_fact` when the path goes through the first root's descendants.
#[verifier::spinoff_prover]
#[verifier::rlimit(40)]
pub proof fn lemma_parent_fact_children(nodes: Seq<NavNode>, id: Seq<char>)
    requires
        nodes.len() > 0,
        unique_ids(nodes),
        nodes[0].id@ != id,
        path_in(nodes[0].children@, id) is Some,
        parent_fact(nodes[0].children@, id),
    ensures
        parent_fact(nodes, id),
{
    let n0 = nodes[0];
    let a = preorder(n0.children@);
    let one = seq![n0];
    let pp = parent_of(id);
    let q = path_in(n0.children@, id).unwrap();
    lemma_unique_split(nodes);
    lemma_parent_search_parts(nodes, id);
    lemma_path_in(n0.children@, id);
    let p = one + q;
    assert(p == path_in(nodes, id).unwrap());
    if q.len() == 1 {
        assert(n0.children@.contains(q[0]));
        let i = choose|i: int| 0 <= i < n0.children@.len() && n0.children@[i] == q[0];
        assert(id_is(id)(n0.children@[i]));
        assert(pp(n0));
        assert(p[p.len() - 2] == n0);
        assert(p.drop_last() =~= one);
    } else {
        if pp(n0) {
            let j = choose|j: int| 0 <= j < n0.children@.len() && id_is(id)(#[trigger] n0.children@[j]);
            assert(n0.children@.contains(n0.children@[j]));
            lemma_unique_root_path(n0.children@, n0.children@[j]);
        }
        assert(p[p.len() - 2] == q[q.len() - 2]);
        let pid = q[q.len() - 2].id@;
        assert(a.contains(q[q.len() - 2]));
        assert(n0.id@ != pid);
        assert(p.drop_last() =~= one + q.drop_last());
        let pq = first_where(a, pp);
        assert(any_where(a, pp));
    }
}

/// `parent_fact` when the id lies after the first root's subtree.
#[verifier::spinoff_prover]
#[verifier::rlimit(40)]
pub proof fn lemma_parent_fact_rest(nodes: Seq<NavNode>, id: Seq<char>)
    requires
        nodes.len() > 0,
        unique_ids(nodes),
        nodes[0].id@ != id,
        path_in(nodes[0].children@, id) is None,
        parent_fact(nodes.subrange(1, nodes.len() as int), id),
    ensures
        parent_fact(nodes, id),
{
    let n0 = nodes[0];
    let rest = nodes.subrange(1, nodes.len() as int);
    let a = preorder(n0.children@);
    let b = preorder(rest);
    let pp = parent_of(id);
    lemma_unique_split(nodes);
    lemma_parent_search_parts(nodes, id);
    lemma_path_in(n0.children@, id);
    lemma_path_in(rest, id);
    lemma_no_parent_when_absent(n0.children@, id);
    if pp(n0) {
        let j = choose|j: int| 0 <= j < n0.children@.len() && id_is(id)(#[trigger] n0.children@[j]);
        assert(n0.children@.contains(n0.children@[j]));
        lemma_roots_in_preorder(n0.children@, n0.children@[j]);
        let m = choose|m: int| 0 <= m < a.len() && a[m] == n0.children@[j];
        assert(id_is(id)(a[m]));
    }
    match path_in(rest, id) {
        Some(p) => {
            if p.len() >= 2 {
                let pid = p[p.len() - 2].id@;
                assert(b.contains(p[p.len() - 2]));
                assert(n0.id@ != pid);
                lemma_path_in(n0.children@, pid);
                if path_in(n0.children@, pid) is Some {
                    let q2 = path_in(n0.children@, pid).unwrap();
                    assert(a.contains(q2[q2.len() - 1]));
                }
            }
        },
        None => {},
    }
}

/// With unique ids, `parent_fact` holds of every id.
#[verifier::spinoff_prover]
#[verifier::rlimit(40)]
pub proof fn lemma_parent_on_path(nodes: Seq<NavNode>, id: Seq<char>)
    requires
        unique_ids(nodes),
    ensures
        parent_fact(nodes, id),
    decreases nodes,
{
    if nodes.len() == 0 {
        assert(preorder(nodes) =~= Seq::<NavNode>::empty());
        return;
    }
    lemma_unique_split(nodes);
    if nodes[0].id@ == id {
        lemma_parent_fact_root(nodes, id);
    } else if path_in(nodes[0].children@, id) is Some {
        assert(decreases_to!(nodes => nodes[0]));
        lemma_parent_on_path(nodes[0].children@, id);
        lemma_parent_fact_children(nodes, id);
    } else {
        lemma_parent_on_path(nodes.subrange(1, nodes.len() as int), id);
        lemma_parent_fact_rest(nodes, id);
    }
}

/// In a tree without repeated ids, looking a node up and looking up its
/// parent follow the path from a root down to the node, at any depth: the
/// node found is the path's last node (the one carrying the id); its
/// parent is the node just above it on the path, whose children hold it;
/// a root has no parent; and an id that no node carries finds neither.
pub proof fn law_find_follows_the_path(tree: Seq<NavNode>, id: Seq<char>)
    requires
        unique_ids(tree),
    ensures
        match path_in(tree, id) {
            None => first_where(preorder(tree), id_is(id)) is None
                && first_where(preorder(tree), parent_of(id)) is None,
            Some(p) => {
                &&& p.len() >= 1
                &&& tree.contains(p[0])
                &&& p.last().id@ == id
                &&& forall|k: int| 0 <= k < p.len() - 1 ==> (#[trigger] p[k]).children@.contains(p[k + 1])
                &&& first_where(preorder(tree), id_is(id)) == Some(p.last())
                &&& (p.len() == 1 ==> first_where(preorder(tree), parent_of(id)) is None)
                &&& (p.len() >= 2 ==> first_where(preorder(tree), parent_of(id)) == Some(p[p.len() - 2]))
            },
        },
{
    lemma_path_in(tree, id);
    lemma_parent_on_path(tree, id);
    if path_in(tree, id) is Some {
        lemma_path_end_is_found(tree, id);
    } else {
        assert(!any_where(preorder(tree), id_is(id)));
    }
}

/// The node-store id of a navigation node.
pub open spec fn store_id(k: NavNodeKind) -> Seq<char> {
    match k {
        NavNodeKind::Site { node_id } => node_id@,
        NavNodeKind::Building { node_id } => node_id@,
        NavNodeKind::Floor { node_id } => node_id@,
        NavNodeKind::FloorArea { node_id } => node_id@,
        NavNodeKind::Room { node_id } => node_id@,
    }
}

/// Spatial level of a kind: 0 site, 1 building, 2 floor, 3 space (rooms
/// and floor areas alike).
pub open spec fn level(k: NavNodeKind) -> int {
    match k {
        NavNodeKind::Site { .. } => 0,
        NavNodeKind::Building { .. } => 1,
        NavNodeKind::Floor { .. } => 2,
        NavNodeKind::FloorArea { .. } => 3,
        NavNodeKind::Room { .. } => 3,
    }
}

/// Store id of the nearest node at spatial level `lv`, walking a path up
/// from its last node.
pub open spec fn nearest_at(path: Seq<NavNode>, lv: int) -> Option<Seq<char>>
    decreases path.len(),
{
    if path.len() == 0 {
        None
    } else if level(path.last().kind) == lv {
        Some(store_id(path.last().kind))
    } else {
        nearest_at(path.drop_last(), lv)
    }
}

/// Walking a path up from its last node, that node supplies the reference
/// of its own kind and leaves the other three to its ancestors: a site its
/// site reference, a building its building reference, a floor its floor
/// reference, and a floor area or a room alike its space reference.
pub proof fn law_nearest_reference_by_kind(path: Seq<NavNode>)
    requires
        path.len() > 0,
    ensures
        ({
            let up = path.drop_last();
            match path.last().kind {
                NavNodeKind::Site { node_id } => nearest_at(path, 0) == Some(node_id@)
                    && nearest_at(path, 1) == nearest_at(up, 1) && nearest_at(path, 2) == nearest_at(up, 2)
                    && nearest_at(path, 3) == nearest_at(up, 3),
                NavNodeKind::Building { node_id } => nearest_at(path, 1) == Some(node_id@)
                    && nearest_at(path, 0) == nearest_at(up, 0) && nearest_at(path, 2) == nearest_at(up, 2)
                    && nearest_at(path, 3) == nearest_at(up, 3),
                NavNodeKind::Floor { node_id } => nearest_at(path, 2) == Some(node_id@)
                    && nearest_at(path, 0) == nearest_at(up, 0) && nearest_at(path, 1) == nearest_at(up, 1)
                    && nearest_at(path, 3) == nearest_at(up, 3),
                NavNodeKind::FloorArea { node_id } => nearest_at(path, 3) == Some(node_id@)
                    && nearest_at(path, 0) == nearest_at(up, 0) && nearest_at(path, 1) == nearest_at(up, 1)
                    && nearest_at(path, 2) == nearest_at(up, 2),
                NavNodeKind::Room { node_id } => nearest_at(path, 3) == Some(node_id@)
                    && nearest_at(path, 0) == nearest_at(up, 0) && nearest_at(path, 1) == nearest_at(up, 1)
                    && nearest_at(path, 2) == nearest_at(up, 2),
            }
        }),
        nearest_at(seq![], 0) == None::<Seq<char>> && nearest_at(seq![], 1) == None::<Seq<char>>
            && nearest_at(seq![], 2) == None::<Seq<char>> && nearest_at(seq![], 3) == None::<Seq<char>>,
{
}

/// The references of a node found in the tree come from the path down to
/// it: the last node of that path is the node itself and each node before
/// it is the parent of the next, so walking up by `law_nearest_reference_by_kind`
/// visits the node and then its ancestors, nearest first.
pub proof fn law_path_ends_at_node(tree: Seq<NavNode>, id: Seq<char>)
    requires
        path_in(tree, id) is Some,
    ensures
        path_or_empty(tree, id).len() > 0,
        path_or_empty(tree, id).last().id@ == id,
        forall|k: int| 0 <= k < path_or_empty(tree, id).len() - 1
            ==> (#[trigger] path_or_empty(tree, id)[k]).children@.contains(path_or_empty(tree, id)[k + 1]),
        tree.contains(path_or_empty(tree, id)[0]),
{
    lemma_path_in(tree, id);
}

/// Spatial references of a node: the store ids of its site, building,
/// floor and space ancestors (the node itself included).
#[derive(Debug, Default)]
pub struct SpatialRefs {
    pub site_ref: Option<String>,
    pub building_ref: Option<String>,
    pub floor_ref: Option<String>,
    pub space_ref: Option<String>,
}

/// A reference already set stays; an unset one takes `found`.
pub open spec fn keep_or(current: Option<Seq<char>>, found: Option<Seq<char>>) -> Option<Seq<char>> {
    if current is Some { current } else { found }
}

/// The nodes of the path to `id`, or none.
pub open spec fn path_or_empty(nodes: Seq<NavNode>, id: Seq<char>) -> Seq<NavNode> {
    match path_in(nodes, id) {
        Some(p) => p,
        None => Seq::empty(),
    }
}

/// Fills the unset references of `refs` from the node with id `nav_id`
/// and its ancestors, nearest first.
pub fn collect_spatial_up(tree: &[NavNode], nav_id: &str, refs: &mut SpatialRefs)
    requires
        unique_ids(tree@),
    ensures
        opt_text(final(refs).site_ref) == keep_or(opt_text(old(refs).site_ref), nearest_at(path_or_empty(tree@, nav_id@), 0)),
        opt_text(final(refs).building_ref) == keep_or(opt_text(old(refs).building_ref), nearest_at(path_or_empty(tree@, nav_id@), 1)),
        opt_text(final(refs).floor_ref) == keep_or(opt_text(old(refs).floor_ref), nearest_at(path_or_empty(tree@, nav_id@), 2)),
        opt_text(final(refs).space_ref) == keep_or(opt_text(old(refs).space_ref), nearest_at(path_or_empty(tree@, nav_id@), 3)),
    decreases path_or_empty(tree@, nav_id@).len(),
{
    let ghost path = path_or_empty(tree@, nav_id@);
    proof {
        lemma_path_in(tree@, nav_id@);
        lemma_parent_on_path(tree@, nav_id@);
        if path_in(tree@, nav_id@) is Some {
            lemma_path_end_is_found(tree@, nav_id@);
        }
    }
    let ghost before = *refs;
    match find_nav_node(tree, nav_id) {
        Some(node) => {
            match &node.kind {
                NavNodeKind::Room { node_id } | NavNodeKind::FloorArea { node_id } => {
                    if refs.space_ref.is_none() {
                        refs.space_ref = Some(node_id.clone());
                    }
                },
                NavNodeKind::Floor { node_id } => {
                    if refs.floor_ref.is_none() {
                        refs.floor_ref = Some(node_id.clone());
                    }
                },
                NavNodeKind::Building { node_id } => {
                    if refs.building_ref.is_none() {
                        refs.building_ref = Some(node_id.clone());
                    }
                },
                NavNodeKind::Site { node_id } => {
                    if refs.site_ref.is_none() {
                        refs.site_ref = Some(node_id.clone());
                    }
                },
            }
        },
        None => {},
    }
    let ghost mid = *refs;
    proof {
        if path.len() > 0 {
            let k = path.last().kind;
            assert(opt_text(mid.site_ref) == keep_or(opt_text(before.site_ref), if level(k) == 0 { Some(store_id(k)) } else { None }));
            assert(opt_text(mid.building_ref) == keep_or(opt_text(before.building_ref), if level(k) == 1 { Some(store_id(k)) } else { None }));
            assert(opt_text(mid.floor_ref) == keep_or(opt_text(before.floor_ref), if level(k) == 2 { Some(store_id(k)) } else { None }));
            assert(opt_text(mid.space_ref) == keep_or(opt_text(before.space_ref), if level(k) == 3 { Some(store_id(k)) } else { None }));
        } else {
            assert(mid == before);
        }
    }
    match find_nav_parent(tree, nav_id) {
        Some(parent) => {
            let pid = parent.id.clone();
            proof {
                assert(path.len() >= 2);
                assert(path_or_empty(tree@, pid@) == path.drop_last());
            }
            collect_spatial_up(tree, pid.as_str(), refs);
            proof {
                let k = path.last().kind;
                assert(nearest_at(path, 0) == if level(k) == 0 { Some(store_id(k)) } else { nearest_at(path.drop_last(), 0) });
                assert(nearest_at(path, 1) == if level(k) == 1 { Some(store_id(k)) } else { nearest_at(path.drop_last(), 1) });
                assert(nearest_at(path, 2) == if level(k) == 2 { Some(store_id(k)) } else { nearest_at(path.drop_last(), 2) });
                assert(nearest_at(path, 3) == if level(k) == 3 { Some(store_id(k)) } else { nearest_at(path.drop_last(), 3) });
            }
        },
        None => {
            proof {
                assert(path.len() <= 1);
                if path.len() == 1 {
                    let k = path.last().kind;
                    assert(path.drop_last().len() == 0);
                    assert(nearest_at(path.drop_last(), 0) == None::<Seq<char>>);
                    assert(nearest_at(path.drop_last(), 1) == None::<Seq<char>>);
                    assert(nearest_at(path.drop_last(), 2) == None::<Seq<char>>);
                    assert(nearest_at(path.drop_last(), 3) == None::<Seq<char>>);
                    assert(nearest_at(path, 0) == if level(k) == 0 { Some(store_id(k)) } else { None });
                    assert(nearest_at(path, 1) == if level(k) == 1 { Some(store_id(k)) } else { None });
                    assert(nearest_at(path, 2) == if level(k) == 2 { Some(store_id(k)) } else { None });
                    assert(nearest_at(path, 3) == if level(k) == 3 { Some(store_id(k)) } else { None });
                }
            }
        },
    }
}

/// Walk up the nav tree collecting the store ids of the spatial ancestors
/// of the node with id `nav_id` (the node itself included): the nearest
/// site, building, floor and space.
pub fn collect_spatial_ancestors(tree: &[NavNode], nav_id: &str) -> (r: SpatialRefs)
    requires
        unique_ids(tree@),
    ensures
        opt_text(r.site_ref) == nearest_at(path_or_empty(tree@, nav_id@), 0),
        opt_text(r.building_ref) == nearest_at(path_or_empty(tree@, nav_id@), 1),
        opt_text(r.floor_ref) == nearest_at(path_or_empty(tree@, nav_id@), 2),
        opt_text(r.space_ref) == nearest_at(path_or_empty(tree@, nav_id@), 3),
{
    let mut refs = SpatialRefs { site_ref: None, building_ref: None, floor_ref: None, space_ref: None };
    collect_spatial_up(tree, nav_id, &mut refs);
    refs
}

// ----------------------------------------------------------------
// Adding nodes
// ----------------------------------------------------------------

/// The node-store id of a navigation node's kind (every kind stands for a
/// node in the store).
pub fn node_store_id(k: &NavNodeKind) -> (r: &String)
    ensures
        r@ == store_id(*k),
{
    match k {
        NavNodeKind::Site { node_id } => node_id,
        NavNodeKind::Building { node_id } => node_id,
        NavNodeKind::Floor { node_id } => node_id,
        NavNodeKind::FloorArea { node_id } => node_id,
        NavNodeKind::Room { node_id } => node_id,
    }
}

/// The store id a new child of nav node `nav_id` takes as its parent: the
/// node's own store id, none if no node has that id.
pub fn find_spatial_parent_store_id(tree: &[NavNode], nav_id: &str) -> (r: Option<String>)
    ensures
        match first_where(preorder(tree@), id_is(nav_id@)) {
            Some(n) => r matches Some(s) && s@ == store_id(n.kind),
            None => r is None,
        },
{
    match find_nav_node(tree, nav_id) {
        Some(node) => {
            return Some(node_store_id(&node.kind).clone());
        },
        None => {},
    }
    proof {
        lemma_no_parent_when_absent(tree@, nav_id@);
    }
    match find_nav_parent(tree, nav_id) {
        Some(parent) => Some(node_store_id(&parent.kind).clone()),
        None => None,
    }
}

/// The kinds a new child can take under a parent of the given spatial
/// kind, as `(value, label)`: sites at the root, buildings under a site,
/// floors under a building, floor areas and rooms under a floor, rooms
/// under a floor area; nothing under a room.
pub open spec fn kind_options_spec(parent: Seq<char>) -> Seq<(Seq<char>, Seq<char>)> {
    if parent == "root"@ {
        seq![("site"@, "Site"@)]
    } else if parent == "site"@ {
        seq![("building"@, "Building"@)]
    } else if parent == "building"@ {
        seq![("floor"@, "Floor"@)]
    } else if parent == "floor"@ {
        seq![("floorArea"@, "Floor Area"@), ("room"@, "Room"@)]
    } else if parent == "floorArea"@ {
        seq![("room"@, "Room"@)]
    } else {
        seq![]
    }
}

/// The kinds a new child can take (see `kind_options_spec`).
pub fn kind_options(parent: &str) -> (r: Vec<(&'static str, &'static str)>)
    ensures
        r@.map_values(|o: (&'static str, &'static str)| (o.0@, o.1@)) == kind_options_spec(parent@),
{
    let mut v: Vec<(&'static str, &'static str)> = Vec::new();
    if str_eq(parent, "root") {
        v.push(("site", "Site"));
    } else if str_eq(parent, "site") {
        v.push(("building", "Building"));
    } else if str_eq(parent, "building") {
        v.push(("floor", "Floor"));
    } else if str_eq(parent, "floor") {
        v.push(("floorArea", "Floor Area"));
        v.push(("room", "Room"));
    } else if str_eq(parent, "floorArea") {
        v.push(("room", "Room"));
    }
    assert(v@.map_values(|o: (&'static str, &'static str)| (o.0@, o.1@)) =~= kind_options_spec(parent@));
    v
}

/// The add button's text and class: `+ Child` under a node, `+ Add` at
/// the root.
pub fn add_button(is_child: bool) -> (r: (&'static str, &'static str))
    ensures
        r.0@ == (if is_child { "+ Child"@ } else { "+ Add"@ }),
        r.1@ == (if is_child { "nav-add-btn nav-add-child"@ } else { "nav-add-btn"@ }),
{
    if is_child {
        ("+ Child", "nav-add-btn nav-add-child")
    } else {
        ("+ Add", "nav-add-btn")
    }
}

/// The kind a confirmed choice creates, with its store id made of the
/// kind's prefix and a fresh UUID text; none for an unknown choice.
pub open spec fn new_kind_spec(choice: Seq<char>, uuid: Seq<char>) -> Option<(int, Seq<char>)> {
    if choice == "site"@ {
        Some((0, "site-"@ + uuid))
    } else if choice == "building"@ {
        Some((1, "bldg-"@ + uuid))
    } else if choice == "floor"@ {
        Some((2, "floor-"@ + uuid))
    } else if choice == "floorArea"@ {
        Some((3, "flarea-"@ + uuid))
    } else if choice == "room"@ {
        Some((4, "room-"@ + uuid))
    } else {
        None
    }
}

/// Which variant a kind is, counting in declaration order.
pub open spec fn kind_index(k: NavNodeKind) -> int {
    match k {
        NavNodeKind::Site { .. } => 0,
        NavNodeKind::Building { .. } => 1,
        NavNodeKind::Floor { .. } => 2,
        NavNodeKind::FloorArea { .. } => 3,
        NavNodeKind::Room { .. } => 4,
    }
}

/// The kind a confirmed choice creates (see `new_kind_spec`).
pub fn new_node_kind(choice: &str, uuid: &str) -> (r: Option<NavNodeKind>)
    ensures
        match new_kind_spec(choice@, uuid@) {
            Some(x) => r matches Some(k) && kind_index(k) == x.0 && store_id(k) == x.1,
            None => r is None,
        },
{
    let prefixed = |p: &str| -> (s: String)
        ensures
            s@ == p@ + uuid@,
    {
        let mut s = String::from_str(p);
        push_str(&mut s, uuid);
        s
    };
    if str_eq(choice, "site") {
        Some(NavNodeKind::Site { node_id: prefixed("site-") })
    } else if str_eq(choice, "building") {
        Some(NavNodeKind::Building { node_id: prefixed("bldg-") })
    } else if str_eq(choice, "floor") {
        Some(NavNodeKind::Floor { node_id: prefixed("floor-") })
    } else if str_eq(choice, "floorArea") {
        Some(NavNodeKind::FloorArea { node_id: prefixed("flarea-") })
    } else if str_eq(choice, "room") {
        Some(NavNodeKind::Room { node_id: prefixed("room-") })
    } else {
        None
    }
}

/// How the store records a new nav node: sites as site nodes, the other
/// kinds as space nodes marked with their kind's tag.
pub fn store_node_tag(k: &NavNodeKind) -> (r: Option<&'static str>)
    ensures
        match *k {
            NavNodeKind::Site { .. } => r is None,
            NavNodeKind::Building { .. } => r matches Some(t) && t@ == "building"@,
            NavNodeKind::Floor { .. } => r matches Some(t) && t@ == "floor"@,
            NavNodeKind::FloorArea { .. } => r matches Some(t) && t@ == "floorArea"@,
            NavNodeKind::Room { .. } => r matches Some(t) && t@ == "room"@,
        },
{
    match k {
        NavNodeKind::Site { .. } => None,
        NavNodeKind::Building { .. } => Some("building"),
        NavNodeKind::Floor { .. } => Some("floor"),
        NavNodeKind::FloorArea { .. } => Some("floorArea"),
        NavNodeKind::Room { .. } => Some("room"),
    }
}

/// Whether a node can have children: every kind but a room.
pub fn is_container(k: &NavNodeKind) -> (r: bool)
    ensures
        r == !(*k is Room),
{
    match k {
        NavNodeKind::Room { .. } => false,
        _ => true,
    }
}

/// The icon of a node in the tree.
pub fn nav_icon(k: &NavNodeKind) -> (r: &'static str)
    ensures
        r@ == match *k {
            NavNodeKind::Site { .. } => "\u{1F3D8}\u{FE0F}"@,
            NavNodeKind::Building { .. } => "\u{1F3E2}"@,
            NavNodeKind::Floor { .. } => "\u{25A6}"@,
            NavNodeKind::FloorArea { .. } => "\u{25A3}"@,
            NavNodeKind::Room { .. } => "\u{1F6AA}"@,
        },
{
    match k {
        NavNodeKind::Site { .. } => "\u{1F3D8}\u{FE0F}",
        NavNodeKind::Building { .. } => "\u{1F3E2}",
        NavNodeKind::Floor { .. } => "\u{25A6}",
        NavNodeKind::FloorArea { .. } => "\u{25A3}",
        NavNodeKind::Room { .. } => "\u{1F6AA}",
    }
}

/// Whether a node's row has an expand arrow: when it has children or can
/// have them.
pub fn has_arrow(node: &NavNode) -> (r: bool)
    ensures
        r == (node.children@.len() > 0 || !(node.kind is Room)),
{
    node.children.len() > 0 || is_container(&node.kind)
}

/// The location breadcrumb of a device: the names of its site, building,
/// floor and room, in that order, for each level whose reference the
/// device has and whose node was found; nothing when none was.
pub open spec fn breadcrumb_spec(site: Option<Seq<char>>, building: Option<Seq<char>>, floor: Option<Seq<char>>, room: Option<Seq<char>>) -> Option<Seq<(Seq<char>, Seq<char>)>> {
    let parts = (match site { Some(n) => seq![("site"@, n)], None => seq![] })
        + (match building { Some(n) => seq![("building"@, n)], None => seq![] })
        + (match floor { Some(n) => seq![("floor"@, n)], None => seq![] })
        + (match room { Some(n) => seq![("room"@, n)], None => seq![] });
    if parts.len() == 0 { None } else { Some(parts) }
}

/// Appends a breadcrumb part when its level was found.
fn push_part(parts: &mut Vec<(&'static str, String)>, kind: &'static str, name: &Option<String>)
    ensures
        final(parts)@.map_values(|p: (&'static str, String)| (p.0@, p.1@)) == old(parts)@.map_values(
            |p: (&'static str, String)| (p.0@, p.1@),
        ) + match name {
            Some(n) => seq![(kind@, n@)],
            None => seq![],
        },
{
    let ghost before = parts@;
    match name {
        Some(n) => {
            parts.push((kind, n.clone()));
        },
        None => {},
    }
    assert(parts@.map_values(|p: (&'static str, String)| (p.0@, p.1@)) =~= before.map_values(|p: (&'static str, String)| (p.0@, p.1@))
        + match name {
        Some(n) => seq![(kind@, n@)],
        None => seq![],
    });
}

/// The location breadcrumb (see `breadcrumb_spec`), as `(level, name)`.
pub fn breadcrumb(site: &Option<String>, building: &Option<String>, floor: &Option<String>, room: &Option<String>) -> (r: Option<Vec<(&'static str, String)>>)
    ensures
        match r {
            Some(v) => breadcrumb_spec(opt_text(*site), opt_text(*building), opt_text(*floor), opt_text(*room)) == Some(
                v@.map_values(|p: (&'static str, String)| (p.0@, p.1@)),
            ),
            None => breadcrumb_spec(opt_text(*site), opt_text(*building), opt_text(*floor), opt_text(*room)) is None,
        },
{
    let mut parts: Vec<(&'static str, String)> = Vec::new();
    assert(parts@.map_values(|p: (&'static str, String)| (p.0@, p.1@)) =~= Seq::<(Seq<char>, Seq<char>)>::empty());
    push_part(&mut parts, "site", site);
    push_part(&mut parts, "building", building);
    push_part(&mut parts, "floor", floor);
    push_part(&mut parts, "room", room);
    if parts.len() == 0 {
        None
    } else {
        Some(parts)
    }
}

} // verus!
