//! Syntax trees as the parser hands them over: the nodes in preorder (each
//! node before its children, children in document order), each with its
//! depth below the root. A node's subtree is then the run of nodes after it
//! that lie deeper than it, and its parent is the nearest node before it
//! that lies shallower.

use crate::convert::{point_le, point_lt, range_contains, Point, Range};
use crate::search::{
    first_from, last_before, select, lemma_first_from, lemma_first_from_skip, lemma_last_before,
    lemma_last_before_skip,
};
use crate::text::{same_chars, strings};
use vstd::prelude::*;

verus! {

/// One node of a syntax tree.
#[derive(Clone, Debug)]
pub struct SyntaxNode {
    /// The grammar's name for the node (`component`, `ident`, `.`, ...).
    pub kind: String,
    /// The source text that the node spans.
    pub text: String,
    pub start: Point,
    pub end: Point,
    /// The number of ancestors of the node; zero for the root.
    pub depth: usize,
}

/// The depths of a sequence of nodes make it a tree in preorder: one root
/// first, and each later node at most one level deeper than the node
/// before it.
pub open spec fn depth_shape(ns: Seq<SyntaxNode>) -> bool {
    &&& ns.len() >= 1
    &&& ns[0].depth == 0
    &&& forall|i: int| 1 <= i < ns.len() ==> 1 <= #[trigger] ns[i].depth <= ns[i - 1].depth + 1
}

/// The range of node `i` lies within the range of its parent.
pub open spec fn nested_at(ns: Seq<SyntaxNode>, i: int) -> bool {
    let p = parent_of(ns, i);
    point_le(ns[p].start, ns[i].start) && point_le(ns[i].end, ns[p].end)
}

/// A sequence of nodes is a tree in preorder (see `depth_shape`) whose
/// every node lies within its parent's range.
pub open spec fn tree_shape(ns: Seq<SyntaxNode>) -> bool {
    &&& depth_shape(ns)
    &&& forall|i: int| 0 < i < ns.len() ==> #[trigger] nested_at(ns, i)
}

/// One past the last node of the subtree rooted at `i`.
pub open spec fn subtree_end(ns: Seq<SyntaxNode>, i: int) -> int {
    first_from(i + 1, ns.len() as int, no_deeper(ns, i))
}

/// Node `k` lies no deeper than node `i`.
pub open spec fn no_deeper(ns: Seq<SyntaxNode>, i: int) -> spec_fn(int) -> bool {
    |k: int| ns[k].depth <= ns[i].depth
}

/// Node `k` lies shallower than node `i`.
pub open spec fn shallower(ns: Seq<SyntaxNode>, i: int) -> spec_fn(int) -> bool {
    |k: int| ns[k].depth < ns[i].depth
}

/// Node `k` is one level below `p` and of the given kind.
pub open spec fn child_kind(ns: Seq<SyntaxNode>, p: int, kind: Seq<char>) -> spec_fn(int) -> bool {
    |k: int| ns[k].depth == ns[p].depth + 1 && ns[k].kind@ == kind
}

/// Node `k` is one level below `i` and covers `p`.
pub open spec fn child_covering(ns: Seq<SyntaxNode>, i: int, p: Point) -> spec_fn(int) -> bool {
    |k: int| ns[k].depth == ns[i].depth + 1 && covers(ns[k], p)
}

/// The parent of node `i`: the nearest node before it that lies shallower.
pub open spec fn parent_of(ns: Seq<SyntaxNode>, i: int) -> int {
    last_before(0, i, shallower(ns, i))
}

/// The first child of `p` whose kind is `kind`, or `subtree_end(ns, p)` if
/// it has none.
pub open spec fn first_child(ns: Seq<SyntaxNode>, p: int, kind: Seq<char>) -> int {
    first_from(p + 1, subtree_end(ns, p), child_kind(ns, p, kind))
}

pub open spec fn has_child(ns: Seq<SyntaxNode>, p: int, kind: Seq<char>) -> bool {
    first_child(ns, p, kind) < subtree_end(ns, p)
}

/// The node right after the subtree of `x` lies at the depth of `x`, so it
/// is the next child of the same parent.
pub open spec fn has_next_sibling(ns: Seq<SyntaxNode>, x: int) -> bool {
    let e = subtree_end(ns, x);
    e < ns.len() && ns[e].depth == ns[x].depth
}

/// The node right before `x` is not its parent, so it belongs to the
/// subtree of an earlier child of the same parent.
pub open spec fn has_prev_sibling(ns: Seq<SyntaxNode>, x: int) -> bool {
    0 < x && ns[x - 1].depth >= ns[x].depth
}

/// Components and primitives are the containers of cells, ports and groups.
pub open spec fn is_container(kind: Seq<char>) -> bool {
    kind == "component"@ || kind == "primitive"@
}

/// The nearest proper ancestor of `x` that is a component or a primitive.
pub open spec fn enclosing_container(ns: Seq<SyntaxNode>, x: int) -> Option<int>
    decreases x,
{
    if 0 < x < ns.len() {
        let p = parent_of(ns, x);
        if 0 <= p < x {
            if is_container(ns[p].kind@) {
                Some(p)
            } else {
                enclosing_container(ns, p)
            }
        } else {
            None
        }
    } else {
        None
    }
}

/// The point lies in the node, counting its start but not its end.
pub open spec fn covers(n: SyntaxNode, p: Point) -> bool {
    point_le(n.start, p) && point_lt(p, n.end)
}

/// From node `i`, step down into the first child that covers `p`, as long
/// as there is one.
pub open spec fn descend(ns: Seq<SyntaxNode>, i: int, p: Point) -> int
    decreases ns.len() - i,
{
    let e = subtree_end(ns, i);
    let c = first_from(i + 1, e, child_covering(ns, i, p));
    if i < c < e && c < ns.len() {
        descend(ns, c, p)
    } else {
        i
    }
}

pub open spec fn node_range(n: SyntaxNode) -> Range {
    Range { start: n.start, end: n.end }
}

/// The smallest node at `p`: none where the root's range (both ends
/// included) does not hold `p`.
pub open spec fn node_at(ns: Seq<SyntaxNode>, p: Point) -> Option<int> {
    if ns.len() >= 1 && range_contains(node_range(ns[0]), p) {
        Some(descend(ns, 0, p))
    } else {
        None
    }
}

/// The name of a node: its first `ident` child.
pub open spec fn name_node(ns: Seq<SyntaxNode>, k: int) -> int {
    first_child(ns, k, "ident"@)
}

/// Node `k` is of the given kind and has a name.
pub open spec fn named_of_kind(ns: Seq<SyntaxNode>, kind: Seq<char>) -> spec_fn(int) -> bool {
    |k: int| ns[k].kind@ == kind && has_child(ns, k, "ident"@)
}

/// The name nodes of the named nodes of the given kind below `c`, in
/// document order.
pub open spec fn member_name_nodes(ns: Seq<SyntaxNode>, c: int, kind: Seq<char>) -> Seq<int> {
    select(c + 1, subtree_end(ns, c), named_of_kind(ns, kind)).map_values(|k: int| name_node(ns, k))
}

/// The names of the named nodes of the given kind below `c`, in document
/// order.
pub open spec fn member_names(ns: Seq<SyntaxNode>, c: int, kind: Seq<char>) -> Seq<Seq<char>> {
    member_name_nodes(ns, c, kind).map_values(|k: int| ns[k].text@)
}

pub proof fn lemma_subtree_end(ns: Seq<SyntaxNode>, i: int)
    requires
        0 <= i < ns.len(),
    ensures
        i < subtree_end(ns, i) <= ns.len(),
        forall|k: int| i < k < subtree_end(ns, i) ==> #[trigger] ns[k].depth > ns[i].depth,
        subtree_end(ns, i) < ns.len() ==> ns[subtree_end(ns, i)].depth <= ns[i].depth,
{
    let f = no_deeper(ns, i);
    lemma_first_from(i + 1, ns.len() as int, f);
    assert forall|k: int| i < k < subtree_end(ns, i) implies #[trigger] ns[k].depth > ns[i].depth by {
        assert(!f(k));
    }
    if subtree_end(ns, i) < ns.len() {
        assert(f(subtree_end(ns, i)));
    }
}

pub proof fn lemma_parent_of(ns: Seq<SyntaxNode>, i: int)
    requires
        depth_shape(ns),
        0 < i < ns.len(),
    ensures
        0 <= parent_of(ns, i) < i,
        ns[parent_of(ns, i)].depth < ns[i].depth,
        forall|k: int| parent_of(ns, i) < k < i ==> #[trigger] ns[k].depth >= ns[i].depth,
{
    let f = shallower(ns, i);
    assert(ns[i].depth >= 1);
    assert(f(0));
    lemma_last_before(0, i, f);
    let r = parent_of(ns, i);
    if r < 0 {
        assert(!f(0));
    }
    assert(f(r));
    assert forall|k: int| r < k < i implies #[trigger] ns[k].depth >= ns[i].depth by {
        assert(!f(k));
    }
}

/// A tree of syntax nodes in preorder; see `tree_shape`.
pub struct SyntaxTree {
    nodes: Vec<SyntaxNode>,
}

impl SyntaxTree {
    pub closed spec fn view(&self) -> Seq<SyntaxNode> {
        self.nodes@
    }

    pub open spec fn wf(&self) -> bool {
        tree_shape(self@)
    }

    /// Takes the nodes of a tree in preorder; `None` where they do not form
    /// one (see `tree_shape`).
    pub fn from_preorder(nodes: Vec<SyntaxNode>) -> (r: Option<SyntaxTree>)
        ensures
            r is Some <==> tree_shape(nodes@),
            r matches Some(t) ==> t@ == nodes@,
    {
        if nodes.len() == 0 || nodes[0].depth != 0 {
            return None;
        }
        let n = nodes.len();
        let mut i: usize = 1;
        while i < nodes.len()
            invariant
                1 <= i <= nodes.len(),
                nodes@[0].depth == 0,
                forall|k: int| 1 <= k < i ==> 1 <= #[trigger] nodes@[k].depth <= nodes@[k - 1].depth + 1,
            decreases nodes.len() - i,
        {
            if nodes[i].depth < 1 || nodes[i].depth - 1 > nodes[i - 1].depth {
                assert(!(1 <= nodes@[i as int].depth <= nodes@[i - 1].depth + 1));
                return None;
            }
            i += 1;
        }
        let t = SyntaxTree { nodes };
        assert(depth_shape(t@));
        let mut i: usize = 1;
        while i < n
            invariant
                1 <= i <= n,
                n == t@.len(),
                depth_shape(t@),
                t@ == nodes@,
                forall|k: int| 0 < k < i ==> #[trigger] nested_at(t@, k),
            decreases n - i,
        {
            proof {
                lemma_parent_of(t@, i as int);
            }
            let p = t.parent(i).unwrap();
            let a = t.node(p);
            let b = t.node(i);
            if !(a.start.le(&b.start) && b.end.le(&a.end)) {
                assert(!nested_at(t@, i as int));
                return None;
            }
            assert(nested_at(t@, i as int));
            i += 1;
        }
        Some(t)
    }

    pub fn len(&self) -> (r: usize)
        ensures
            r == self@.len(),
    {
        self.nodes.len()
    }

    pub fn node(&self, i: usize) -> (r: &SyntaxNode)
        requires
            i < self@.len(),
        ensures
            *r == self@[i as int],
    {
        &self.nodes[i]
    }

    /// Whether node `i` is of the given kind.
    pub fn kind_is(&self, i: usize, kind: &str) -> (r: bool)
        requires
            i < self@.len(),
        ensures
            r == (self@[i as int].kind@ == kind@),
    {
        same_chars(self.nodes[i].kind.as_str(), kind)
    }

    /// Whether node `i` is a component or a primitive.
    pub fn is_container(&self, i: usize) -> (r: bool)
        requires
            i < self@.len(),
        ensures
            r == is_container(self@[i as int].kind@),
    {
        self.kind_is(i, "component") || self.kind_is(i, "primitive")
    }

    /// One past the last node of the subtree rooted at `i`.
    pub fn subtree_end(&self, i: usize) -> (r: usize)
        requires
            i < self@.len(),
        ensures
            r == subtree_end(self@, i as int),
            i < r <= self@.len(),
    {
        let ghost ns = self@;
        let ghost f = no_deeper(ns, i as int);
        let n = self.nodes.len();
        let d = self.nodes[i].depth;
        let mut k = i + 1;
        while k < n && self.nodes[k].depth > d
            invariant
                i < k <= ns.len(),
                n == ns.len(),
                ns == self@,
                f == no_deeper(ns, i as int),
                d == ns[i as int].depth,
                forall|m: int| i < m < k ==> !#[trigger] f(m),
            decreases ns.len() - k,
        {
            assert(!f(k as int));
            k += 1;
        }
        proof {
            lemma_first_from_skip(i + 1, k as int, ns.len() as int, f);
        }
        k
    }

    /// The parent of node `i`; `None` for the root.
    pub fn parent(&self, i: usize) -> (r: Option<usize>)
        requires
            depth_shape(self@),
            i < self@.len(),
        ensures
            i == 0 ==> r is None,
            i > 0 ==> r == Some(parent_of(self@, i as int) as usize),
    {
        if i == 0 {
            return None;
        }
        let ghost ns = self@;
        let ghost f = shallower(ns, i as int);
        proof {
            lemma_parent_of(ns, i as int);
        }
        let d = self.nodes[i].depth;
        let mut j = i - 1;
        while self.nodes[j].depth >= d
            invariant
                j < i < ns.len(),
                ns == self@,
                f == shallower(ns, i as int),
                d == ns[i as int].depth,
                d >= 1,
                ns[0].depth == 0,
                forall|m: int| j < m < i ==> !#[trigger] f(m),
            decreases j,
        {
            assert(!f(j as int));
            j -= 1;
        }
        assert(f(j as int));
        proof {
            lemma_last_before_skip(0, j + 1, i as int, f);
        }
        Some(j)
    }

    /// The nearest proper ancestor of `i` that is a component or a primitive.
    pub fn parent_until_container(&self, i: usize) -> (r: Option<usize>)
        requires
            self.wf(),
            i < self@.len(),
        ensures
            r matches Some(p) ==> enclosing_container(self@, i as int) == Some(p as int),
            r is None ==> enclosing_container(self@, i as int) is None,
    {
        let mut cur = i;
        while cur > 0
            invariant
                self.wf(),
                cur < self@.len(),
                enclosing_container(self@, i as int) == enclosing_container(self@, cur as int),
            decreases cur,
        {
            proof {
                lemma_parent_of(self@, cur as int);
            }
            let p = self.parent(cur).unwrap();
            if self.is_container(p) {
                return Some(p);
            }
            cur = p;
        }
        None
    }

    /// The first child of `p` whose kind is `kind`.
    pub fn first_child_of_kind(&self, p: usize, kind: &str) -> (r: Option<usize>)
        requires
            p < self@.len(),
        ensures
            r matches Some(c) ==> c as int == first_child(self@, p as int, kind@) && p < c
                < subtree_end(self@, p as int) && c < self@.len(),
            r is None <==> !has_child(self@, p as int, kind@),
    {
        let ghost ns = self@;
        let ghost f = child_kind(ns, p as int, kind@);
        let e = self.subtree_end(p);
        let d = self.nodes[p].depth;
        let mut k = p + 1;
        while k < e
            invariant
                p < k <= e <= ns.len(),
                ns == self@,
                f == child_kind(ns, p as int, kind@),
                e == subtree_end(ns, p as int),
                d == ns[p as int].depth,
                forall|m: int| p < m < k ==> !#[trigger] f(m),
            decreases e - k,
        {
            proof {
                lemma_subtree_end(ns, p as int);
            }
            if self.nodes[k].depth == d + 1 && self.kind_is(k, kind) {
                proof {
                    assert(f(k as int));
                    lemma_first_from_skip(p + 1, k as int, e as int, f);
                    assert(first_from(k as int, e as int, f) == k);
                }
                return Some(k);
            }
            assert(!f(k as int));
            k += 1;
        }
        proof {
            lemma_first_from_skip(p + 1, k as int, e as int, f);
        }
        None
    }

    /// The texts of the given nodes.
    pub fn texts(&self, nodes: &Vec<usize>) -> (r: Vec<String>)
        requires
            forall|i: int| 0 <= i < nodes@.len() ==> #[trigger] nodes@[i] < self@.len(),
        ensures
            strings(r@) == nodes@.map_values(|x: usize| x as int).map_values(
                |k: int| self@[k].text@,
            ),
    {
        let ghost ns = self@;
        let mut r: Vec<String> = Vec::new();
        let mut i: usize = 0;
        while i < nodes.len()
            invariant
                i <= nodes@.len(),
                ns == self@,
                forall|j: int| 0 <= j < nodes@.len() ==> #[trigger] nodes@[j] < ns.len(),
                strings(r@) == nodes@.take(i as int).map_values(|x: usize| x as int).map_values(
                    |k: int| ns[k].text@,
                ),
            decreases nodes@.len() - i,
        {
            let ghost before = r@;
            let t = self.nodes[nodes[i]].text.clone();
            r.push(t);
            proof {
                let m = nodes@[i as int] as int;
                assert(strings(r@) =~= strings(before).push(ns[m].text@));
                assert(nodes@.take(i + 1) =~= nodes@.take(i as int).push(nodes@[i as int]));
                assert(nodes@.take(i + 1).map_values(|x: usize| x as int) =~= nodes@.take(
                    i as int,
                ).map_values(|x: usize| x as int).push(m));
                assert(strings(r@) =~= nodes@.take(i + 1).map_values(|x: usize| x as int).map_values(
                    |k: int| ns[k].text@,
                ));
            }
            i += 1;
        }
        assert(nodes@.take(i as int) =~= nodes@);
        r
    }

    /// The names of the named nodes of kind `kind` below `c`, in document
    /// order.
    pub fn member_names(&self, c: usize, kind: &str) -> (r: Vec<String>)
        requires
            c < self@.len(),
        ensures
            strings(r@) == member_names(self@, c as int, kind@),
    {
        let nodes = self.member_name_nodes(c, kind);
        self.texts(&nodes)
    }

    /// The first child of `p`, from index `from` on, whose kind is `kind`.
    pub fn child_of_kind_from(&self, p: usize, from: usize, kind: &str) -> (r: Option<usize>)
        requires
            p < from,
            p < self@.len(),
        ensures
            r matches Some(c) ==> c as int == first_from(
                from as int,
                subtree_end(self@, p as int),
                child_kind(self@, p as int, kind@),
            ) && c < subtree_end(self@, p as int) && c < self@.len(),
            r is None ==> first_from(
                from as int,
                subtree_end(self@, p as int),
                child_kind(self@, p as int, kind@),
            ) >= subtree_end(self@, p as int),
    {
        let ghost ns = self@;
        let ghost f = child_kind(ns, p as int, kind@);
        let e = self.subtree_end(p);
        let d = self.nodes[p].depth;
        let mut k = from;
        while k < e
            invariant
                p < from <= k,
                k <= e || k == from,
                e <= ns.len(),
                ns == self@,
                f == child_kind(ns, p as int, kind@),
                e == subtree_end(ns, p as int),
                d == ns[p as int].depth,
                forall|m: int| from <= m < k ==> !#[trigger] f(m),
            decreases e - k,
        {
            proof {
                lemma_subtree_end(ns, p as int);
            }
            if self.nodes[k].depth == d + 1 && self.kind_is(k, kind) {
                proof {
                    assert(f(k as int));
                    lemma_first_from_skip(from as int, k as int, e as int, f);
                }
                return Some(k);
            }
            assert(!f(k as int));
            k += 1;
        }
        proof {
            if from <= e {
                lemma_first_from_skip(from as int, k as int, e as int, f);
            }
        }
        None
    }

    /// The name nodes of the named nodes of kind `kind` below `c`, in
    /// document order.
    pub fn member_name_nodes(&self, c: usize, kind: &str) -> (r: Vec<usize>)
        requires
            c < self@.len(),
        ensures
            r@.map_values(|x: usize| x as int) == member_name_nodes(self@, c as int, kind@),
            forall|i: int| 0 <= i < r@.len() ==> #[trigger] r@[i] < self@.len(),
    {
        let ghost ns = self@;
        let ghost g = named_of_kind(ns, kind@);
        let e = self.subtree_end(c);
        let mut r: Vec<usize> = Vec::new();
        let mut k = c + 1;
        while k < e
            invariant
                c < k <= e,
                e <= ns.len(),
                ns == self@,
                g == named_of_kind(ns, kind@),
                e == subtree_end(ns, c as int),
                r@.map_values(|x: usize| x as int) == select(c + 1, k as int, g).map_values(
                    |j: int| name_node(ns, j),
                ),
                forall|i: int| 0 <= i < r@.len() ==> #[trigger] r@[i] < ns.len(),
            decreases e - k,
        {
            let ghost before = r@;
            if self.kind_is(k, kind) {
                match self.first_child_of_kind(k, "ident") {
                    Some(n) => {
                        proof {
                            lemma_subtree_end(ns, k as int);
                        }
                        r.push(n);
                        proof {
                            assert(g(k as int));
                            assert(r@.map_values(|x: usize| x as int) =~= before.map_values(
                                |x: usize| x as int,
                            ).push(n as int));
                            assert(select(c + 1, k + 1, g) == select(c + 1, k as int, g).push(
                                k as int,
                            ));
                            assert(select(c + 1, k + 1, g).map_values(|j: int| name_node(ns, j))
                                =~= select(c + 1, k as int, g).map_values(
                                |j: int| name_node(ns, j),
                            ).push(name_node(ns, k as int)));
                        }
                    },
                    None => {
                        assert(!g(k as int));
                    },
                }
            } else {
                assert(!g(k as int));
            }
            k += 1;
        }
        r
    }

    pub fn has_next_sibling(&self, x: usize) -> (r: bool)
        requires
            x < self@.len(),
        ensures
            r == has_next_sibling(self@, x as int),
    {
        let e = self.subtree_end(x);
        e < self.nodes.len() && self.nodes[e].depth == self.nodes[x].depth
    }

    pub fn has_prev_sibling(&self, x: usize) -> (r: bool)
        requires
            x < self@.len(),
        ensures
            r == has_prev_sibling(self@, x as int),
    {
        x > 0 && self.nodes[x - 1].depth >= self.nodes[x].depth
    }

    /// The smallest node at `p`, if the tree's range holds `p`.
    pub fn node_at(&self, p: &Point) -> (r: Option<usize>)
        requires
            self.wf(),
        ensures
            r matches Some(i) ==> node_at(self@, *p) == Some(i as int) && i < self@.len(),
            r is None ==> node_at(self@, *p) is None,
    {
        let ghost ns = self@;
        let root = Range::new(self.nodes[0].start, self.nodes[0].end);
        if !root.contains(p) {
            return None;
        }
        let mut cur: usize = 0;
        loop
            invariant
                ns == self@,
                cur < ns.len(),
                descend(ns, 0, *p) == descend(ns, cur as int, *p),
                range_contains(node_range(ns[0]), *p),
            decreases ns.len() - cur,
        {
            let ghost f = child_covering(ns, cur as int, *p);
            let e = self.subtree_end(cur);
            let d = self.nodes[cur].depth;
            let mut k = cur + 1;
            let mut found = false;
            while k < e
                invariant
                    cur < k <= e <= ns.len(),
                    ns == self@,
                    f == child_covering(ns, cur as int, *p),
                    e == subtree_end(ns, cur as int),
                    d == ns[cur as int].depth,
                    forall|m: int| cur < m < k ==> !#[trigger] f(m),
                    found ==> k < e && f(k as int),
                ensures
                    !found ==> k == e,
                decreases e - k,
            {
                let n = &self.nodes[k];
                if n.depth == d + 1 && n.start.le(p) && p.lt(&n.end) {
                    assert(f(k as int));
                    found = true;
                    break;
                }
                assert(!f(k as int));
                k += 1;
            }
            proof {
                lemma_first_from_skip(cur + 1, k as int, e as int, f);
                if found {
                    lemma_first_from(k as int, e as int, f);
                }
            }
            if !found {
                proof {
                    assert(first_from(cur + 1, e as int, f) == e as int);
                    assert(descend(ns, cur as int, *p) == cur as int);
                    assert(range_contains(node_range(ns[0]), *p));
                }
                return Some(cur);
            }
            cur = k;
        }
    }
}

} // verus!
