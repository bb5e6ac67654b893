//! One source file: its text, its syntax tree and its component table, and
//! the questions asked of a position in it.

use crate::convert::{range_contains, Point};
use crate::syntax::{
    enclosing_container, has_next_sibling, has_prev_sibling, is_container, member_name_nodes,
    name_node, node_at, node_range, parent_of, subtree_end, tree_shape, SyntaxNode, SyntaxTree,
};
use crate::table::{
    component_table, containers, entries, inputs_of, outputs_of, table_of, ComponentInfo, InfoView,
};
use crate::text::{strings, strip_quotes, without_quotes};
use crate::search::select;
use vstd::prelude::*;

verus! {

/// The ports of a component as other files see them.
#[derive(Clone, Debug, PartialEq, Eq)]
pub struct ComponentSig {
    pub inputs: Vec<String>,
    pub outputs: Vec<String>,
}

pub struct SigView {
    pub inputs: Seq<Seq<char>>,
    pub outputs: Seq<Seq<char>>,
}

impl View for ComponentSig {
    type V = SigView;

    open spec fn view(&self) -> SigView {
        SigView { inputs: strings(self.inputs@), outputs: strings(self.outputs@) }
    }
}

/// The signature of each declared component and primitive, in document
/// order.
pub open spec fn signatures_of(ns: Seq<SyntaxNode>) -> Seq<(Seq<char>, SigView)> {
    containers(ns).map_values(
        |c: int|
            (
                ns[name_node(ns, c)].text@,
                SigView { inputs: inputs_of(ns, c), outputs: outputs_of(ns, c) },
            ),
    )
}

/// An identifier under the cursor, with what it refers to.
#[derive(Clone, Debug)]
pub enum Things {
    /// The name of a cell, written before a port: `cell.port`.
    Cell(usize, String),
    /// A port of the enclosing component, written alone.
    SelfPort(usize, String),
    /// The component that a cell instantiates.
    Component(String),
    /// A group: enabled, guarded on, or named with a hole.
    Group(usize, String),
    /// The path of an import, without its quotes.
    Import(usize, String),
}

pub enum ThingView {
    Cell(int, Seq<char>),
    SelfPort(int, Seq<char>),
    Component(Seq<char>),
    Group(int, Seq<char>),
    Import(int, Seq<char>),
}

impl View for Things {
    type V = ThingView;

    open spec fn view(&self) -> ThingView {
        match self {
            Things::Cell(n, s) => ThingView::Cell(*n as int, s@),
            Things::SelfPort(n, s) => ThingView::SelfPort(*n as int, s@),
            Things::Component(s) => ThingView::Component(s@),
            Things::Group(n, s) => ThingView::Group(*n as int, s@),
            Things::Import(n, s) => ThingView::Import(*n as int, s@),
        }
    }
}

/// The section of a program that a position lies in.
#[derive(Clone, Copy, Debug, PartialEq, Eq, Structural)]
pub enum Context {
    Toplevel,
    /// Inside a component, in none of the sections below.
    Component,
    Cells,
    Group,
    Wires,
    Control,
}

/// What node `x` refers to, judged by its own kind and its parent's kind.
pub open spec fn thing_of(ns: Seq<SyntaxNode>, x: int) -> Option<ThingView> {
    if 0 < x < ns.len() {
        let pk = ns[parent_of(ns, x)].kind@;
        let t = ns[x].text@;
        if ns[x].kind@ == "ident"@ {
            if pk == "port"@ {
                if has_next_sibling(ns, x) {
                    Some(ThingView::Cell(x, t))
                } else if !has_prev_sibling(ns, x) {
                    Some(ThingView::SelfPort(x, t))
                } else {
                    None
                }
            } else if pk == "enable"@ || pk == "port_with"@ {
                Some(ThingView::Group(x, t))
            } else if pk == "hole"@ {
                if has_next_sibling(ns, x) {
                    Some(ThingView::Group(x, t))
                } else {
                    None
                }
            } else if pk == "instantiation"@ {
                Some(ThingView::Component(t))
            } else {
                None
            }
        } else if ns[x].kind@ == "string"@ && pk == "import"@ {
            Some(ThingView::Import(x, strip_quotes(t)))
        } else {
            None
        }
    } else {
        None
    }
}

/// The smallest node at `p`, if there is a tree.
pub open spec fn doc_node_at(nodes: Option<Seq<SyntaxNode>>, p: Point) -> Option<int> {
    match nodes {
        Some(ns) => node_at(ns, p),
        None => None,
    }
}

/// What the smallest node at `p` refers to.
pub open spec fn thing_at(nodes: Option<Seq<SyntaxNode>>, p: Point) -> Option<ThingView> {
    match nodes {
        Some(ns) => match node_at(ns, p) {
            Some(x) => thing_of(ns, x),
            None => None,
        },
        None => None,
    }
}

/// Some node of the given kind below `c` holds `p`, its ends included.
pub open spec fn region_holds(ns: Seq<SyntaxNode>, c: int, kind: Seq<char>, p: Point) -> bool {
    exists|k: int|
        c < k < subtree_end(ns, c) && ns[k].kind@ == kind && range_contains(
            node_range(#[trigger] ns[k]),
            p,
        )
}

/// Node `k` is a component or primitive whose range, ends included, holds
/// `p`.
pub open spec fn holds_container(ns: Seq<SyntaxNode>, p: Point) -> spec_fn(int) -> bool {
    |k: int| is_container(ns[k].kind@) && range_contains(node_range(ns[k]), p)
}

/// The innermost component or primitive whose range, ends included, holds
/// `p`: the last such node in document order, since a node comes after
/// every node that encloses it; -1 if there is none.
pub open spec fn container_at(ns: Seq<SyntaxNode>, p: Point) -> int {
    crate::search::last_before(0, ns.len() as int, holds_container(ns, p))
}

/// The section at `p`. Outside every component or primitive (ranges taken
/// with their ends) it is the top level. Inside the innermost one, it is
/// the first of the cell list, a group, the wires and the control program
/// whose range (ends included) holds `p`, and else the component itself.
pub open spec fn context_at(nodes: Option<Seq<SyntaxNode>>, p: Point) -> Context {
    match nodes {
        Some(ns) => {
            let c = container_at(ns, p);
            if c < 0 {
                Context::Toplevel
            } else if region_holds(ns, c, "cells"@, p) {
                Context::Cells
            } else if region_holds(ns, c, "group"@, p) {
                Context::Group
            } else if region_holds(ns, c, "wires"@, p) {
                Context::Wires
            } else if region_holds(ns, c, "control"@, p) {
                Context::Control
            } else {
                Context::Component
            }
        },
        None => Context::Toplevel,
    }
}

/// The import paths of a tree, in document order, without quotes.
pub open spec fn imports_of(ns: Seq<SyntaxNode>) -> Seq<Seq<char>> {
    select(0, ns.len() as int, is_import(ns)).map_values(
        |k: int| strip_quotes(ns[crate::syntax::first_child(ns, k, "string"@)].text@),
    )
}

/// Node `k` is an import with a path.
pub open spec fn is_import(ns: Seq<SyntaxNode>) -> spec_fn(int) -> bool {
    |k: int| ns[k].kind@ == "import"@ && crate::syntax::has_child(ns, k, "string"@)
}

/// The component around node `x` of the tree, if there is a tree.
pub open spec fn enclosing_in(nodes: Option<Seq<SyntaxNode>>, x: int) -> Option<int> {
    match nodes {
        Some(ns) => if 0 <= x < ns.len() {
            enclosing_container(ns, x)
        } else {
            None
        },
        None => None,
    }
}

/// The name of the component around node `x`.
pub open spec fn enclosing_name(nodes: Option<Seq<SyntaxNode>>, x: int) -> Option<Seq<char>> {
    match enclosing_in(nodes, x) {
        Some(c) => if crate::syntax::has_child(nodes->0, c, "ident"@) {
            Some(nodes->0[name_node(nodes->0, c)].text@)
        } else {
            None
        },
        None => None,
    }
}

pub proof fn lemma_enclosing_bounds(ns: Seq<SyntaxNode>, x: int)
    requires
        tree_shape(ns),
        0 <= x < ns.len(),
    ensures
        enclosing_container(ns, x) matches Some(c) ==> 0 <= c < x,
    decreases x,
{
    if 0 < x {
        crate::syntax::lemma_parent_of(ns, x);
        lemma_enclosing_bounds(ns, parent_of(ns, x));
    }
}

/// A source file with the tree and the component table of its text.
pub struct Document {
    url: String,
    text: String,
    tree: Option<SyntaxTree>,
    components: Vec<(String, ComponentInfo)>,
}

impl Document {
    /// The file's identity, as the client names it.
    pub closed spec fn url_view(&self) -> Seq<char> {
        self.url@
    }

    pub fn url(&self) -> (r: &String)
        ensures
            r@ == self.url_view(),
    {
        &self.url
    }

    pub closed spec fn text_view(&self) -> Seq<char> {
        self.text@
    }

    /// The nodes of the tree, if the text was parsed.
    pub closed spec fn nodes(&self) -> Option<Seq<SyntaxNode>> {
        match self.tree {
            Some(t) => Some(t@),
            None => None,
        }
    }

    pub closed spec fn table(&self) -> Seq<(Seq<char>, InfoView)> {
        entries(self.components@)
    }

    /// The tree is well formed and the table is the one it gives.
    pub open spec fn wf(&self) -> bool {
        match self.nodes() {
            Some(ns) => tree_shape(ns) && self.table() == table_of(ns),
            None => self.table() == Seq::<(Seq<char>, InfoView)>::empty(),
        }
    }

    proof fn lemma_tree(&self)
        requires
            self.wf(),
        ensures
            self.tree matches Some(t) ==> t.wf() && self.nodes() == Some(t@),
            self.tree is None ==> self.nodes() is None,
    {
    }

    /// A document that has not been parsed yet.
    pub fn new(url: String) -> (r: Document)
        ensures
            r.wf(),
            r.url_view() == url@,
            r.text_view() == Seq::<char>::empty(),
            r.nodes() is None,
    {
        let r = Document { url, text: String::new(), tree: None, components: Vec::new() };
        assert(r.table() =~= Seq::<(Seq<char>, InfoView)>::empty());
        r
    }

    /// A document holding `text`, whose parse is `tree`.
    pub fn new_with_text(url: String, text: &str, tree: SyntaxTree) -> (r: Document)
        requires
            tree.wf(),
        ensures
            r.wf(),
            r.url_view() == url@,
            r.text_view() == text@,
            r.nodes() == Some(tree@),
            r.table() == table_of(tree@),
    {
        let mut doc = Document::new(url);
        doc.parse_whole_text(text, tree);
        doc
    }

    /// Replaces the text and its tree together, and rebuilds the component
    /// table from the new tree alone.
    pub fn parse_whole_text(&mut self, text: &str, tree: SyntaxTree)
        requires
            tree.wf(),
        ensures
            final(self).wf(),
            final(self).url_view() == old(self).url_view(),
            final(self).text_view() == text@,
            final(self).nodes() == Some(tree@),
            final(self).table() == table_of(tree@),
    {
        self.text = String::from_str(text);
        self.components = component_table(&tree);
        self.tree = Some(tree);
    }

    /// The component table: each component's name with its entry.
    pub fn component_table(&self) -> (r: &Vec<(String, ComponentInfo)>)
        ensures
            entries(r@) == self.table(),
    {
        &self.components
    }

    /// The smallest node at `point`; none before a parse or outside the
    /// document's range.
    pub fn node_at_point(&self, point: &Point) -> (r: Option<usize>)
        requires
            self.wf(),
        ensures
            self.nodes() is None ==> r is None,
            self.nodes() matches Some(ns) ==> (r matches Some(i) ==> node_at(ns, *point) == Some(
                i as int,
            ) && i < ns.len()) && (r is None ==> node_at(ns, *point) is None),
    {
        proof {
            self.lemma_tree();
        }
        match &self.tree {
            Some(t) => t.node_at(point),
            None => None,
        }
    }

    pub fn text(&self) -> (r: &str)
        ensures
            r@ == self.text_view(),
    {
        self.text.as_str()
    }

    /// The number of nodes of the tree; zero before a parse.
    pub fn node_count(&self) -> (r: usize)
        requires
            self.wf(),
        ensures
            self.nodes() is None ==> r == 0,
            self.nodes() matches Some(ns) ==> r == ns.len() && r >= 1,
    {
        proof {
            self.lemma_tree();
        }
        match &self.tree {
            Some(t) => t.len(),
            None => 0,
        }
    }

    /// The range of node `node`.
    pub fn node_range(&self, node: usize) -> (r: crate::convert::Range)
        requires
            self.wf(),
            self.nodes() matches Some(ns) && node < ns.len(),
        ensures
            r == node_range(self.nodes()->0[node as int]),
    {
        proof {
            self.lemma_tree();
        }
        let n = self.tree.as_ref().unwrap().node(node);
        crate::convert::Range::new(n.start, n.end)
    }

    /// The text of node `node`.
    pub fn node_text(&self, node: usize) -> (r: &str)
        requires
            self.wf(),
            self.nodes() matches Some(ns) && node < ns.len(),
        ensures
            r@ == self.nodes()->0[node as int].text@,
    {
        proof {
            self.lemma_tree();
        }
        self.tree.as_ref().unwrap().node(node).text.as_str()
    }

    /// The name nodes of the declared components and primitives, in
    /// document order.
    pub fn components(&self) -> (r: Vec<usize>)
        requires
            self.wf(),
        ensures
            self.nodes() is None ==> r@.len() == 0,
            self.nodes() matches Some(ns) ==> r@.map_values(|x: usize| x as int) == containers(
                ns,
            ).map_values(|c: int| name_node(ns, c)),
            self.nodes() matches Some(ns) ==> forall|i: int|
                0 <= i < r@.len() ==> #[trigger] r@[i] < ns.len(),
    {
        proof {
            self.lemma_tree();
        }
        let mut r: Vec<usize> = Vec::new();
        match &self.tree {
            None => r,
            Some(t) => {
                let ghost ns = t@;
                let ghost g = crate::table::is_named_container(ns);
                let n = t.len();
                let mut k: usize = 0;
                while k < n
                    invariant
                        k <= n,
                        n == ns.len(),
                        ns == t@,
                        t.wf(),
                        g == crate::table::is_named_container(ns),
                        r@.map_values(|x: usize| x as int) == select(0, k as int, g).map_values(
                            |c: int| name_node(ns, c),
                        ),
                        forall|i: int| 0 <= i < r@.len() ==> #[trigger] r@[i] < ns.len(),
                    decreases n - k,
                {
                    let ghost before = r@;
                    let mut taken = false;
                    if t.is_container(k) {
                        if let Some(m) = t.first_child_of_kind(k, "ident") {
                            r.push(m);
                            taken = true;
                            proof {
                                assert(g(k as int));
                                assert(select(0, k + 1, g) == select(0, k as int, g).push(k as int));
                                assert(r@.map_values(|x: usize| x as int) =~= before.map_values(
                                    |x: usize| x as int,
                                ).push(m as int));
                                assert(select(0, k + 1, g).map_values(|c: int| name_node(ns, c))
                                    =~= select(0, k as int, g).map_values(
                                    |c: int| name_node(ns, c),
                                ).push(name_node(ns, k as int)));
                            }
                        }
                    }
                    if !taken {
                        assert(!g(k as int));
                    }
                    k += 1;
                }
                r
            },
        }
    }

    /// The nearest component or primitive around node `node`.
    pub fn enclosing_component(&self, node: usize) -> (r: Option<usize>)
        requires
            self.wf(),
        ensures
            self.nodes() is None ==> r is None,
            r matches Some(c) ==> enclosing_in(self.nodes(), node as int) == Some(c as int)
                && c < self.nodes()->0.len(),
            r is None ==> enclosing_in(self.nodes(), node as int) is None,
    {
        proof {
            self.lemma_tree();
        }
        match &self.tree {
            Some(t) => {
                if node < t.len() {
                    let r = t.parent_until_container(node);
                    proof {
                        if let Some(c) = r {
                            lemma_enclosing_bounds(t@, node as int);
                        }
                    }
                    r
                } else {
                    None
                }
            },
            None => None,
        }
    }

    /// The name nodes of the named nodes of kind `kind` in the component
    /// around `node`; none where there is no such component.
    fn enclosing_members(&self, node: usize, kind: &str) -> (r: Vec<usize>)
        requires
            self.wf(),
        ensures
            enclosing_in(self.nodes(), node as int) matches Some(c) ==> r@.map_values(
                |x: usize| x as int,
            ) == member_name_nodes(self.nodes()->0, c, kind@),
            enclosing_in(self.nodes(), node as int) is None ==> r@.len() == 0,
            forall|i: int| 0 <= i < r@.len() ==> #[trigger] r@[i] < self.nodes()->0.len(),
    {
        proof {
            self.lemma_tree();
        }
        match self.enclosing_component(node) {
            Some(c) => self.tree.as_ref().unwrap().member_name_nodes(c, kind),
            None => Vec::new(),
        }
    }

    /// The cell name nodes of the component around `node`.
    pub fn enclosing_cells(&self, node: usize) -> (r: Vec<usize>)
        requires
            self.wf(),
        ensures
            enclosing_in(self.nodes(), node as int) matches Some(c) ==> r@.map_values(
                |x: usize| x as int,
            ) == member_name_nodes(self.nodes()->0, c, "cell_assignment"@),
            enclosing_in(self.nodes(), node as int) is None ==> r@.len() == 0,
            forall|i: int| 0 <= i < r@.len() ==> #[trigger] r@[i] < self.nodes()->0.len(),
    {
        self.enclosing_members(node, "cell_assignment")
    }

    /// The group name nodes of the component around `node`.
    pub fn enclosing_groups(&self, node: usize) -> (r: Vec<usize>)
        requires
            self.wf(),
        ensures
            enclosing_in(self.nodes(), node as int) matches Some(c) ==> r@.map_values(
                |x: usize| x as int,
            ) == member_name_nodes(self.nodes()->0, c, "group"@),
            enclosing_in(self.nodes(), node as int) is None ==> r@.len() == 0,
            forall|i: int| 0 <= i < r@.len() ==> #[trigger] r@[i] < self.nodes()->0.len(),
    {
        self.enclosing_members(node, "group")
    }

    /// The port name nodes of the component around `node`.
    pub fn enclosing_component_ports(&self, node: usize) -> (r: Vec<usize>)
        requires
            self.wf(),
        ensures
            enclosing_in(self.nodes(), node as int) matches Some(c) ==> r@.map_values(
                |x: usize| x as int,
            ) == member_name_nodes(self.nodes()->0, c, "io_port"@),
            enclosing_in(self.nodes(), node as int) is None ==> r@.len() == 0,
            forall|i: int| 0 <= i < r@.len() ==> #[trigger] r@[i] < self.nodes()->0.len(),
    {
        self.enclosing_members(node, "io_port")
    }

    /// The name of the component around `node`.
    pub fn enclosing_component_name(&self, node: usize) -> (r: Option<String>)
        requires
            self.wf(),
        ensures
            r matches Some(s) ==> enclosing_name(self.nodes(), node as int) == Some(s@),
            r is None ==> enclosing_name(self.nodes(), node as int) is None,
    {
        proof {
            self.lemma_tree();
        }
        match self.enclosing_component(node) {
            Some(c) => {
                let t = self.tree.as_ref().unwrap();
                match t.first_child_of_kind(c, "ident") {
                    Some(m) => Some(t.node(m).text.clone()),
                    None => None,
                }
            },
            None => None,
        }
    }

    /// The import paths of the file, in document order, without quotes.
    pub fn raw_imports(&self) -> (r: Vec<String>)
        requires
            self.wf(),
        ensures
            self.nodes() is None ==> r@.len() == 0,
            self.nodes() matches Some(ns) ==> strings(r@) == imports_of(ns),
    {
        proof {
            self.lemma_tree();
        }
        let mut r: Vec<String> = Vec::new();
        match &self.tree {
            None => r,
            Some(t) => {
                let ghost ns = t@;
                let ghost g = is_import(ns);
                let ghost path = |k: int|
                    strip_quotes(ns[crate::syntax::first_child(ns, k, "string"@)].text@);
                let n = t.len();
                let mut k: usize = 0;
                while k < n
                    invariant
                        k <= n,
                        n == ns.len(),
                        ns == t@,
                        g == is_import(ns),
                        path == (|k: int|
                            strip_quotes(ns[crate::syntax::first_child(ns, k, "string"@)].text@)),
                        strings(r@) == select(0, k as int, g).map_values(path),
                    decreases n - k,
                {
                    let ghost before = r@;
                    let mut taken = false;
                    if t.kind_is(k, "import") {
                        if let Some(m) = t.first_child_of_kind(k, "string") {
                            let p = without_quotes(t.node(m).text.as_str());
                            r.push(p);
                            taken = true;
                            proof {
                                assert(g(k as int));
                                assert(select(0, k + 1, g) == select(0, k as int, g).push(k as int));
                                assert(strings(r@) =~= strings(before).push(path(k as int)));
                                assert(select(0, k + 1, g).map_values(path) =~= select(
                                    0,
                                    k as int,
                                    g,
                                ).map_values(path).push(path(k as int)));
                            }
                        }
                    }
                    if !taken {
                        assert(!g(k as int));
                    }
                    k += 1;
                }
                r
            },
        }
    }

    /// The ports of each declared component and primitive, in document
    /// order.
    pub fn signatures(&self) -> (r: Vec<(String, ComponentSig)>)
        requires
            self.wf(),
        ensures
            self.nodes() is None ==> r@.len() == 0,
            self.nodes() matches Some(ns) ==> entries(r@) == signatures_of(ns),
    {
        proof {
            self.lemma_tree();
        }
        let mut r: Vec<(String, ComponentSig)> = Vec::new();
        match &self.tree {
            None => r,
            Some(t) => {
                let ghost ns = t@;
                let ghost g = crate::table::is_named_container(ns);
                let ghost sig = |c: int|
                    (
                        ns[name_node(ns, c)].text@,
                        SigView { inputs: inputs_of(ns, c), outputs: outputs_of(ns, c) },
                    );
                let n = t.len();
                let mut k: usize = 0;
                while k < n
                    invariant
                        k <= n,
                        n == ns.len(),
                        ns == t@,
                        t.wf(),
                        g == crate::table::is_named_container(ns),
                        sig == (|c: int|
                            (
                                ns[name_node(ns, c)].text@,
                                SigView { inputs: inputs_of(ns, c), outputs: outputs_of(ns, c) },
                            )),
                        entries(r@) == select(0, k as int, g).map_values(sig),
                    decreases n - k,
                {
                    let ghost before = r@;
                    let mut taken = false;
                    if t.is_container(k) {
                        if let Some(m) = t.first_child_of_kind(k, "ident") {
                            let name = t.node(m).text.clone();
                            let inputs = crate::table::inputs_from(t, k);
                            let outputs = crate::table::outputs_from(t, k);
                            r.push((name, ComponentSig { inputs, outputs }));
                            taken = true;
                            proof {
                                assert(g(k as int));
                                assert(select(0, k + 1, g) == select(0, k as int, g).push(k as int));
                                assert(entries(r@) =~= entries(before).push(sig(k as int)));
                                assert(select(0, k + 1, g).map_values(sig) =~= select(
                                    0,
                                    k as int,
                                    g,
                                ).map_values(sig).push(sig(k as int)));
                            }
                        }
                    }
                    if !taken {
                        assert(!g(k as int));
                    }
                    k += 1;
                }
                r
            },
        }
    }

    /// What the identifier at `point` refers to, judged by the kind of its
    /// parent: nothing where no identifier is there.
    pub fn thing_at_point(&self, point: Point) -> (r: Option<Things>)
        requires
            self.wf(),
        ensures
            r matches Some(t) ==> thing_at(self.nodes(), point) == Some(t@),
            r is None ==> thing_at(self.nodes(), point) is None,
    {
        proof {
            self.lemma_tree();
        }
        let x = match self.node_at_point(&point) {
            Some(x) => x,
            None => return None,
        };
        let t = self.tree.as_ref().unwrap();
        let p = match t.parent(x) {
            Some(p) => p,
            None => return None,
        };
        proof {
            crate::syntax::lemma_parent_of(t@, x as int);
        }
        let text = t.node(x).text.clone();
        if t.kind_is(x, "ident") {
            if t.kind_is(p, "port") {
                if t.has_next_sibling(x) {
                    Some(Things::Cell(x, text))
                } else if !t.has_prev_sibling(x) {
                    Some(Things::SelfPort(x, text))
                } else {
                    None
                }
            } else if t.kind_is(p, "enable") || t.kind_is(p, "port_with") {
                Some(Things::Group(x, text))
            } else if t.kind_is(p, "hole") {
                if t.has_next_sibling(x) {
                    Some(Things::Group(x, text))
                } else {
                    None
                }
            } else if t.kind_is(p, "instantiation") {
                Some(Things::Component(text))
            } else {
                None
            }
        } else if t.kind_is(x, "string") && t.kind_is(p, "import") {
            Some(Things::Import(x, without_quotes(text.as_str())))
        } else {
            None
        }
    }

    /// Whether some node of kind `kind` below `c` holds `p`.
    fn region_holds(t: &SyntaxTree, c: usize, kind: &str, p: &Point) -> (r: bool)
        requires
            c < t@.len(),
        ensures
            r == region_holds(t@, c as int, kind@, *p),
    {
        let ghost ns = t@;
        let e = t.subtree_end(c);
        let mut k = c + 1;
        while k < e
            invariant
                c < k <= e,
                e <= ns.len(),
                ns == t@,
                e == subtree_end(ns, c as int),
                forall|m: int|
                    c < m < k ==> !(ns[m].kind@ == kind@ && range_contains(
                        node_range(#[trigger] ns[m]),
                        *p,
                    )),
            decreases e - k,
        {
            let n = t.node(k);
            if t.kind_is(k, kind) && n.start.le(p) && p.le(&n.end) {
                assert(range_contains(node_range(ns[k as int]), *p));
                return true;
            }
            k += 1;
        }
        false
    }

    /// The innermost component or primitive whose range holds `p`; see
    /// `container_at`.
    fn container_at(t: &SyntaxTree, p: &Point) -> (r: Option<usize>)
        ensures
            r matches Some(c) ==> c as int == container_at(t@, *p) && c < t@.len(),
            r is None ==> container_at(t@, *p) < 0,
    {
        let ghost ns = t@;
        let ghost f = holds_container(ns, *p);
        let n = t.len();
        let mut j = n;
        while j > 0
            invariant
                j <= n,
                n == ns.len(),
                ns == t@,
                f == holds_container(ns, *p),
                forall|m: int| j <= m < n ==> !#[trigger] f(m),
            decreases j,
        {
            j -= 1;
            let node = t.node(j);
            if t.is_container(j) && node.start.le(p) && p.le(&node.end) {
                proof {
                    assert(f(j as int));
                    crate::search::lemma_last_before_skip(0, j + 1, n as int, f);
                }
                return Some(j);
            }
            assert(!f(j as int));
        }
        proof {
            crate::search::lemma_last_before_skip(0, 0, n as int, f);
        }
        None
    }

    /// The section of the program at `point`; see `context_at`.
    pub fn context_at_point(&self, point: &Point) -> (r: Context)
        requires
            self.wf(),
        ensures
            r == context_at(self.nodes(), *point),
    {
        proof {
            self.lemma_tree();
        }
        let t = match &self.tree {
            Some(t) => t,
            None => return Context::Toplevel,
        };
        let comp = match Self::container_at(t, point) {
            Some(c) => c,
            None => return Context::Toplevel,
        };
        if Self::region_holds(t, comp, "cells", point) {
            Context::Cells
        } else if Self::region_holds(t, comp, "group", point) {
            Context::Group
        } else if Self::region_holds(t, comp, "wires", point) {
            Context::Wires
        } else if Self::region_holds(t, comp, "control", point) {
            Context::Control
        } else {
            Context::Component
        }
    }

    /// The names of the declared components and primitives, in document
    /// order.
    pub fn component_names(&self) -> (r: Vec<String>)
        requires
            self.wf(),
        ensures
            self.nodes() is None ==> r@.len() == 0,
            self.nodes() matches Some(ns) ==> strings(r@) == containers(ns).map_values(
                |c: int| ns[name_node(ns, c)].text@,
            ),
    {
        proof {
            self.lemma_tree();
        }
        let nodes = self.components();
        match &self.tree {
            None => Vec::new(),
            Some(t) => {
                let ghost ns = t@;
                let r = t.texts(&nodes);
                proof {
                    assert(nodes@.map_values(|x: usize| x as int).map_values(|k: int| ns[k].text@)
                        =~= containers(ns).map_values(|c: int| ns[name_node(ns, c)].text@));
                }
                r
            },
        }
    }
}

} // verus!
