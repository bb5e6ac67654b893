//! Finding where the thing under the cursor is defined: in this file, or,
//! for a component declared elsewhere, by asking to search the files that
//! this one imports.

use crate::convert::Range;
use crate::document::{enclosing_in, Document, ThingView, Things};
use crate::search::{first_from, lemma_first_from_skip};
use crate::syntax::{member_name_nodes, name_node, node_range, SyntaxNode};
use crate::table::containers;
use crate::text::strings;
use vstd::prelude::*;

verus! {

/// An answer, or the files where the search for it goes on and the key to
/// look up there.
#[derive(Debug)]
pub enum QueryResult<F, C> {
    Found(F),
    ContinueSearch(Vec<String>, C),
}

pub enum Outcome<F, C> {
    Found(F),
    ContinueSearch(Seq<Seq<char>>, C),
}

impl<F: View, C: View> View for QueryResult<F, C> {
    type V = Outcome<F::V, C::V>;

    open spec fn view(&self) -> Outcome<F::V, C::V> {
        match self {
            QueryResult::Found(f) => Outcome::Found(f@),
            QueryResult::ContinueSearch(paths, c) => Outcome::ContinueSearch(strings(paths@), c@),
        }
    }
}

/// A region of a file.
#[derive(Clone, Debug, PartialEq, Eq)]
pub struct Location {
    pub uri: String,
    pub range: Range,
}

impl View for Location {
    type V = (Seq<char>, Range);

    open spec fn view(&self) -> (Seq<char>, Range) {
        (self.uri@, self.range)
    }
}

/// The first of the nodes `cands` whose text is `name`.
pub open spec fn first_named(ns: Seq<SyntaxNode>, cands: Seq<int>, name: Seq<char>) -> Option<int> {
    let i = first_from(0, cands.len() as int, text_is(ns, cands, name));
    if i < cands.len() {
        Some(cands[i])
    } else {
        None
    }
}

/// Candidate `i` has the text `name`.
pub open spec fn text_is(ns: Seq<SyntaxNode>, cands: Seq<int>, name: Seq<char>) -> spec_fn(
    int,
) -> bool {
    |i: int| ns[cands[i]].text@ == name
}

/// The definition among the name nodes of kind `kind` in the component
/// around `node`: where the file is `url`, at the first such node named
/// `name`.
pub open spec fn local_definition(
    nodes: Option<Seq<SyntaxNode>>,
    url: Seq<char>,
    node: int,
    kind: Seq<char>,
    name: Seq<char>,
) -> Option<Outcome<(Seq<char>, Range), Seq<char>>> {
    match enclosing_in(nodes, node) {
        Some(c) => match first_named(nodes->0, member_name_nodes(nodes->0, c, kind), name) {
            Some(k) => Some(Outcome::Found((url, node_range(nodes->0[k])))),
            None => None,
        },
        None => None,
    }
}

/// The definition of a component: its declaration in this file, else a
/// search of the files this one imports.
pub open spec fn component_definition(
    nodes: Option<Seq<SyntaxNode>>,
    url: Seq<char>,
    name: Seq<char>,
    imports: Seq<Seq<char>>,
) -> Outcome<(Seq<char>, Range), Seq<char>> {
    match nodes {
        Some(ns) => match first_named(
            ns,
            containers(ns).map_values(|c: int| name_node(ns, c)),
            name,
        ) {
            Some(k) => Outcome::Found((url, node_range(ns[k]))),
            None => Outcome::ContinueSearch(imports, name),
        },
        None => Outcome::ContinueSearch(imports, name),
    }
}

/// The definition of an import: the start of the first file it resolves
/// to, if any.
pub open spec fn import_definition(targets: Seq<Seq<char>>) -> Option<
    Outcome<(Seq<char>, Range), Seq<char>>,
> {
    if targets.len() > 0 {
        Some(Outcome::Found(("file://"@ + targets[0], Range::zero_spec())))
    } else {
        None
    }
}

/// The definition of what `thing` names. `paths` are the existing files
/// that the imports in question resolve to: those of the whole file for a
/// component, those of the import itself for an import.
pub open spec fn definition(
    nodes: Option<Seq<SyntaxNode>>,
    url: Seq<char>,
    thing: ThingView,
    paths: Seq<Seq<char>>,
) -> Option<Outcome<(Seq<char>, Range), Seq<char>>> {
    match thing {
        ThingView::Cell(n, name) => local_definition(nodes, url, n, "cell_assignment"@, name),
        ThingView::SelfPort(n, name) => local_definition(nodes, url, n, "io_port"@, name),
        ThingView::Group(n, name) => local_definition(nodes, url, n, "group"@, name),
        ThingView::Import(_, _) => import_definition(paths),
        ThingView::Component(name) => Some(component_definition(nodes, url, name, paths)),
    }
}

/// Copies of the given strings.
pub fn copy_strings(v: &Vec<String>) -> (r: Vec<String>)
    ensures
        strings(r@) == strings(v@),
{
    let mut r: Vec<String> = Vec::new();
    let mut i: usize = 0;
    while i < v.len()
        invariant
            i <= v@.len(),
            strings(r@) == strings(v@.take(i as int)),
        decreases v@.len() - i,
    {
        let ghost before = r@;
        r.push(v[i].clone());
        proof {
            assert(strings(r@) =~= strings(before).push(v@[i as int]@));
            assert(v@.take(i + 1) =~= v@.take(i as int).push(v@[i as int]));
            assert(strings(r@) =~= strings(v@.take(i + 1)));
        }
        i += 1;
    }
    assert(v@.take(i as int) =~= v@);
    r
}

/// The work queue of a search across files: the paths still to visit,
/// taken from the end, and the paths already visited, each visited at most
/// once so that import cycles end.
pub struct Frontier {
    pending: Vec<String>,
    visited: Vec<String>,
}

/// Path `i` of `pending` was not visited yet.
pub open spec fn unvisited(pending: Seq<Seq<char>>, visited: Seq<Seq<char>>) -> spec_fn(
    int,
) -> bool {
    |i: int| !visited.contains(pending[i])
}

/// The position of the last pending path not visited yet, or -1.
pub open spec fn next_index(pending: Seq<Seq<char>>, visited: Seq<Seq<char>>) -> int {
    crate::search::last_before(0, pending.len() as int, unvisited(pending, visited))
}

impl Frontier {
    pub closed spec fn pending(&self) -> Seq<Seq<char>> {
        strings(self.pending@)
    }

    pub closed spec fn visited(&self) -> Seq<Seq<char>> {
        strings(self.visited@)
    }

    /// A search that starts from `paths`.
    pub fn new(paths: &Vec<String>) -> (r: Frontier)
        ensures
            r.pending() == strings(paths@),
            r.visited() == Seq::<Seq<char>>::empty(),
    {
        let r = Frontier { pending: copy_strings(paths), visited: Vec::new() };
        assert(r.visited() =~= Seq::<Seq<char>>::empty());
        r
    }

    fn was_visited(&self, p: &String) -> (r: bool)
        ensures
            r == self.visited().contains(p@),
    {
        let mut i: usize = 0;
        while i < self.visited.len()
            invariant
                i <= self.visited@.len(),
                forall|j: int| 0 <= j < i ==> self.visited()[j] != p@,
            decreases self.visited@.len() - i,
        {
            if self.visited[i] == *p {
                assert(self.visited()[i as int] == p@);
                return true;
            }
            i += 1;
        }
        false
    }

    /// Takes the last pending path that was not visited yet, dropping the
    /// visited ones after it, and marks it visited; none once every pending
    /// path was visited.
    pub fn next_path(&mut self) -> (r: Option<String>)
        ensures
            ({
                let k = next_index(old(self).pending(), old(self).visited());
                &&& k >= 0 ==> (r matches Some(p) && p@ == old(self).pending()[k]
                    && final(self).pending() == old(self).pending().take(k)
                    && final(self).visited() == old(self).visited().push(p@))
                &&& k < 0 ==> r is None && final(self).pending() == Seq::<Seq<char>>::empty()
                    && final(self).visited() == old(self).visited()
            }),
    {
        let ghost pend = self.pending();
        let ghost vis = self.visited();
        let ghost f = unvisited(pend, vis);
        loop
            invariant
                self.visited() == vis,
                pend == strings(old(self).pending@),
                vis == strings(old(self).visited@),
                f == unvisited(pend, vis),
                self.pending() == pend.take(self.pending@.len() as int),
                self.pending@.len() <= pend.len(),
                forall|i: int| self.pending@.len() <= i < pend.len() ==> !#[trigger] f(i),
            decreases self.pending@.len(),
        {
            let ghost len = self.pending@.len() as int;
            let ghost before = self.pending@;
            match self.pending.pop() {
                None => {
                    proof {
                        crate::search::lemma_last_before_skip(0, 0, pend.len() as int, f);
                        assert(self.pending() =~= Seq::<Seq<char>>::empty());
                    }
                    return None;
                },
                Some(p) => {
                    assert(strings(before)[len - 1] == before[len - 1]@);
                    assert(pend.take(len)[len - 1] == pend[len - 1]);
                    assert(p@ == pend[len - 1]);
                    assert(self.pending() =~= pend.take(len - 1));
                    if !self.was_visited(&p) {
                        proof {
                            assert(f(len - 1));
                            crate::search::lemma_last_before_skip(0, len, pend.len() as int, f);
                        }
                        let q = p.clone();
                        self.visited.push(p);
                        proof {
                            assert(self.visited() =~= vis.push(q@));
                        }
                        return Some(q);
                    }
                    assert(!f(len - 1));
                },
            }
        }
    }

    /// Queues more paths to visit.
    pub fn add_paths(&mut self, paths: &Vec<String>)
        ensures
            final(self).pending() == old(self).pending() + strings(paths@),
            final(self).visited() == old(self).visited(),
    {
        let mut i: usize = 0;
        while i < paths.len()
            invariant
                i <= paths@.len(),
                self.pending() == old(self).pending() + strings(paths@.take(i as int)),
                self.visited() == old(self).visited(),
            decreases paths@.len() - i,
        {
            let ghost before = self.pending@;
            self.pending.push(paths[i].clone());
            proof {
                assert(paths@.take(i + 1) =~= paths@.take(i as int).push(paths@[i as int]));
                assert(strings(self.pending@) =~= strings(before).push(paths@[i as int]@));
                assert(self.pending() =~= old(self).pending() + strings(paths@.take(i + 1)));
            }
            i += 1;
        }
        assert(paths@.take(i as int) =~= paths@);
    }

    /// Takes in the answer from one file: an answer ends the search; a
    /// request to search further queues its paths.
    pub fn absorb<F>(&mut self, result: QueryResult<F, String>) -> (r: Option<F>)
        ensures
            result matches QueryResult::Found(f) ==> (r == Some(f) && final(self).pending()
                == old(self).pending()),
            result matches QueryResult::ContinueSearch(ps, _) ==> (r is None
                && final(self).pending() == old(self).pending() + strings(ps@)),
            final(self).visited() == old(self).visited(),
    {
        match result {
            QueryResult::Found(f) => Some(f),
            QueryResult::ContinueSearch(ps, _) => {
                self.add_paths(&ps);
                None
            },
        }
    }
}

impl Document {
    /// The first of the nodes `cands` whose text is `name`.
    fn first_named(&self, cands: &Vec<usize>, name: &String) -> (r: Option<usize>)
        requires
            self.wf(),
            self.nodes() is Some,
            forall|i: int| 0 <= i < cands@.len() ==> #[trigger] cands@[i] < self.nodes()->0.len(),
        ensures
            r matches Some(k) ==> first_named(
                self.nodes()->0,
                cands@.map_values(|x: usize| x as int),
                name@,
            ) == Some(k as int) && k < self.nodes()->0.len(),
            r is None ==> first_named(
                self.nodes()->0,
                cands@.map_values(|x: usize| x as int),
                name@,
            ) is None,
    {
        let ghost ns = self.nodes()->0;
        let ghost cs = cands@.map_values(|x: usize| x as int);
        let ghost f = text_is(ns, cs, name@);
        let mut i: usize = 0;
        while i < cands.len()
            invariant
                i <= cands@.len(),
                self.wf(),
                self.nodes() == Some(ns),
                cs == cands@.map_values(|x: usize| x as int),
                f == text_is(ns, cs, name@),
                forall|j: int| 0 <= j < cands@.len() ==> #[trigger] cands@[j] < ns.len(),
                forall|j: int| 0 <= j < i ==> !#[trigger] f(j),
            decreases cands@.len() - i,
        {
            let t = self.node_text(cands[i]);
            if crate::text::same_chars(t, name.as_str()) {
                proof {
                    assert(cs[i as int] == cands@[i as int] as int);
                    assert(f(i as int));
                    lemma_first_from_skip(0, i as int, cs.len() as int, f);
                }
                return Some(cands[i]);
            }
            assert(cs[i as int] == cands@[i as int] as int);
            assert(!f(i as int));
            i += 1;
        }
        proof {
            lemma_first_from_skip(0, i as int, cs.len() as int, f);
        }
        None
    }

    /// The location of node `k` in this file.
    fn location_of(&self, k: usize) -> (r: Location)
        requires
            self.wf(),
            self.nodes() matches Some(ns) && k < ns.len(),
        ensures
            r@ == (self.url_view(), node_range(self.nodes()->0[k as int])),
    {
        let range = self.node_range(k);
        Location { uri: self.url().clone(), range }
    }

    /// Looks `name` up among the name nodes `cands` of the component around
    /// a reference.
    fn find_among(&self, cands: Vec<usize>, name: &String) -> (r: Option<
        QueryResult<Location, String>,
    >)
        requires
            self.wf(),
            self.nodes() is Some,
            forall|i: int| 0 <= i < cands@.len() ==> #[trigger] cands@[i] < self.nodes()->0.len(),
        ensures
            r matches Some(q) ==> exists|k: int|
                first_named(self.nodes()->0, cands@.map_values(|x: usize| x as int), name@) == Some(
                    k,
                ) && q@ == Outcome::<(Seq<char>, Range), Seq<char>>::Found(
                    (self.url_view(), node_range(self.nodes()->0[k])),
                ),
            r is None ==> first_named(
                self.nodes()->0,
                cands@.map_values(|x: usize| x as int),
                name@,
            ) is None,
    {
        match self.first_named(&cands, name) {
            Some(k) => Some(QueryResult::Found(self.location_of(k))),
            None => None,
        }
    }

    /// The cell named `name` in the component around `node`.
    pub fn find_cell(&self, node: usize, name: String) -> (r: Option<QueryResult<Location, String>>)
        requires
            self.wf(),
        ensures
            r matches Some(q) ==> local_definition(
                self.nodes(),
                self.url_view(),
                node as int,
                "cell_assignment"@,
                name@,
            ) == Some(q@),
            r is None ==> local_definition(
                self.nodes(),
                self.url_view(),
                node as int,
                "cell_assignment"@,
                name@,
            ) is None,
    {
        let cands = self.enclosing_cells(node);
        self.find_local(cands, node, &name)
    }

    /// The port named `name` of the component around `node`.
    pub fn find_self_port(&self, node: usize, name: String) -> (r: Option<
        QueryResult<Location, String>,
    >)
        requires
            self.wf(),
        ensures
            r matches Some(q) ==> local_definition(
                self.nodes(),
                self.url_view(),
                node as int,
                "io_port"@,
                name@,
            ) == Some(q@),
            r is None ==> local_definition(
                self.nodes(),
                self.url_view(),
                node as int,
                "io_port"@,
                name@,
            ) is None,
    {
        let cands = self.enclosing_component_ports(node);
        self.find_local(cands, node, &name)
    }

    /// The group named `name` in the component around `node`.
    pub fn find_group(&self, node: usize, name: String) -> (r: Option<
        QueryResult<Location, String>,
    >)
        requires
            self.wf(),
        ensures
            r matches Some(q) ==> local_definition(
                self.nodes(),
                self.url_view(),
                node as int,
                "group"@,
                name@,
            ) == Some(q@),
            r is None ==> local_definition(
                self.nodes(),
                self.url_view(),
                node as int,
                "group"@,
                name@,
            ) is None,
    {
        let cands = self.enclosing_groups(node);
        self.find_local(cands, node, &name)
    }

    /// The start of the first of `targets`, the existing files that an
    /// import resolves to; none where there is none.
    pub fn find_import(&self, targets: &Vec<String>) -> (r: Option<QueryResult<Location, String>>)
        ensures
            r matches Some(q) ==> import_definition(strings(targets@)) == Some(q@),
            r is None ==> import_definition(strings(targets@)) is None,
    {
        if targets.len() == 0 {
            return None;
        }
        let mut uri = String::from_str("file://");
        uri.append(targets[0].as_str());
        Some(QueryResult::Found(Location { uri, range: Range::zero() }))
    }

    /// The declaration of component `name` in this file; else a search for
    /// it in `imports`, the existing files that this file's imports
    /// resolve to.
    pub fn find_component(&self, name: String, imports: &Vec<String>) -> (r: QueryResult<
        Location,
        String,
    >)
        requires
            self.wf(),
        ensures
            r@ == component_definition(self.nodes(), self.url_view(), name@, strings(imports@)),
    {
        let cands = self.components();
        if self.node_count() == 0 {
            return QueryResult::ContinueSearch(copy_strings(imports), name);
        }
        match self.first_named(&cands, &name) {
            Some(k) => QueryResult::Found(self.location_of(k)),
            None => QueryResult::ContinueSearch(copy_strings(imports), name),
        }
    }

    /// The paths to probe for this file's imports, in priority order: each
    /// import joined onto `cur_dir` (the file's directory) and then onto
    /// each of `lib_paths`, and resolved. Those that exist are the
    /// resolved imports (see `keep_existing`).
    pub fn resolved_imports(&self, cur_dir: &str, lib_paths: &Vec<String>) -> (r: Vec<String>)
        requires
            self.wf(),
        ensures
            ({
                let imports = match self.nodes() {
                    Some(ns) => crate::document::imports_of(ns),
                    None => Seq::<Seq<char>>::empty(),
                };
                let c = crate::imports::candidates(
                    crate::imports::roots(cur_dir@, strings(lib_paths@)),
                    imports,
                );
                &&& r@.len() == c.len()
                &&& forall|i: int|
                    0 <= i < c.len() && crate::imports::is_absolute(#[trigger] c[i]) ==> r@[i]@
                        == c[i]
            }),
    {
        let raw = self.raw_imports();
        assert(self.nodes() is None ==> strings(raw@) =~= Seq::<Seq<char>>::empty());
        let cands = crate::imports::search_candidates(cur_dir, lib_paths, &raw);
        crate::imports::resolve_all(&cands)
    }

    /// The import strings whose files the definition of `thing` may lie
    /// in: the import itself for an import, every import of the file for a
    /// component, none for the rest.
    pub fn imports_for(&self, thing: &Things) -> (r: Vec<String>)
        requires
            self.wf(),
        ensures
            thing matches Things::Import(_, name) ==> strings(r@) == seq![name@],
            thing matches Things::Component(_) ==> (self.nodes() matches Some(ns) ==> strings(r@)
                == crate::document::imports_of(ns)),
            thing matches Things::Component(_) ==> (self.nodes() is None ==> r@.len() == 0),
            !(thing is Import || thing is Component) ==> r@.len() == 0,
    {
        match thing {
            Things::Import(_, name) => {
                let mut r: Vec<String> = Vec::new();
                r.push(name.clone());
                assert(strings(r@) =~= seq![name@]);
                r
            },
            Things::Component(_) => self.raw_imports(),
            _ => Vec::new(),
        }
    }

    /// Where `thing` is defined; see `definition`.
    pub fn find_thing(&self, thing: Things, paths: &Vec<String>) -> (r: Option<
        QueryResult<Location, String>,
    >)
        requires
            self.wf(),
        ensures
            r matches Some(q) ==> definition(self.nodes(), self.url_view(), thing@, strings(paths@))
                == Some(q@),
            r is None ==> definition(self.nodes(), self.url_view(), thing@, strings(paths@)) is None,
    {
        match thing {
            Things::Cell(node, name) => self.find_cell(node, name),
            Things::SelfPort(node, name) => self.find_self_port(node, name),
            Things::Group(node, name) => self.find_group(node, name),
            Things::Import(_, _) => self.find_import(paths),
            Things::Component(name) => Some(self.find_component(name, paths)),
        }
    }

    /// Looks `name` up among the name nodes `cands` of the component around
    /// `node`.
    fn find_local(&self, cands: Vec<usize>, node: usize, name: &String) -> (r: Option<
        QueryResult<Location, String>,
    >)
        requires
            self.wf(),
            forall|i: int| 0 <= i < cands@.len() ==> #[trigger] cands@[i] < self.nodes()->0.len(),
            enclosing_in(self.nodes(), node as int) is None ==> cands@.len() == 0,
        ensures
            forall|kind: Seq<char>|
                (enclosing_in(self.nodes(), node as int) matches Some(c) && cands@.map_values(
                    |x: usize| x as int,
                ) == member_name_nodes(self.nodes()->0, c, kind)) || (enclosing_in(
                    self.nodes(),
                    node as int,
                ) is None) ==> {
                    &&& r matches Some(q) ==> #[trigger] local_definition(
                        self.nodes(),
                        self.url_view(),
                        node as int,
                        kind,
                        name@,
                    ) == Some(q@)
                    &&& r is None ==> local_definition(
                        self.nodes(),
                        self.url_view(),
                        node as int,
                        kind,
                        name@,
                    ) is None
                },
    {
        if cands.len() == 0 {
            proof {
                let cs = cands@.map_values(|x: usize| x as int);
                if let Some(_) = enclosing_in(self.nodes(), node as int) {
                    assert(first_from(0, cs.len() as int, text_is(self.nodes()->0, cs, name@))
                        == 0);
                }
            }
            return None;
        }
        proof {
            if self.nodes() is None {
                assert(enclosing_in(self.nodes(), node as int) is None);
            }
        }
        match self.find_among(cands, name) {
            Some(q) => Some(q),
            None => None,
        }
    }
}

} // verus!
