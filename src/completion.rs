//! Completion candidates at a position, chosen by the section of the
//! program that the position lies in.

use crate::convert::Point;
use crate::document::{context_at, doc_node_at, enclosing_name, Context, Document};
use crate::goto_definition::{copy_strings, Outcome, QueryResult};
use crate::syntax::SyntaxNode;
use crate::table::{entries, key_index, key_is, InfoView};
use crate::text::{preceding_word, same_chars, strings, word_before};
use vstd::prelude::*;

verus! {

/// Each name with the same label.
pub open spec fn tagged(names: Seq<Seq<char>>, tag: Seq<char>) -> Seq<(Seq<char>, Seq<char>)> {
    names.map_values(|n: Seq<char>| (n, tag))
}

/// The keys of a sequence of entries, in order.
pub open spec fn keys<V>(s: Seq<(Seq<char>, V)>) -> Seq<Seq<char>> {
    s.map_values(|e: (Seq<char>, V)| e.0)
}

/// For each group, `g[go]`, `g[done]` and `g`, labelled as holes.
pub open spec fn holes(groups: Seq<Seq<char>>) -> Seq<(Seq<char>, Seq<char>)>
    decreases groups.len(),
{
    if groups.len() == 0 {
        Seq::empty()
    } else {
        let g = groups.last();
        holes(groups.drop_last()) + seq![
            (g + "[go]"@, "hole"@),
            (g + "[done]"@, "hole"@),
            (g, "hole"@),
        ]
    }
}

/// The value of key `k`, if there is an entry for it.
pub open spec fn lookup<V>(s: Seq<(Seq<char>, V)>, k: Seq<char>) -> Option<V> {
    let i = key_index(s, k);
    if i < s.len() {
        Some(s[i].1)
    } else {
        None
    }
}

/// The ports of a component: its inputs, then its outputs.
pub open spec fn port_items(info: InfoView) -> Seq<(Seq<char>, Seq<char>)> {
    tagged(info.inputs, "input"@) + tagged(info.outputs, "output"@)
}

/// The ports of component `comp` if the table has it; else a search for it
/// in `imports`.
pub open spec fn port_completion(
    table: Seq<(Seq<char>, InfoView)>,
    comp: Seq<char>,
    imports: Seq<Seq<char>>,
) -> Outcome<Seq<(Seq<char>, Seq<char>)>, Seq<char>> {
    match lookup(table, comp) {
        Some(info) => Outcome::Found(port_items(info)),
        None => Outcome::ContinueSearch(imports, comp),
    }
}

/// The table entry of the component around the node at `p`.
pub open spec fn info_at(
    nodes: Option<Seq<SyntaxNode>>,
    table: Seq<(Seq<char>, InfoView)>,
    p: Point,
) -> Option<InfoView> {
    match doc_node_at(nodes, p) {
        Some(x) => match enclosing_name(nodes, x) {
            Some(n) => lookup(table, n),
            None => None,
        },
        None => None,
    }
}

/// After `cell.`: the ports of the component that the cell before the
/// cursor instantiates, where `info` is the entry of the component around
/// the cursor.
pub open spec fn dot_completion(
    info: Option<InfoView>,
    table: Seq<(Seq<char>, InfoView)>,
    text: Seq<char>,
    p: Point,
    imports: Seq<Seq<char>>,
) -> Outcome<Seq<(Seq<char>, Seq<char>)>, Seq<char>> {
    let nothing = Outcome::Found(Seq::<(Seq<char>, Seq<char>)>::empty());
    match (preceding_word(text, p.row as int, p.column as int), info) {
        (Some(w), Some(i)) => match lookup(i.cells, w) {
            Some(comp) => port_completion(table, comp, imports),
            None => nothing,
        },
        _ => nothing,
    }
}

/// The completions at `p`: none where no word precedes the cursor on its
/// line. `dot` says that the completion was triggered by
/// `.`, after which the word before the cursor names a cell whose ports are
/// offered; `imports` are the existing files that the file's imports
/// resolve to.
pub open spec fn completion(
    nodes: Option<Seq<SyntaxNode>>,
    table: Seq<(Seq<char>, InfoView)>,
    text: Seq<char>,
    p: Point,
    dot: bool,
    imports: Seq<Seq<char>>,
) -> Outcome<Seq<(Seq<char>, Seq<char>)>, Seq<char>> {
    let nothing = Outcome::Found(Seq::<(Seq<char>, Seq<char>)>::empty());
    let info = info_at(nodes, table, p);
    if preceding_word(text, p.row as int, p.column as int) is None {
        nothing
    } else {
        match context_at(nodes, p) {
            Context::Toplevel => nothing,
            Context::Component => nothing,
            Context::Cells => Outcome::Found(tagged(keys(table), "component"@)),
            Context::Group => if dot {
                dot_completion(info, table, text, p, imports)
            } else {
                match info {
                    Some(i) => Outcome::Found(tagged(keys(i.cells), "cell"@) + holes(i.groups)),
                    None => nothing,
                }
            },
            Context::Wires => if dot {
                dot_completion(info, table, text, p, imports)
            } else {
                match info {
                    Some(i) => Outcome::Found(tagged(keys(i.cells), "cell"@)),
                    None => nothing,
                }
            },
            Context::Control => match info {
                Some(i) => Outcome::Found(tagged(i.groups, "group"@)),
                None => nothing,
            },
        }
    }
}

/// The view of a completion answer.
pub open spec fn items_view(r: QueryResult<Vec<(String, String)>, String>) -> Outcome<
    Seq<(Seq<char>, Seq<char>)>,
    Seq<char>,
> {
    match r {
        QueryResult::Found(v) => Outcome::Found(entries(v@)),
        QueryResult::ContinueSearch(ps, c) => Outcome::ContinueSearch(strings(ps@), c@),
    }
}

/// Each name with the label `tag`.
fn tag_all(names: &Vec<String>, tag: &str) -> (r: Vec<(String, String)>)
    ensures
        entries(r@) == tagged(strings(names@), tag@),
{
    let mut r: Vec<(String, String)> = Vec::new();
    let mut i: usize = 0;
    while i < names.len()
        invariant
            i <= names@.len(),
            entries(r@) == tagged(strings(names@.take(i as int)), tag@),
        decreases names@.len() - i,
    {
        let ghost before = r@;
        r.push((names[i].clone(), String::from_str(tag)));
        proof {
            assert(names@.take(i + 1) =~= names@.take(i as int).push(names@[i as int]));
            assert(entries(r@) =~= entries(before).push((names@[i as int]@, tag@)));
            assert(entries(r@) =~= tagged(strings(names@.take(i + 1)), tag@));
        }
        i += 1;
    }
    assert(names@.take(i as int) =~= names@);
    r
}

/// The keys of `v`, in order.
fn key_list<V: View>(v: &Vec<(String, V)>) -> (r: Vec<String>)
    ensures
        strings(r@) == keys(entries(v@)),
{
    let mut r: Vec<String> = Vec::new();
    let mut i: usize = 0;
    while i < v.len()
        invariant
            i <= v@.len(),
            strings(r@) == keys(entries(v@.take(i as int))),
        decreases v@.len() - i,
    {
        let ghost before = r@;
        r.push(v[i].0.clone());
        proof {
            assert(v@.take(i + 1) =~= v@.take(i as int).push(v@[i as int]));
            assert(strings(r@) =~= strings(before).push(v@[i as int].0@));
            assert(strings(r@) =~= keys(entries(v@.take(i + 1))));
        }
        i += 1;
    }
    assert(v@.take(i as int) =~= v@);
    r
}

/// The hole completions of the given groups; see `holes`.
fn hole_items(groups: &Vec<String>) -> (r: Vec<(String, String)>)
    ensures
        entries(r@) == holes(strings(groups@)),
{
    let mut r: Vec<(String, String)> = Vec::new();
    let mut i: usize = 0;
    while i < groups.len()
        invariant
            i <= groups@.len(),
            entries(r@) == holes(strings(groups@.take(i as int))),
        decreases groups@.len() - i,
    {
        let ghost before = entries(r@);
        let g = &groups[i];
        let mut go = g.clone();
        go.append("[go]");
        let mut done = g.clone();
        done.append("[done]");
        r.push((go, String::from_str("hole")));
        r.push((done, String::from_str("hole")));
        r.push((g.clone(), String::from_str("hole")));
        proof {
            let gs = strings(groups@.take(i + 1));
            assert(gs.drop_last() =~= strings(groups@.take(i as int)));
            assert(gs.last() == g@);
            assert(entries(r@) =~= before + seq![
                (g@ + "[go]"@, "hole"@),
                (g@ + "[done]"@, "hole"@),
                (g@, "hole"@),
            ]);
        }
        i += 1;
    }
    assert(groups@.take(i as int) =~= groups@);
    r
}

/// The position of the entry of `v` with key `k`, if there is one.
fn find_key<V: View>(v: &Vec<(String, V)>, k: &String) -> (r: Option<usize>)
    ensures
        r matches Some(i) ==> i as int == key_index(entries(v@), k@) && i < v@.len(),
        r is None ==> key_index(entries(v@), k@) == v@.len(),
{
    let ghost s = entries(v@);
    let ghost f = key_is(s, k@);
    let mut i: usize = 0;
    while i < v.len()
        invariant
            i <= v@.len(),
            s == entries(v@),
            f == key_is(s, k@),
            forall|m: int| 0 <= m < i ==> !#[trigger] f(m),
        decreases v@.len() - i,
    {
        if v[i].0 == *k {
            proof {
                assert(f(i as int));
                crate::search::lemma_first_from_skip(0, i as int, s.len() as int, f);
            }
            return Some(i);
        }
        assert(!f(i as int));
        i += 1;
    }
    proof {
        crate::search::lemma_first_from_skip(0, i as int, s.len() as int, f);
    }
    None
}

impl Document {
    /// The ports of component `comp` if this file declares it; else a
    /// search for it in `imports`, the existing files that this file's
    /// imports resolve to.
    pub fn port_completions(&self, comp: String, imports: &Vec<String>) -> (r: QueryResult<
        Vec<(String, String)>,
        String,
    >)
        requires
            self.wf(),
        ensures
            items_view(r) == port_completion(self.table(), comp@, strings(imports@)),
    {
        let table = self.component_table();
        match find_key(table, &comp) {
            Some(i) => {
                let info = &table[i].1;
                let mut items = tag_all(&info.inputs, "input");
                let mut outs = tag_all(&info.outputs, "output");
                let ghost a = items@;
                let ghost b = outs@;
                items.append(&mut outs);
                proof {
                    assert(entries(items@) =~= entries(a) + entries(b));
                    assert(entries(table@)[i as int].1 == info@);
                }
                QueryResult::Found(items)
            },
            None => QueryResult::ContinueSearch(copy_strings(imports), comp),
        }
    }

    /// The entry of the component around the node at `point`.
    fn info_at(&self, point: &Point) -> (r: Option<usize>)
        requires
            self.wf(),
        ensures
            r matches Some(i) ==> i < self.table().len() && info_at(
                self.nodes(),
                self.table(),
                *point,
            ) == Some(self.table()[i as int].1),
            r is None ==> info_at(self.nodes(), self.table(), *point) is None,
    {
        let x = match self.node_at_point(point) {
            Some(x) => x,
            None => return None,
        };
        let name = match self.enclosing_component_name(x) {
            Some(n) => n,
            None => return None,
        };
        find_key(self.component_table(), &name)
    }

    /// The completions after `cell.`; see `dot_completion`.
    fn dot_completions(&self, point: &Point, imports: &Vec<String>) -> (r: QueryResult<
        Vec<(String, String)>,
        String,
    >)
        requires
            self.wf(),
        ensures
            items_view(r) == dot_completion(
                info_at(self.nodes(), self.table(), *point),
                self.table(),
                self.text_view(),
                *point,
                strings(imports@),
            ),
    {
        let nothing: Vec<(String, String)> = Vec::new();
        proof {
            assert(entries(nothing@) =~= Seq::<(Seq<char>, Seq<char>)>::empty());
        }
        let table = self.component_table();
        let word = match word_before(self.text(), point.row, point.column) {
            Some(w) => w,
            None => return QueryResult::Found(nothing),
        };
        let i = match self.info_at(point) {
            Some(i) => i,
            None => return QueryResult::Found(nothing),
        };
        let cells = &table[i].1.cells;
        match find_key(cells, &word) {
            Some(j) => self.port_completions(cells[j].1.clone(), imports),
            None => QueryResult::Found(nothing),
        }
    }

    /// The completions at `point`; see `completion`. `trigger_char` is the
    /// character that triggered the request, if any.
    pub fn completion_at_point(
        &self,
        point: Point,
        trigger_char: Option<String>,
        imports: &Vec<String>,
    ) -> (r: QueryResult<Vec<(String, String)>, String>)
        requires
            self.wf(),
        ensures
            items_view(r) == completion(
                self.nodes(),
                self.table(),
                self.text_view(),
                point,
                trigger_char matches Some(t) && t@ == "."@,
                strings(imports@),
            ),
    {
        let nothing: Vec<(String, String)> = Vec::new();
        proof {
            assert(entries(nothing@) =~= Seq::<(Seq<char>, Seq<char>)>::empty());
        }
        let dot = match &trigger_char {
            Some(t) => same_chars(t.as_str(), "."),
            None => false,
        };
        if word_before(self.text(), point.row, point.column).is_none() {
            return QueryResult::Found(nothing);
        }
        let table = self.component_table();
        let ctx = self.context_at_point(&point);
        match ctx {
            Context::Toplevel | Context::Component => QueryResult::Found(nothing),
            Context::Cells => {
                let names = key_list(table);
                QueryResult::Found(tag_all(&names, "component"))
            },
            Context::Group if dot => self.dot_completions(&point, imports),
            Context::Wires if dot => self.dot_completions(&point, imports),
            Context::Group => match self.info_at(&point) {
                Some(i) => {
                    let info = &table[i].1;
                    let names = key_list(&info.cells);
                    let mut items = tag_all(&names, "cell");
                    let mut hs = hole_items(&info.groups);
                    let ghost a = items@;
                    let ghost b = hs@;
                    items.append(&mut hs);
                    proof {
                        assert(entries(items@) =~= entries(a) + entries(b));
                        assert(entries(table@)[i as int].1 == info@);
                    }
                    QueryResult::Found(items)
                },
                None => QueryResult::Found(nothing),
            },
            Context::Wires => match self.info_at(&point) {
                Some(i) => {
                    let names = key_list(&table[i].1.cells);
                    assert(entries(table@)[i as int].1 == table[i as int].1@);
                    QueryResult::Found(tag_all(&names, "cell"))
                },
                None => QueryResult::Found(nothing),
            },
            Context::Control => match self.info_at(&point) {
                Some(i) => {
                    assert(entries(table@)[i as int].1 == table[i as int].1@);
                    QueryResult::Found(tag_all(&table[i].1.groups, "group"))
                },
                None => QueryResult::Found(nothing),
            },
        }
    }
}

} // verus!
