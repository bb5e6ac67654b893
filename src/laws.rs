//! Properties that relate several operations of the library.

use crate::completion::{completion, info_at, lookup, port_items, tagged};
use crate::convert::{range_contains, Point};
use crate::document::{
    container_at, context_at, doc_node_at, holds_container, thing_at, thing_of, Context, Document,
    ThingView,
};
use crate::goto_definition::{
    component_definition, definition, first_named, next_index, unvisited, Outcome,
};
use crate::syntax::{
    enclosing_container, has_next_sibling, has_prev_sibling, is_container, member_name_nodes,
    name_node, node_range, parent_of,
};
use crate::table::{containers, InfoView};
use crate::text::preceding_word;
use crate::imports::{candidates, join_path, roots};
use crate::table::{key_index, keys_unique, upsert, upsert_all};
use vstd::prelude::*;

verus! {

/// Two documents whose texts parsed to the same tree have the same
/// component table, whatever each held before: the table is rebuilt from
/// the tree alone, so parsing the same text again gives the same table.
/// The parser stands outside the library, so the same text is stated here
/// as the same tree that the parser gives for it.
pub proof fn reparse_gives_same_table(a: Document, b: Document)
    requires
        a.wf(),
        b.wf(),
        a.nodes() == b.nodes(),
    ensures
        a.table() == b.table(),
{
}

proof fn lemma_upsert_unique<V>(s: Seq<(Seq<char>, V)>, k: Seq<char>, v: V)
    requires
        keys_unique(s),
    ensures
        keys_unique(upsert(s, k, v)),
{
    let i = key_index(s, k);
    crate::search::lemma_first_from(0, s.len() as int, crate::table::key_is(s, k));
    if i >= s.len() {
        let t = s.push((k, v));
        assert forall|x: int, y: int| 0 <= x < y < t.len() implies t[x].0 != t[y].0 by {
            if y == s.len() {
                assert(!crate::table::key_is(s, k)(x));
            }
        }
    }
}

proof fn lemma_upsert_all_unique<V>(pairs: Seq<(Seq<char>, V)>)
    ensures
        keys_unique(upsert_all(pairs)),
    decreases pairs.len(),
{
    if pairs.len() > 0 {
        lemma_upsert_all_unique(pairs.drop_last());
        lemma_upsert_unique(upsert_all(pairs.drop_last()), pairs.last().0, pairs.last().1);
    }
}

/// A component table holds one entry per name: building it never repeats
/// a component, and neither does any component's cell list.
pub proof fn table_has_no_duplicates(d: Document)
    requires
        d.wf(),
    ensures
        keys_unique(d.table()),
        forall|i: int| 0 <= i < d.table().len() ==> keys_unique(#[trigger] d.table()[i].1.cells),
{
    if let Some(ns) = d.nodes() {
        lemma_upsert_all_unique(
            crate::table::containers(ns).map_values(crate::table::table_entry(ns)),
        );
        let pairs = crate::table::containers(ns).map_values(crate::table::table_entry(ns));
        let good = |v: crate::table::InfoView| keys_unique(v.cells);
        assert forall|j: int| 0 <= j < pairs.len() implies good(#[trigger] pairs[j].1) by {
            let c = crate::table::containers(ns)[j];
            lemma_upsert_all_unique(crate::table::cell_pairs(ns, c));
        }
        lemma_upsert_all_values(pairs, good);
        assert forall|i: int| 0 <= i < d.table().len() implies keys_unique(
            #[trigger] d.table()[i].1.cells,
        ) by {
            assert(good(upsert_all(pairs)[i].1));
        }
    }
}

proof fn lemma_upsert_all_values<V>(pairs: Seq<(Seq<char>, V)>, good: spec_fn(V) -> bool)
    requires
        forall|j: int| 0 <= j < pairs.len() ==> good(#[trigger] pairs[j].1),
    ensures
        forall|i: int|
            0 <= i < upsert_all(pairs).len() ==> good(#[trigger] upsert_all(pairs)[i].1),
    decreases pairs.len(),
{
    if pairs.len() > 0 {
        let prev = pairs.drop_last();
        assert forall|j: int| 0 <= j < prev.len() implies good(#[trigger] prev[j].1) by {
            assert(0 <= j < pairs.len());
            assert(prev[j] == pairs[j]);
            assert(good(pairs[j].1));
        }
        lemma_upsert_all_values(prev, good);
        let s = upsert_all(prev);
        let k = pairs.last().0;
        let v = pairs.last().1;
        assert(good(v));
        let t = upsert(s, k, v);
        let idx = key_index(s, k);
        crate::search::lemma_first_from(0, s.len() as int, crate::table::key_is(s, k));
        assert forall|i: int| 0 <= i < t.len() implies good(#[trigger] t[i].1) by {
            if idx < s.len() {
                assert(t == s.update(idx, (k, v)));
                if i != idx {
                    assert(t[i] == s[i]);
                    assert(good(s[i].1));
                }
            } else if i < s.len() {
                assert(t == s.push((k, v)));
                assert(t[i] == s[i]);
                assert(good(s[i].1));
            }
        }
    }
}

/// A position that is not over an identifier (or an import's path) refers
/// to nothing.
pub proof fn no_thing_off_identifiers(d: Document, p: Point)
    requires
        d.wf(),
        doc_node_at(d.nodes(), p) matches Some(x) ==> d.nodes()->0[x].kind@ != "ident"@
            && d.nodes()->0[x].kind@ != "string"@,
    ensures
        thing_at(d.nodes(), p) is None,
{
}

/// A position is at the top level exactly when no component or primitive
/// of the file has a range that holds it, ends included.
pub proof fn toplevel_only_outside_components(d: Document, p: Point)
    requires
        d.wf(),
        d.nodes() is Some,
    ensures
        (context_at(d.nodes(), p) == Context::Toplevel) <==> !(exists|k: int|
            0 <= k < d.nodes()->0.len() && is_container(d.nodes()->0[k].kind@) && range_contains(
                node_range(#[trigger] d.nodes()->0[k]),
                p,
            )),
{
    let ns = d.nodes()->0;
    let f = holds_container(ns, p);
    crate::search::lemma_last_before(0, ns.len() as int, f);
    let c = container_at(ns, p);
    if c >= 0 {
        assert(f(c));
        assert(is_container(ns[c].kind@) && range_contains(node_range(ns[c]), p));
    } else {
        assert forall|k: int| 0 <= k < ns.len() implies !(is_container(ns[k].kind@)
            && range_contains(node_range(#[trigger] ns[k]), p)) by {
            assert(!f(k));
        }
    }
}

/// An identifier written before a port (`a.in`) refers to the cell `a`,
/// and its definition is the name of the first cell assignment of that
/// name in the enclosing component, or nothing if there is none.
pub proof fn cell_reference_resolves(d: Document, x: int, paths: Seq<Seq<char>>)
    requires
        d.wf(),
        d.nodes() matches Some(ns) && 0 < x < ns.len() && ns[x].kind@ == "ident"@
            && ns[parent_of(ns, x)].kind@ == "port"@ && has_next_sibling(ns, x)
            && enclosing_container(ns, x) is Some,
    ensures
        ({
            let ns = d.nodes()->0;
            let c = enclosing_container(ns, x)->0;
            let t = ThingView::Cell(x, ns[x].text@);
            &&& thing_of(ns, x) == Some(t)
            &&& definition(d.nodes(), d.url_view(), t, paths) == match first_named(
                ns,
                member_name_nodes(ns, c, "cell_assignment"@),
                ns[x].text@,
            ) {
                Some(k) => Some(
                    Outcome::<(Seq<char>, crate::convert::Range), Seq<char>>::Found(
                        (d.url_view(), node_range(ns[k])),
                    ),
                ),
                None => None,
            }
        }),
{
}

/// An identifier written alone as a port refers to a port of the
/// enclosing component, and its definition is the first port declaration
/// of that name in that component's signature, or nothing if there is
/// none.
pub proof fn self_port_resolves(d: Document, x: int, paths: Seq<Seq<char>>)
    requires
        d.wf(),
        d.nodes() matches Some(ns) && 0 < x < ns.len() && ns[x].kind@ == "ident"@
            && ns[parent_of(ns, x)].kind@ == "port"@ && !has_next_sibling(ns, x)
            && !has_prev_sibling(ns, x) && enclosing_container(ns, x) is Some,
    ensures
        ({
            let ns = d.nodes()->0;
            let c = enclosing_container(ns, x)->0;
            let t = ThingView::SelfPort(x, ns[x].text@);
            &&& thing_of(ns, x) == Some(t)
            &&& definition(d.nodes(), d.url_view(), t, paths) == match first_named(
                ns,
                member_name_nodes(ns, c, "io_port"@),
                ns[x].text@,
            ) {
                Some(k) => Some(
                    Outcome::<(Seq<char>, crate::convert::Range), Seq<char>>::Found(
                        (d.url_view(), node_range(ns[k])),
                    ),
                ),
                None => None,
            }
        }),
{
}

/// A component that file `y` does not declare is sought in the files that
/// `y`'s imports resolve to, the last of them first; file `x`, which
/// declares it, answers with its declaration.
pub proof fn component_found_through_imports(
    y: Document,
    x: Document,
    name: Seq<char>,
    paths: Seq<Seq<char>>,
    k: int,
)
    requires
        y.wf(),
        x.wf(),
        y.nodes() matches Some(ys) && first_named(
            ys,
            containers(ys).map_values(|c: int| name_node(ys, c)),
            name,
        ) is None,
        x.nodes() matches Some(xs) && first_named(
            xs,
            containers(xs).map_values(|c: int| name_node(xs, c)),
            name,
        ) == Some(k),
    ensures
        component_definition(y.nodes(), y.url_view(), name, paths) == Outcome::<
            (Seq<char>, crate::convert::Range),
            Seq<char>,
        >::ContinueSearch(paths, name),
        paths.len() > 0 ==> next_index(paths, Seq::empty()) == paths.len() - 1,
        forall|more: Seq<Seq<char>>|
            #[trigger] component_definition(x.nodes(), x.url_view(), name, more) == Outcome::<
                (Seq<char>, crate::convert::Range),
                Seq<char>,
            >::Found((x.url_view(), node_range(x.nodes()->0[k]))),
{
    if paths.len() > 0 {
        let f = unvisited(paths, Seq::empty());
        assert(f(paths.len() - 1));
    }
}

/// After `.` in a group, where the word before the cursor names a cell of
/// the enclosing component and the file declares the component that the
/// cell instantiates, the completions are exactly that component's input
/// ports, then its output ports.
pub proof fn dot_completion_offers_ports(
    d: Document,
    p: Point,
    imports: Seq<Seq<char>>,
    word: Seq<char>,
    comp: Seq<char>,
    info: InfoView,
)
    requires
        d.wf(),
        context_at(d.nodes(), p) == Context::Group,
        preceding_word(d.text_view(), p.row as int, p.column as int) == Some(word),
        info_at(d.nodes(), d.table(), p) matches Some(i) && lookup(i.cells, word) == Some(comp),
        lookup(d.table(), comp) == Some(info),
    ensures
        completion(d.nodes(), d.table(), d.text_view(), p, true, imports) == Outcome::<
            Seq<(Seq<char>, Seq<char>)>,
            Seq<char>,
        >::Found(tagged(info.inputs, "input"@) + tagged(info.outputs, "output"@)),
{
    assert(port_items(info) == tagged(info.inputs, "input"@) + tagged(info.outputs, "output"@));
}

/// With the file's directory and one library root, an import is sought
/// first in the directory, then under the root.
pub proof fn directory_before_library(cur_dir: Seq<char>, lib: Seq<char>, import: Seq<char>)
    ensures
        candidates(roots(cur_dir, seq![lib]), seq![import]) == seq![
            join_path(cur_dir, import),
            join_path(lib, import),
        ],
{
    let rs = roots(cur_dir, seq![lib]);
    let is = seq![import];
    assert(is.drop_last() =~= Seq::<Seq<char>>::empty());
    assert(candidates(rs, Seq::<Seq<char>>::empty()) =~= Seq::<Seq<char>>::empty());
    assert(is.last() == import);
    assert(rs =~= seq![cur_dir, lib]);
    assert(candidates(rs, is) =~= seq![join_path(cur_dir, import), join_path(lib, import)]);
}

} // verus!
